use mum::errors::Error;
use mum::hex::{parse_hex16, put_hex16};
use mum::order::{lex_le, lex_order, listing_order};
use std::cmp::Ordering;

#[test]
fn every_error_has_its_message() {
    assert_eq!(Error::Bincode.message(), "bincode error");
    assert_eq!(Error::MissMetadata.message(), "miss metadata in snapshot message");
    assert_eq!(Error::Protbuf.message(), "protobuf error");
    assert_eq!(Error::CrcMissMatch.message(), "crc miss match");
    assert_eq!(Error::SnapMissMatch.message(), "snapshot miss match");
    assert_eq!(Error::Utf8.message(), "invalid utf-8");
    assert_eq!(Error::Io.message(), "io error");
    assert_eq!(Error::NoSegment.message(), "no wal file starts at or before the index");
    assert_eq!(Error::SeqGap.message(), "unexpect seq number");
    assert_eq!(
        Error::MissFilePath(b"dir/wal".to_vec()).message(),
        "file path dir/wal not found"
    );
    assert_eq!(
        Error::BadSegmentName(b"x.wal".to_vec()).message(),
        "invalid format of file name x.wal"
    );
    assert_eq!(
        Error::UnknownMethod(vec![0x2f, 0xff]).message(),
        "unknown method /\u{fffd}"
    );
}

#[test]
fn hexadecimal_numbers_have_sixteen_digits() {
    let mut out = b"x".to_vec();
    put_hex16(&mut out, 0);
    put_hex16(&mut out, 0xdead_beef);
    put_hex16(&mut out, u64::MAX);
    assert_eq!(out, b"x000000000000000000000000deadbeefffffffffffffffff".to_vec());
    assert_eq!(parse_hex16(b"00000000deadbeef"), Some(0xdead_beef));
    assert_eq!(parse_hex16(b"ffffffffffffffff"), Some(u64::MAX));
    assert_eq!(parse_hex16(b"0000000000000000"), Some(0));
    assert_eq!(parse_hex16(b"00000000DEADBEEF"), None);
    assert_eq!(parse_hex16(b"deadbeef"), None);
    assert_eq!(parse_hex16(b"00000000deadbeef0"), None);
    assert_eq!(parse_hex16(b"0000000g00000000"), None);
}

#[test]
fn byte_strings_are_ordered_from_the_front() {
    assert_eq!(lex_order(b"abc", b"abd"), Ordering::Less);
    assert_eq!(lex_order(b"ab", b"abc"), Ordering::Less);
    assert_eq!(lex_order(b"b", b"abc"), Ordering::Greater);
    assert_eq!(lex_order(b"abc", b"abc"), Ordering::Equal);
    assert_eq!(lex_order(b"", b""), Ordering::Equal);
    assert!(lex_le(b"", b"a"));
    assert!(!lex_le(b"a", b""));
    assert_eq!(listing_order(&b"a".to_vec(), &b"b".to_vec(), false), Ordering::Less);
    assert_eq!(listing_order(&b"a".to_vec(), &b"b".to_vec(), true), Ordering::Greater);
    assert_eq!(listing_order(&b"a".to_vec(), &b"a".to_vec(), true), Ordering::Equal);
}
