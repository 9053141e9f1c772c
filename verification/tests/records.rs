use mum::wal::record::{Record, RecordType};

#[test]
fn record_encoding_is_tag_crc_length_payload() {
    let r = Record::new(RecordType::StateType, vec![1, 2, 3]);
    let bytes = r.encode();
    assert_eq!(bytes.len(), 13 + 3);
    assert_eq!(bytes[0], 1);
    assert_eq!(&bytes[1..5], &r.crc.to_le_bytes());
    assert_eq!(&bytes[5..13], &3u64.to_le_bytes());
    assert_eq!(&bytes[13..], &[1, 2, 3]);
    let back = Record::decode(&bytes).unwrap();
    assert_eq!(back, r);
    let mut longer = bytes.clone();
    longer.push(0xff);
    assert_eq!(Record::decode(&longer).unwrap(), r);
    assert!(Record::decode(&bytes[..bytes.len() - 1]).is_err());
    let mut bad_tag = bytes.clone();
    bad_tag[0] = 4;
    assert!(Record::decode(&bad_tag).is_err());
    for (tag, ty) in [
        (0u8, RecordType::EntryType),
        (1, RecordType::StateType),
        (2, RecordType::CrcType),
        (3, RecordType::IndexType),
    ] {
        assert_eq!(ty.tag(), tag);
        assert_eq!(RecordType::from_tag(tag), Some(ty));
    }
}

#[test]
fn crc32c_of_check_string() {
    let r = Record::new(RecordType::EntryType, b"123456789".to_vec());
    assert_eq!(r.crc, 0xe306_9283);
    assert!(r.crc_ok());
    assert_eq!(Record::new(RecordType::CrcType, vec![1, 2, 3]).crc, 0xf130_f21e);
    let mut changed = r.clone();
    changed.data[0] ^= 1;
    assert!(!changed.crc_ok());
}
