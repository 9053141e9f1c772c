use mum::mumpb::{
    is_message, ConfRequest, KvPair, Op, OpRequest, OpResponse, RaftMessage,
};
use mum::pbwire::{put_varint, take_field, take_varint, Got};
use mum::raftpb::{ConfChange, ConfChangeType};

#[test]
fn varints_take_seven_bits_a_byte() {
    let mut out = Vec::new();
    put_varint(&mut out, 0);
    put_varint(&mut out, 127);
    put_varint(&mut out, 128);
    put_varint(&mut out, 300);
    put_varint(&mut out, u64::MAX);
    assert_eq!(
        out,
        vec![
            0, 127, 0x80, 1, 0xac, 2, 0xff, 0xff, 0xff, 0xff, 0xff, 0xff, 0xff, 0xff, 0xff, 1
        ]
    );
    assert_eq!(take_varint(&out, 0), Some((0, 1)));
    assert_eq!(take_varint(&out, 2), Some((128, 2)));
    assert_eq!(take_varint(&out, 4), Some((300, 2)));
    assert_eq!(take_varint(&out, 6), Some((u64::MAX, 10)));
    assert_eq!(take_varint(&[0x80], 0), None);
    assert_eq!(take_varint(&[], 0), None);
    let too_long = [0x80u8, 0x80, 0x80, 0x80, 0x80, 0x80, 0x80, 0x80, 0x80, 0x80, 1];
    assert_eq!(take_varint(&too_long, 0), None);
    let too_big = [0xffu8, 0xff, 0xff, 0xff, 0xff, 0xff, 0xff, 0xff, 0xff, 2];
    assert_eq!(take_varint(&too_big, 0), None);
}

#[test]
fn fields_are_read_by_wire_type() {
    assert!(matches!(take_field(&[0x08, 5], 0), Some((1, Got::Varint(5), 2))));
    assert!(matches!(take_field(&[0x12, 2, 7, 8], 0), Some((2, Got::Range(2, 4), 4))));
    assert!(matches!(
        take_field(&[0x09, 1, 2, 3, 4, 5, 6, 7, 8], 0),
        Some((1, Got::Range(1, 9), 9))
    ));
    assert!(matches!(take_field(&[0x0d, 1, 2, 3, 4], 0), Some((1, Got::Range(1, 5), 5))));
    assert!(take_field(&[0x12, 3, 7, 8], 0).is_none());
    assert!(take_field(&[0x0b], 0).is_none());
    assert!(take_field(&[0x0d, 1, 2], 0).is_none());
}

#[test]
fn an_operation_is_encoded_field_by_field() {
    let r = OpRequest { field_type: Op::Scan, key: vec![1, 2], value: vec![3], limit: 300 };
    let bytes = r.write_to_bytes();
    assert_eq!(bytes, vec![0x08, 3, 0x12, 2, 1, 2, 0x1a, 1, 3, 0x20, 0xac, 2]);
    assert_eq!(OpRequest::parse_from_bytes(&bytes).unwrap(), r);
    let empty = OpRequest { field_type: Op::Put, key: vec![], value: vec![], limit: 0 };
    assert_eq!(empty.write_to_bytes(), Vec::<u8>::new());
    assert_eq!(OpRequest::parse_from_bytes(&[]).unwrap(), empty);
}

#[test]
fn an_operation_is_read_in_any_order_and_skips_what_it_does_not_know() {
    let bytes = vec![0x20, 7, 0x1a, 1, 9, 0x28, 1, 0x32, 1, 0, 0x08, 2, 0x08, 9, 0x12, 1, 4];
    let r = OpRequest::parse_from_bytes(&bytes).unwrap();
    assert_eq!(r, OpRequest { field_type: Op::Del, key: vec![4], value: vec![9], limit: 7 });
    assert!(OpRequest::parse_from_bytes(&[0x10, 1]).is_err());
    assert!(OpRequest::parse_from_bytes(&[0x0a, 1, 1]).is_err());
    assert!(OpRequest::parse_from_bytes(&[0x00, 1]).is_err());
    assert!(OpRequest::parse_from_bytes(&[0x12, 4, 1]).is_err());
    assert!(OpRequest::parse_from_bytes(&[0x11, 1, 2, 3, 4, 5, 6, 7, 8]).is_err());
}

#[test]
fn a_response_holds_its_pairs_in_order() {
    let r = OpResponse {
        kvs: vec![
            KvPair { key: vec![1], value: vec![2, 3] },
            KvPair { key: vec![], value: vec![] },
            KvPair { key: vec![4], value: vec![] },
        ],
    };
    let bytes = r.write_to_bytes();
    assert_eq!(
        bytes,
        vec![0x0a, 7, 0x0a, 1, 1, 0x12, 2, 2, 3, 0x0a, 0, 0x0a, 3, 0x0a, 1, 4]
    );
    assert_eq!(OpResponse::parse_from_bytes(&bytes).unwrap(), r);
    assert_eq!(OpResponse::parse_from_bytes(&[]).unwrap(), OpResponse { kvs: vec![] });
    assert!(OpResponse::parse_from_bytes(&[0x0a, 2, 0x0a, 5]).is_err());
    assert!(OpResponse::parse_from_bytes(&[0x08, 1]).is_err());
}

#[test]
fn a_membership_request_wraps_the_change() {
    let r = ConfRequest {
        change: ConfChange {
            id: 0,
            change_type: ConfChangeType::AddNode,
            node_id: 3,
            context: b"127.0.0.1:9003".to_vec(),
        },
    };
    let bytes = r.write_to_bytes().unwrap();
    let mut expected = vec![0x0a, 18, 0x18, 3, 0x22, 14];
    expected.extend_from_slice(b"127.0.0.1:9003");
    assert_eq!(bytes, expected);
    assert_eq!(ConfRequest::parse_from_bytes(&bytes).unwrap(), r);
    let empty = ConfRequest::parse_from_bytes(&[]).unwrap();
    assert_eq!(empty.change.node_id, 0);
    assert!(ConfRequest::parse_from_bytes(&[0x0a, 2, 0x22, 9]).is_err());
}

#[test]
fn a_consensus_message_is_wrapped_as_it_is() {
    let m = RaftMessage { message: vec![0x10, 2] };
    let bytes = m.write_to_bytes();
    assert_eq!(bytes, vec![0x0a, 2, 0x10, 2]);
    assert_eq!(RaftMessage::parse_from_bytes(&bytes).unwrap(), m);
    assert_eq!(
        RaftMessage::parse_from_bytes(&[0x0a, 1, 5, 0x0a, 1, 6]).unwrap().message,
        vec![6]
    );
    assert!(RaftMessage::parse_from_bytes(&[0x0a, 3, 1]).is_err());
}

#[test]
fn an_answer_without_fields_is_any_message() {
    assert!(is_message(&[]));
    assert!(is_message(&[0x08, 1, 0x12, 0]));
    assert!(!is_message(&[0x08]));
    assert!(!is_message(&[0x00, 1]));
}
