use mum::kv::Store;
use mum::raftpb::Snapshot;

#[test]
fn set_get_delete_test() {
    let k = vec![1u8, 2u8, 3u8];
    let v = vec![4u8, 5u8, 6u8];
    let mut kv = Store::new();
    kv.set(k.clone(), v.clone());
    assert_eq!(kv.get(&k), Some(v.clone()));
    assert_eq!(kv.delete(&k), Some(v.clone()));
    assert_eq!(kv.get(&k), None);
}

#[test]
fn scan_test() {
    let k1 = vec![1u8, 2u8, 3u8];
    let v1 = vec![4u8, 5u8, 6u8];
    let k2 = vec![11u8, 12u8, 13u8];
    let v2 = vec![4u8, 5u8, 6u8];
    let k3 = vec![21u8, 22u8, 23u8];
    let v3 = vec![4u8, 5u8, 6u8];

    let mut kv = Store::new();
    kv.set(k1.clone(), v1.clone());
    kv.set(k2.clone(), v2.clone());
    kv.set(k3.clone(), v3.clone());
    assert_eq!(kv.scan(&k2, 3), vec![(k2, v2), (k3, v3)])
}

#[test]
fn scan_stops_at_the_limit() {
    let mut kv = Store::new();
    kv.set(vec![1], vec![10]);
    kv.set(vec![2], vec![20]);
    kv.set(vec![3], vec![30]);
    assert_eq!(kv.scan(&[1], 2), vec![(vec![1], vec![10]), (vec![2], vec![20])]);
    assert_eq!(kv.scan(&[1], 0), vec![]);
}

#[test]
fn scan_from_an_absent_key_is_empty() {
    let mut kv = Store::new();
    kv.set(vec![1], vec![10]);
    kv.set(vec![3], vec![30]);
    assert_eq!(kv.scan(&[2], 5), vec![]);
}

#[test]
fn set_again_keeps_the_place_and_returns_the_old_value() {
    let mut kv = Store::new();
    assert_eq!(kv.set(vec![1], vec![10]), None);
    assert_eq!(kv.set(vec![2], vec![20]), None);
    assert_eq!(kv.set(vec![1], vec![11]), Some(vec![10]));
    assert_eq!(kv.scan(&[1], 5), vec![(vec![1], vec![11]), (vec![2], vec![20])]);
}

#[test]
fn delete_keeps_the_order_of_the_other_pairs() {
    let mut kv = Store::new();
    kv.set(vec![1], vec![10]);
    kv.set(vec![2], vec![20]);
    kv.set(vec![3], vec![30]);
    assert_eq!(kv.delete(&[1]), Some(vec![10]));
    assert_eq!(kv.delete(&[9]), None);
    assert_eq!(kv.scan(&[2], 5), vec![(vec![2], vec![20]), (vec![3], vec![30])]);
    kv.set(vec![1], vec![11]);
    assert_eq!(
        kv.scan(&[2], 5),
        vec![(vec![2], vec![20]), (vec![3], vec![30]), (vec![1], vec![11])]
    );
}

#[test]
fn export_then_import_restores_the_pairs_in_order() {
    let mut kv = Store::new();
    kv.set(vec![7], vec![70]);
    kv.set(vec![5], vec![50, 51]);
    let bytes = kv.get_snapshot().unwrap();
    let mut expected = 2u64.to_le_bytes().to_vec();
    expected.extend_from_slice(&1u64.to_le_bytes());
    expected.push(7);
    expected.extend_from_slice(&1u64.to_le_bytes());
    expected.push(70);
    expected.extend_from_slice(&1u64.to_le_bytes());
    expected.push(5);
    expected.extend_from_slice(&2u64.to_le_bytes());
    expected.extend_from_slice(&[50, 51]);
    assert_eq!(bytes, expected);
    let mut other = Store::new();
    other.set(vec![9], vec![90]);
    other.from_snapshot(&Snapshot { data: bytes, metadata: None }).unwrap();
    assert_eq!(other.get(&[9]), None);
    assert_eq!(other.scan(&[7], 5), vec![(vec![7], vec![70]), (vec![5], vec![50, 51])]);
}

#[test]
fn import_refuses_bytes_that_are_no_map() {
    let mut kv = Store::new();
    kv.set(vec![1], vec![10]);
    let mut bad = u64::MAX.to_le_bytes().to_vec();
    bad.extend_from_slice(&[0; 32]);
    assert!(kv.from_snapshot(&Snapshot { data: bad, metadata: None }).is_err());
    assert!(kv.from_snapshot(&Snapshot { data: vec![1, 2, 3], metadata: None }).is_err());
    assert_eq!(kv.get(&[1]), Some(vec![10]));
}
