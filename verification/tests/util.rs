use mum::names::{file_name, index_from_path, join};
use mum::util::{read_with_ext_and_sort, wal_exists, DirEntry};

fn entry(path: &str, is_file: bool) -> DirEntry {
    DirEntry { path: path.as_bytes().to_vec(), is_file }
}

#[test]
fn read_with_ext_test() {
    let entries = vec![
        entry("./file_tests/0000000000000002-0000000000000005.snap", true),
        entry("./file_tests/notes.txt", true),
        entry("./file_tests/0000000000000001-0000000000000009.snap", true),
        entry("./file_tests/dir.snap", false),
        entry("./file_tests/.snap", true),
    ];
    let found = read_with_ext_and_sort(&entries, b"snap", false);
    println!("{:?}", found);
    assert_eq!(
        found,
        vec![
            b"./file_tests/0000000000000001-0000000000000009.snap".to_vec(),
            b"./file_tests/0000000000000002-0000000000000005.snap".to_vec(),
        ]
    );
    let newest_first = read_with_ext_and_sort(&entries, b"snap", true);
    assert_eq!(
        newest_first,
        vec![
            b"./file_tests/0000000000000002-0000000000000005.snap".to_vec(),
            b"./file_tests/0000000000000001-0000000000000009.snap".to_vec(),
        ]
    );
}

#[test]
fn wal_exists_only_with_a_segment_file() {
    assert!(!wal_exists(&vec![entry("d/a.snap", true), entry("d/b.wal", false)]));
    assert!(wal_exists(&vec![entry("d/a.snap", true), entry("d/b.wal", true)]));
    assert!(!wal_exists(&vec![]));
}

#[test]
fn names_are_sixteen_hex_digits_twice() {
    let name = file_name(10, 255, b"wal");
    assert_eq!(name, b"000000000000000a-00000000000000ff.wal".to_vec());
    let path = join(b"dir", &name);
    assert_eq!(path, b"dir/000000000000000a-00000000000000ff.wal".to_vec());
    assert_eq!(index_from_path(&path), Some((10, 255)));
    assert_eq!(join(b"dir/", b"x"), b"dir/x".to_vec());
    assert_eq!(join(b"", b"x"), b"x".to_vec());
}

#[test]
fn names_that_are_no_index_are_refused() {
    assert_eq!(index_from_path(b"d/1-2.wal"), None);
    assert_eq!(index_from_path(b"d/000000000000000A-00000000000000ff.wal"), None);
    assert_eq!(index_from_path(b"d/000000000000000a_00000000000000ff.wal"), None);
    assert_eq!(
        index_from_path(b"ffffffffffffffff-0000000000000000.snap"),
        Some((u64::MAX, 0))
    );
}
