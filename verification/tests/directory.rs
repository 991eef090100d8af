use stream_db::{AlreadyExists, StreamDirectory};

#[test]
fn new_directory_is_empty() {
    let dir: StreamDirectory<usize> = StreamDirectory::new(0);
    assert_eq!(dir.len(), 0);
    assert!(!dir.contains(b"a"));
    assert_eq!(dir.get(b"a"), None);
}

#[test]
fn insert_lists_the_name_with_its_handle() {
    let mut dir: StreamDirectory<usize> = StreamDirectory::new(7);
    assert_eq!(dir.insert(b"a", 10), Ok(()));
    assert_eq!(dir.insert(b"b", 20), Ok(()));
    assert_eq!(dir.len(), 2);
    assert_eq!(dir.get(b"a"), Some(&10));
    assert_eq!(dir.get(b"b"), Some(&20));
    assert_eq!(dir.get(b"c"), None);
    assert!(dir.contains(b"a"));
    assert!(!dir.contains(b"ab"));
}

#[test]
fn insert_refuses_a_listed_name_and_keeps_the_handle() {
    let mut dir: StreamDirectory<usize> = StreamDirectory::new(7);
    assert_eq!(dir.insert(b"a", 10), Ok(()));
    assert_eq!(dir.insert(b"a", 11), Err(AlreadyExists));
    assert_eq!(dir.len(), 1);
    assert_eq!(dir.get(b"a"), Some(&10));
}

#[test]
fn directory_finds_names_by_their_bytes() {
    let stored = vec![9u8, 8, 7];
    let asked = vec![9u8, 8, 7];
    let mut dir: StreamDirectory<u32> = StreamDirectory::new(1);
    assert_eq!(dir.insert(&stored, 5), Ok(()));
    assert_eq!(dir.get(&asked), Some(&5));
    assert_eq!(dir.insert(&asked, 6), Err(AlreadyExists));
}

#[test]
fn directory_holds_the_same_entries_under_any_seed() {
    for seed in [0u64, 1, 42, u64::MAX] {
        let names: Vec<Vec<u8>> = (0..200u32).map(|i| i.to_le_bytes().to_vec()).collect();
        let mut dir: StreamDirectory<u32> = StreamDirectory::new(seed);
        for (i, name) in names.iter().enumerate() {
            assert_eq!(dir.insert(name, i as u32), Ok(()));
        }
        assert_eq!(dir.len(), 200);
        for (i, name) in names.iter().enumerate() {
            assert_eq!(dir.get(name), Some(&(i as u32)));
        }
    }
}

#[test]
fn directory_takes_the_empty_name() {
    let mut dir: StreamDirectory<usize> = StreamDirectory::new(0);
    assert_eq!(dir.insert(b"", 3), Ok(()));
    assert_eq!(dir.get(b""), Some(&3));
    assert_eq!(dir.len(), 1);
}
