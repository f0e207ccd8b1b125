use hyperg::filemap::{hash_bundles, hash_file};
use hyperg::registry::{FileEntry, Registry, INLINE_THRESHOLD};

fn entry(name: &str, path: &str, data: &[u8]) -> FileEntry {
    FileEntry { map: hash_file(data, name.to_string()), path: path.to_string() }
}

#[test]
fn registered_resources_are_found_under_their_hash() {
    let mut registry = Registry::new();
    let files = vec![entry("a", "/tmp/a", b"abc"), entry("b", "/tmp/b", b"hello world")];
    let expected = hash_bundles(&vec![files[0].map.clone(), files[1].map.clone()]);
    let hash = registry.register(files.clone(), Some(100), Vec::new());
    assert_eq!(hash, expected);
    assert_eq!(hash, 0x645b68e4b166270af417c5d38c95ae5d);
    let found = registry.lookup(hash).expect("registered");
    assert_eq!(found.map_hash, hash);
    assert_eq!(found.files, files);
    assert_eq!(found.valid_to, Some(100));
    assert!(found.inline_data.is_empty());
    assert!(registry.lookup(hash + 1).is_none());
}

#[test]
fn registering_the_same_content_twice_only_refreshes_the_expiry() {
    let mut registry = Registry::new();
    let first = vec![entry("a", "/first/a", b"abc")];
    let again = vec![entry("other name", "/second/a", b"abc")];
    let hash = registry.register(first.clone(), Some(100), Vec::new());
    let same = registry.register(again, Some(500), b"abc".to_vec());
    assert_eq!(hash, same);
    assert_eq!(registry.enumerate().len(), 1);
    let found = registry.lookup(hash).expect("registered");
    assert_eq!(found.valid_to, Some(500));
    assert_eq!(found.files, first);
    assert!(found.inline_data.is_empty());
    registry.register(first, None, Vec::new());
    assert_eq!(registry.lookup(hash).expect("registered").valid_to, None);
    assert_eq!(registry.enumerate().len(), 1);
}

#[test]
fn entries_are_listed_in_the_order_of_registration() {
    let mut registry = Registry::new();
    let a = registry.register(vec![entry("a", "/a", b"1")], None, Vec::new());
    let b = registry.register(vec![entry("b", "/b", b"2")], None, Vec::new());
    let c = registry.register(vec![entry("c", "/c", b"3")], None, Vec::new());
    registry.register(vec![entry("a", "/a", b"1")], Some(9), Vec::new());
    let listed: Vec<u128> = registry.enumerate().iter().map(|d| d.map_hash).collect();
    assert_eq!(listed, vec![a, b, c]);
}

#[test]
fn sweep_evicts_what_has_expired() {
    let mut registry = Registry::new();
    let early = registry.register(vec![entry("a", "/a", b"1")], Some(10), Vec::new());
    let never = registry.register(vec![entry("b", "/b", b"2")], None, Vec::new());
    let exact = registry.register(vec![entry("c", "/c", b"3")], Some(20), Vec::new());
    let late = registry.register(vec![entry("d", "/d", b"4")], Some(21), Vec::new());

    assert_eq!(registry.sweep(9), Vec::<u128>::new());
    assert_eq!(registry.enumerate().len(), 4);

    assert_eq!(registry.sweep(20), vec![early, exact]);
    assert!(registry.lookup(early).is_none());
    assert!(registry.lookup(exact).is_none());
    assert!(registry.lookup(never).is_some());
    assert!(registry.lookup(late).is_some());
    let listed: Vec<u128> = registry.enumerate().iter().map(|d| d.map_hash).collect();
    assert_eq!(listed, vec![never, late]);

    assert_eq!(registry.sweep(u64::MAX), vec![late]);
    assert_eq!(registry.enumerate().len(), 1);
    assert!(registry.lookup(never).is_some());
}

#[test]
fn an_expired_entry_stays_until_the_sweep() {
    let mut registry = Registry::new();
    let hash = registry.register(vec![entry("a", "/a", b"1")], Some(10), Vec::new());
    let found = registry.lookup(hash).expect("still there");
    assert!(found.is_expired(10));
    assert!(found.is_expired(11));
    assert!(!found.is_expired(9));
    registry.sweep(10);
    assert!(registry.lookup(hash).is_none());
}

#[test]
fn removing_twice_finds_nothing_the_second_time() {
    let mut registry = Registry::new();
    let keep = registry.register(vec![entry("k", "/k", b"keep")], None, Vec::new());
    let hash = registry.register(vec![entry("a", "/a", b"abc")], Some(1), Vec::new());
    let removed = registry.remove(hash).expect("was registered");
    assert_eq!(removed.map_hash, hash);
    assert_eq!(removed.valid_to, Some(1));
    assert!(registry.remove(hash).is_none());
    assert!(registry.lookup(hash).is_none());
    assert!(registry.lookup(keep).is_some());
    assert_eq!(registry.enumerate().len(), 1);
}

#[test]
fn a_single_small_file_is_cached() {
    let mut registry = Registry::new();
    let hash = registry.register(vec![entry("a", "/a", b"abc")], None, b"abc".to_vec());
    assert_eq!(registry.lookup(hash).expect("registered").inline_data, b"abc".to_vec());
}

#[test]
fn nothing_else_is_cached() {
    let mut registry = Registry::new();
    let wrong = registry.register(vec![entry("a", "/a", b"abc")], None, b"abd".to_vec());
    assert!(registry.lookup(wrong).expect("registered").inline_data.is_empty());

    let two = registry.register(
        vec![entry("a", "/a", b"abc"), entry("b", "/b", b"abc")],
        None,
        b"abc".to_vec(),
    );
    assert!(registry.lookup(two).expect("registered").inline_data.is_empty());

    let big = vec![1u8; INLINE_THRESHOLD as usize];
    let at_threshold = registry.register(vec![entry("big", "/big", &big)], None, big.clone());
    assert!(registry.lookup(at_threshold).expect("registered").inline_data.is_empty());

    let small = vec![1u8; INLINE_THRESHOLD as usize - 1];
    let below = registry.register(vec![entry("small", "/small", &small)], None, small.clone());
    assert_eq!(registry.lookup(below).expect("registered").inline_data, small);
}

#[test]
fn total_size_is_the_sum_of_the_file_sizes() {
    let mut registry = Registry::new();
    let hash = registry.register(
        vec![entry("a", "/a", b"abc"), entry("b", "/b", b"hello world"), entry("c", "/c", b"")],
        None,
        Vec::new(),
    );
    assert_eq!(registry.lookup(hash).expect("registered").size(), 14);
}
