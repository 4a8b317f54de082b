use beatstar::text::RustCStringWrapper;
use std::collections::hash_map::DefaultHasher;
use std::collections::{HashMap, HashSet};
use std::hash::{Hash, Hasher};

fn hash_of(handle: &RustCStringWrapper) -> u64 {
    let mut state = DefaultHasher::new();
    handle.hash(&mut state);
    state.finish()
}

#[test]
fn handles_with_equal_text_hash_equal() {
    let first = RustCStringWrapper::new(b"ExpertPlus".to_vec());
    let second = RustCStringWrapper::new(String::from("ExpertPlus").into_bytes());
    assert_ne!(first.as_bytes().as_ptr(), second.as_bytes().as_ptr());
    assert_eq!(hash_of(&first), hash_of(&second));
    assert_eq!(first.hash_value(), second.hash_value());
    assert_eq!(first.from_copy().hash_value(), first.hash_value());
}

#[test]
fn handles_with_malformed_bytes_hash_as_the_empty_text() {
    let broken = RustCStringWrapper::new(vec![0xff, 0x41]);
    let other = RustCStringWrapper::new(vec![0xc3]);
    let empty = RustCStringWrapper::new(Vec::new());
    assert!(broken == other && other == empty);
    assert_eq!(hash_of(&broken), hash_of(&empty));
    assert_eq!(hash_of(&other), hash_of(&empty));
    assert_eq!(broken.hash_value(), empty.hash_value());
}

#[test]
fn the_hash_tells_texts_apart() {
    let easy = RustCStringWrapper::new(b"Easy".to_vec());
    let hard = RustCStringWrapper::new(b"Hard".to_vec());
    assert_ne!(hash_of(&easy), hash_of(&hard));
    assert_ne!(easy.hash_value(), hard.hash_value());
}

#[test]
fn the_hash_value_is_that_of_the_written_text_bytes() {
    let handle = RustCStringWrapper::new(b"Lawless".to_vec());
    let mut state = DefaultHasher::new();
    state.write(b"Lawless");
    assert_eq!(handle.hash_value(), state.finish());
}

#[test]
fn handles_are_keys_by_their_text() {
    let mut seen = HashSet::new();
    assert!(seen.insert(RustCStringWrapper::new(b"Easy".to_vec())));
    assert!(seen.insert(RustCStringWrapper::new(b"Hard".to_vec())));
    assert!(!seen.insert(RustCStringWrapper::new(b"Easy".to_vec())));
    assert_eq!(seen.len(), 2);

    let mut notes = HashMap::new();
    notes.insert(RustCStringWrapper::new(b"Easy".to_vec()), 100);
    notes.insert(RustCStringWrapper::new(b"Easy".to_vec()), 200);
    assert_eq!(notes.len(), 1);
    assert_eq!(notes.get(&RustCStringWrapper::from_text("Easy").unwrap()), Some(&200));
    assert_eq!(notes.get(&RustCStringWrapper::from_text("Hard").unwrap()), None);
}
