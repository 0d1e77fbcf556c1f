//! The key-value store: zero defaults, insert-or-replace, key derivation.

use rl_examples::store::{generate_id, MemoryStore, Store};

#[test]
fn missing_keys_read_zero() {
    let store = MemoryStore::new();
    assert_eq!(store.get_value(&String::from("0-0")), 0);
    assert_eq!(store.get_value(&String::from("20-7-true")), 0);
    assert_eq!(store.get_value(&String::from("")), 0);
}

#[test]
fn never_stepped_pair_reads_zero() {
    // A (state, action) pair nothing ever wrote reads exactly zero.
    let mut q_store = MemoryStore::new();
    q_store.store_value(generate_id("0", Some(1)), 42);
    let untouched = generate_id("0", Some(3));
    assert_eq!(q_store.get_value(&untouched), 0);
}

#[test]
fn store_and_read_back() {
    let mut store = MemoryStore::new();
    store.store_value(String::from("a"), 7);
    store.store_value(String::from("b"), -3);
    assert_eq!(store.get_value(&String::from("a")), 7);
    assert_eq!(store.get_value(&String::from("b")), -3);
}

#[test]
fn store_replaces_existing_value() {
    let mut store = MemoryStore::new();
    store.store_value(String::from("k"), 1);
    store.store_value(String::from("k"), 2);
    assert_eq!(store.get_value(&String::from("k")), 2);
}

#[test]
fn generate_id_formats_keys() {
    assert_eq!(generate_id("0", Some(3)), "0-3");
    assert_eq!(generate_id("20-7-true", Some(0)), "20-7-true-0");
    assert_eq!(generate_id("20-7-true", None), "20-7-true");
    assert_eq!(generate_id("0", Some(12)), "0-12");
}

#[test]
fn write_and_read_use_the_same_key() {
    let mut store = MemoryStore::new();
    store.store_value(generate_id("14-9-false", Some(1)), 55);
    assert_eq!(store.get_value(&generate_id("14-9-false", Some(1))), 55);
}
