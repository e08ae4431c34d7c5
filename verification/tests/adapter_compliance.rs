//! Adapter compliance tests: the backends expose the expected identifier
//! type and bounds, and implement Debug.

use std::fmt::Debug;

use stowage::{LocalStorage, MemoryStorage};

fn check_id_bounds<I: Clone + Debug + Send + Sync + 'static>() -> bool {
    true
}

fn check_storage_bounds<S: Send + Sync + Debug>() -> bool {
    true
}

#[test]
fn memory_storage_implements_storage() {
    assert!(check_id_bounds::<String>());
    assert!(check_storage_bounds::<MemoryStorage>());

    let _storage = MemoryStorage::new();
}

#[test]
fn local_storage_implements_storage() {
    assert!(check_id_bounds::<String>());
    assert!(check_storage_bounds::<LocalStorage>());

    let _storage = LocalStorage::new("/tmp".to_string());
}

#[test]
fn adapters_implement_debug() {
    let storage = MemoryStorage::new();
    let debug_str = format!("{:?}", storage);
    assert!(debug_str.contains("MemoryStorage"));
}

#[test]
fn local_storage_debug() {
    let storage = LocalStorage::new("/tmp/test".to_string());
    let debug_str = format!("{:?}", storage);
    assert!(debug_str.contains("LocalStorage"));
}
