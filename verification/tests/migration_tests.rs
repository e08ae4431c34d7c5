//! Bulk migration between backends.

use stowage::{ConflictStrategy, MemoryStorage, MigrateOptions, Storage, StorageExt};

#[test]
fn test_migrate_basic() {
    let mut source = MemoryStorage::new();
    let mut dest = MemoryStorage::new();

    source.put_bytes("a.txt".to_string(), b"hello").unwrap();
    source.put_bytes("b.txt".to_string(), b"world").unwrap();

    let result = source
        .migrate_to(&mut dest, MigrateOptions::default())
        .unwrap();

    assert_eq!(result.transferred_count(), 2);
    assert_eq!(result.skipped_count(), 0);
    assert_eq!(result.error_count(), 0);
    assert_eq!(result.deleted_count(), 0);
    assert_eq!(result.total_attempted(), 2);
    assert!(result.is_complete());

    assert_eq!(dest.get_bytes(&"a.txt".to_string()).unwrap(), b"hello");
    assert_eq!(dest.get_bytes(&"b.txt".to_string()).unwrap(), b"world");
    assert!(source.object_exists(&"a.txt".to_string()).unwrap());
}

#[test]
fn test_migrate_with_prefix() {
    let mut source = MemoryStorage::new();
    let mut dest = MemoryStorage::new();

    source.put_bytes("docs/a.txt".to_string(), b"hello").unwrap();
    source.put_bytes("docs/b.txt".to_string(), b"world").unwrap();
    source.put_bytes("other.txt".to_string(), b"skip").unwrap();

    let options = MigrateOptions {
        prefix: Some("docs/".to_string()),
        conflict: ConflictStrategy::Skip,
        concurrency: 4,
        delete_source: false,
    };

    let result = source.migrate_to(&mut dest, options).unwrap();

    assert_eq!(result.transferred_count(), 2);
    assert!(result.is_complete());
    assert!(!dest.object_exists(&"other.txt".to_string()).unwrap());
}

#[test]
fn test_migrate_conflict_skip() {
    let mut source = MemoryStorage::new();
    let mut dest = MemoryStorage::new();

    source.put_bytes("a.txt".to_string(), b"new").unwrap();
    source.put_bytes("b.txt".to_string(), b"fresh").unwrap();
    dest.put_bytes("a.txt".to_string(), b"old").unwrap();

    let options = MigrateOptions {
        conflict: ConflictStrategy::Skip,
        ..MigrateOptions::default()
    };

    let result = source.migrate_to(&mut dest, options).unwrap();

    assert_eq!(result.transferred_count(), 1);
    assert_eq!(result.skipped_count(), 1);
    assert_eq!(result.skipped, vec!["a.txt"]);
    // the skipped object kept its old value
    assert_eq!(dest.get_bytes(&"a.txt".to_string()).unwrap(), b"old");
    assert_eq!(dest.get_bytes(&"b.txt".to_string()).unwrap(), b"fresh");
}

#[test]
fn test_migrate_conflict_overwrite() {
    let mut source = MemoryStorage::new();
    let mut dest = MemoryStorage::new();

    source.put_bytes("a.txt".to_string(), b"new").unwrap();
    dest.put_bytes("a.txt".to_string(), b"old").unwrap();

    let result = source
        .migrate_to(&mut dest, MigrateOptions::default())
        .unwrap();

    assert_eq!(result.transferred_count(), 1);
    assert_eq!(result.skipped_count(), 0);
    assert_eq!(dest.get_bytes(&"a.txt".to_string()).unwrap(), b"new");
}

#[test]
fn test_migrate_conflict_fail() {
    let mut source = MemoryStorage::new();
    let mut dest = MemoryStorage::new();

    source.put_bytes("a.txt".to_string(), b"new").unwrap();
    dest.put_bytes("a.txt".to_string(), b"old").unwrap();

    let options = MigrateOptions {
        conflict: ConflictStrategy::Fail,
        ..MigrateOptions::default()
    };

    let result = source.migrate_to(&mut dest, options).unwrap();

    assert_eq!(result.transferred_count(), 0);
    assert_eq!(result.error_count(), 1);
    assert!(!result.is_complete());
    assert_eq!(result.errors[0].0, "a.txt");
    // the destination object is untouched
    assert_eq!(dest.get_bytes(&"a.txt".to_string()).unwrap(), b"old");
}

#[test]
fn test_migrate_delete_source() {
    let mut source = MemoryStorage::new();
    let mut dest = MemoryStorage::new();

    source.put_bytes("a.txt".to_string(), b"hello").unwrap();
    source.put_bytes("b.txt".to_string(), b"world").unwrap();

    let options = MigrateOptions {
        delete_source: true,
        ..MigrateOptions::default()
    };

    let result = source.migrate_to(&mut dest, options).unwrap();

    assert_eq!(result.transferred_count(), 2);
    assert_eq!(result.deleted_count(), 2);
    assert!(source.is_empty());
    assert!(dest.object_exists(&"a.txt".to_string()).unwrap());
    assert!(dest.object_exists(&"b.txt".to_string()).unwrap());
}

#[test]
fn test_migrate_empty_source() {
    let mut source = MemoryStorage::new();
    let mut dest = MemoryStorage::new();

    let result = source
        .migrate_to(&mut dest, MigrateOptions::default())
        .unwrap();

    assert_eq!(result.total_attempted(), 0);
    assert!(result.is_complete());
    assert!(dest.is_empty());
}
