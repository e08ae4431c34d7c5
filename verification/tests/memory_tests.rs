//! Behaviour of the in-memory backend.

use stowage::{MemoryStorage, Storage, StorageExt};

#[test]
fn test_put_and_exists() {
    let mut storage = MemoryStorage::new();
    let id = "test.txt".to_string();

    assert!(!storage.object_exists(&id).unwrap());

    storage.put_bytes(id.clone(), b"hello world").unwrap();

    assert!(storage.object_exists(&id).unwrap());
}

#[test]
fn test_put_and_get_bytes() {
    let mut storage = MemoryStorage::new();
    let id = "test.txt".to_string();

    storage.put_bytes(id.clone(), b"hello world").unwrap();

    let retrieved = storage.get_bytes(&id).unwrap();
    assert_eq!(retrieved, b"hello world");
}

#[test]
fn test_get_nonexistent() {
    let storage = MemoryStorage::new();
    let id = "nonexistent.txt".to_string();

    let result = storage.get_bytes(&id);
    assert!(result.is_err());
    assert!(matches!(result.unwrap_err(), stowage::Error::NotFound(_)));
}

#[test]
fn test_delete_existing() {
    let mut storage = MemoryStorage::new();
    let id = "test.txt".to_string();

    storage.put_bytes(id.clone(), b"hello world").unwrap();
    assert!(storage.object_exists(&id).unwrap());

    storage.delete(&id).unwrap();
    assert!(!storage.object_exists(&id).unwrap());
}

#[test]
fn test_delete_idempotent() {
    let mut storage = MemoryStorage::new();
    let id = "test.txt".to_string();

    storage.delete(&id).unwrap();
    storage.delete(&id).unwrap();
}

#[test]
fn test_overwrite() {
    let mut storage = MemoryStorage::new();
    let id = "test.txt".to_string();

    storage.put_bytes(id.clone(), b"original").unwrap();
    storage.put_bytes(id.clone(), b"updated").unwrap();

    let retrieved = storage.get_bytes(&id).unwrap();
    assert_eq!(retrieved, b"updated");
}

#[test]
fn test_empty_data() {
    let mut storage = MemoryStorage::new();
    let id = "empty.txt".to_string();

    storage.put_bytes(id.clone(), b"").unwrap();

    assert!(storage.object_exists(&id).unwrap());
    let retrieved = storage.get_bytes(&id).unwrap();
    assert_eq!(retrieved, b"");
}

#[test]
fn test_large_data() {
    let mut storage = MemoryStorage::new();
    let id = "large.bin".to_string();
    let data: Vec<u8> = (0..100_000).map(|i| (i % 256) as u8).collect();

    storage.put_bytes(id.clone(), &data).unwrap();

    let retrieved = storage.get_bytes(&id).unwrap();
    assert_eq!(retrieved, data);
}

#[test]
fn test_binary_data() {
    let mut storage = MemoryStorage::new();
    let id = "binary.dat".to_string();
    let data: Vec<u8> = (0..=255).collect();

    storage.put_bytes(id.clone(), &data).unwrap();

    let retrieved = storage.get_bytes(&id).unwrap();
    assert_eq!(retrieved, data);
}

#[test]
fn test_get_into() {
    let mut storage = MemoryStorage::new();
    let id = "test.txt".to_string();

    storage.put_bytes(id.clone(), b"hello world").unwrap();

    let mut output = Vec::new();
    let bytes_written = storage.get_into(&id, &mut output).unwrap();

    assert_eq!(bytes_written, b"hello world".len() as u64);
    assert_eq!(output, b"hello world");
}

#[test]
fn test_get_string() {
    let mut storage = MemoryStorage::new();
    let id = "greeting.txt".to_string();

    storage.put_bytes(id.clone(), b"hi").unwrap();

    let s = storage.get_string(&id).unwrap();
    assert_eq!(s, "hi");
}

#[test]
fn test_get_string_invalid_utf8() {
    let mut storage = MemoryStorage::new();
    let id = "junk.bin".to_string();

    storage.put_bytes(id.clone(), &[0xff, 0xfe, 0xff]).unwrap();

    let result = storage.get_string(&id);
    assert!(matches!(result.unwrap_err(), stowage::Error::Generic(_)));
}

#[test]
fn test_folder_exists() {
    let mut storage = MemoryStorage::new();

    storage
        .put_bytes("folder/file1.txt".to_string(), b"data1")
        .unwrap();
    storage
        .put_bytes("folder/file2.txt".to_string(), b"data2")
        .unwrap();

    assert!(storage.folder_exists(&"folder".to_string()).unwrap());
    assert!(storage.folder_exists(&"folder/".to_string()).unwrap());
    assert!(!storage.folder_exists(&"nonexistent".to_string()).unwrap());
}

#[test]
fn test_folder_exists_nested() {
    let mut storage = MemoryStorage::new();

    storage
        .put_bytes("root/level1/level2/file.txt".to_string(), b"data")
        .unwrap();

    assert!(storage.folder_exists(&"root".to_string()).unwrap());
    assert!(storage.folder_exists(&"root/level1".to_string()).unwrap());
    assert!(storage
        .folder_exists(&"root/level1/level2".to_string())
        .unwrap());
}

#[test]
fn test_special_characters_in_path() {
    let mut storage = MemoryStorage::new();
    let paths = vec![
        "file-with-dashes.txt",
        "file_with_underscores.txt",
        "file.multiple.dots.txt",
    ];

    for path in paths {
        let id = path.to_string();
        storage.put_bytes(id.clone(), b"data").unwrap();
        assert!(storage.object_exists(&id).unwrap());
        let data = storage.get_bytes(&id).unwrap();
        assert_eq!(data, b"data");
    }
}

#[test]
fn test_len_and_clear() {
    let mut storage = MemoryStorage::new();
    assert!(storage.is_empty());
    assert_eq!(storage.len(), 0);

    storage.put_bytes("a".to_string(), b"1").unwrap();
    storage.put_bytes("b".to_string(), b"2").unwrap();
    storage.put_bytes("a".to_string(), b"3").unwrap();
    assert_eq!(storage.len(), 2);
    assert!(!storage.is_empty());

    storage.clear();
    assert!(storage.is_empty());
}

#[test]
fn test_from_map() {
    let storage = MemoryStorage::from_map(vec![
        ("a.txt".to_string(), b"alpha".to_vec()),
        ("b.txt".to_string(), b"beta".to_vec()),
        ("a.txt".to_string(), b"alpha-two".to_vec()),
    ]);

    assert_eq!(storage.len(), 2);
    assert_eq!(storage.get_bytes(&"a.txt".to_string()).unwrap(), b"alpha-two");
    assert_eq!(storage.get_bytes(&"b.txt".to_string()).unwrap(), b"beta");
}

#[test]
fn test_list_with_prefix() {
    let mut storage = MemoryStorage::new();
    storage.put_bytes("docs/a.txt".to_string(), b"1").unwrap();
    storage.put_bytes("docs/b.txt".to_string(), b"2").unwrap();
    storage.put_bytes("other.txt".to_string(), b"3").unwrap();

    let all = storage.list(None).unwrap();
    assert_eq!(all, vec!["docs/a.txt", "docs/b.txt", "other.txt"]);

    let docs = storage.list(Some(&"docs/".to_string())).unwrap();
    assert_eq!(docs, vec!["docs/a.txt", "docs/b.txt"]);
}

#[test]
fn test_list_sorted() {
    let mut storage = MemoryStorage::new();
    storage.put_bytes("zebra.txt".to_string(), b"z").unwrap();
    storage.put_bytes("apple.txt".to_string(), b"a").unwrap();
    storage.put_bytes("mango.txt".to_string(), b"m").unwrap();

    let ids = storage.list(None).unwrap();
    assert_eq!(ids, vec!["apple.txt", "mango.txt", "zebra.txt"]);
}

#[test]
fn test_copy_and_move() {
    let mut source = MemoryStorage::new();
    let mut dest = MemoryStorage::new();
    let id = "file.txt".to_string();

    source.put_bytes(id.clone(), b"hello").unwrap();

    source.copy_to(&id, &mut dest).unwrap();
    assert!(source.object_exists(&id).unwrap());
    assert_eq!(dest.get_bytes(&id).unwrap(), b"hello");

    let mut dest2 = MemoryStorage::new();
    source.move_to(&id, &mut dest2).unwrap();
    assert!(!source.object_exists(&id).unwrap());
    assert!(dest2.object_exists(&id).unwrap());
}
