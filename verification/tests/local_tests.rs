//! Path handling of the local filesystem adapter.

use stowage::{Error, LocalStorage};

#[test]
fn test_validate_id_accepts_normal_paths() {
    assert!(LocalStorage::validate_id(&"file.txt".to_string()).is_ok());
    assert!(LocalStorage::validate_id(&"dir/file.txt".to_string()).is_ok());
    assert!(LocalStorage::validate_id(&"a/b/c".to_string()).is_ok());
    assert!(LocalStorage::validate_id(&"./file".to_string()).is_ok());
    assert!(LocalStorage::validate_id(&"..dots/file".to_string()).is_ok());
    assert!(LocalStorage::validate_id(&"dots../file".to_string()).is_ok());
}

#[test]
fn test_validate_id_rejects_empty() {
    let result = LocalStorage::validate_id(&"".to_string());
    assert!(matches!(result.unwrap_err(), Error::Generic(_)));
}

#[test]
fn test_validate_id_rejects_absolute() {
    let result = LocalStorage::validate_id(&"/etc/passwd".to_string());
    assert!(matches!(result.unwrap_err(), Error::PermissionDenied(_)));
}

#[test]
fn test_validate_id_rejects_traversal() {
    for id in ["..", "../x", "a/../b", "a/..", "a/b/../../c", "./.."] {
        let result = LocalStorage::validate_id(&id.to_string());
        assert!(
            matches!(result.unwrap_err(), Error::PermissionDenied(_)),
            "{id} should be rejected"
        );
    }
}

#[test]
fn test_path_for_id() {
    let storage = LocalStorage::new("/data".to_string());
    assert_eq!(
        storage.path_for_id(&"a/b.txt".to_string()).unwrap(),
        "/data/a/b.txt"
    );

    let slashed = LocalStorage::new("/data/".to_string());
    assert_eq!(
        slashed.path_for_id(&"a/b.txt".to_string()).unwrap(),
        "/data/a/b.txt"
    );

    let empty = LocalStorage::new("".to_string());
    assert_eq!(empty.path_for_id(&"a/b.txt".to_string()).unwrap(), "a/b.txt");

    assert!(storage.path_for_id(&"../a".to_string()).is_err());
}

#[test]
fn test_id_for_path() {
    let storage = LocalStorage::new("/data".to_string());
    assert_eq!(
        storage.id_for_path(&"/data/a/b.txt".to_string()).unwrap(),
        "a/b.txt"
    );

    assert!(storage.id_for_path(&"/elsewhere/a".to_string()).is_err());
    assert!(storage.id_for_path(&"/data/../a".to_string()).is_err());
}

#[test]
fn test_root_round_trip() {
    let storage = LocalStorage::new("/var/objects".to_string());
    assert_eq!(storage.root(), "/var/objects");

    let path = storage.path_for_id(&"x/y".to_string()).unwrap();
    assert_eq!(storage.id_for_path(&path).unwrap(), "x/y");
}
