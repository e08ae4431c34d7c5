//! Error taxonomy: each variant arises from the operation that owns it.

use stowage::multi::ReadOnlyStorage;
use stowage::{Error, FlakyStorage, LocalStorage, MemoryStorage, Storage, StorageExt};

#[test]
fn test_not_found_error() {
    let storage = MemoryStorage::new();
    let result = storage.get_bytes(&"missing".to_string());
    match result.unwrap_err() {
        Error::NotFound(id) => assert_eq!(id, "missing"),
        other => panic!("expected NotFound, got {:?}", other),
    }
}

#[test]
fn test_permission_denied_error() {
    let mut storage = ReadOnlyStorage::new(MemoryStorage::new());
    let result = storage.put("x".to_string(), &b"y".to_vec());
    assert!(matches!(result.unwrap_err(), Error::PermissionDenied(_)));

    let result = LocalStorage::validate_id(&"/absolute".to_string());
    assert!(matches!(result.unwrap_err(), Error::PermissionDenied(_)));
}

#[test]
fn test_connection_error() {
    let mut storage = FlakyStorage::new(MemoryStorage::new());
    storage.fail_put = true;
    let result = storage.put("x".to_string(), &b"y".to_vec());
    assert!(matches!(result.unwrap_err(), Error::Connection(_)));
}

#[test]
fn test_generic_error() {
    let result = LocalStorage::validate_id(&"".to_string());
    assert!(matches!(result.unwrap_err(), Error::Generic(_)));

    let mut storage = MemoryStorage::new();
    storage.put_bytes("bin".to_string(), &[0x80]).unwrap();
    let result = storage.get_string(&"bin".to_string());
    assert!(matches!(result.unwrap_err(), Error::Generic(_)));
}

#[test]
fn test_io_error_can_be_constructed() {
    // reserved for the embedding application's input/output failures
    let e = Error::Io("disk unplugged".to_string());
    assert!(matches!(e, Error::Io(_)));
}

#[test]
fn test_mirror_failure_details_accessors() {
    let details = stowage::MirrorFailureDetails {
        successes: vec![0, 2],
        failures: vec![(1, Box::new(Error::Generic("x".to_string())))],
        rollback_errors: vec![],
    };
    assert_eq!(details.total_backends(), 3);
    assert_eq!(details.success_count(), 2);
    assert_eq!(details.failure_count(), 1);
    assert!(details.has_successes());
    assert!(details.has_failures());
    assert!(!details.has_rollback_errors());
    assert_eq!(details.failed_indices(), vec![1]);
    assert_eq!(details.successful_indices(), &vec![0, 2]);
}
