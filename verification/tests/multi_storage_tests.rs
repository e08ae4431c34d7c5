//! Integration tests for the multi-backend patterns: mirroring with its
//! write strategies and return policies, failover, and the read-only guard.

use stowage::multi::{
    FallbackStorage, MirrorStorage, ReadOnlyStorage, ReturnPolicy, WriteStrategy,
};
use stowage::{Error, FlakyStorage, MemoryStorage, Storage, StorageExt};

fn flaky() -> FlakyStorage {
    FlakyStorage::new(MemoryStorage::new())
}

#[test]
fn test_required_successes_table() {
    for n in 1..=10usize {
        assert_eq!(
            WriteStrategy::AllOrFail { rollback: false }.required_successes(n),
            n
        );
        assert_eq!(
            WriteStrategy::AtLeastOne { rollback: false }.required_successes(n),
            1
        );
        assert_eq!(
            WriteStrategy::Quorum { rollback: false }.required_successes(n),
            n / 2 + 1
        );
    }
}

#[test]
fn test_should_rollback() {
    assert!(WriteStrategy::AllOrFail { rollback: true }.should_rollback());
    assert!(!WriteStrategy::AllOrFail { rollback: false }.should_rollback());
    assert!(WriteStrategy::AtLeastOne { rollback: true }.should_rollback());
    assert!(WriteStrategy::Quorum { rollback: true }.should_rollback());
}

#[test]
fn test_mirror_all_or_fail() {
    let mut storage = MirrorStorage::builder()
        .add_backend(MemoryStorage::new())
        .add_backend(MemoryStorage::new())
        .add_backend(MemoryStorage::new())
        .write_strategy(WriteStrategy::AllOrFail { rollback: true })
        .build();

    storage.put("test".to_string(), &b"data".to_vec()).unwrap();

    for i in 0..3 {
        assert!(storage
            .backend(i)
            .unwrap()
            .object_exists(&"test".to_string())
            .unwrap());
    }

    let mut buf = Vec::new();
    storage.get_into(&"test".to_string(), &mut buf).unwrap();
    assert_eq!(buf, b"data");
}

#[test]
fn test_mirror_rollback() {
    let mut storage = MirrorStorage::builder()
        .add_backend(MemoryStorage::new())
        .add_backend(MemoryStorage::new())
        .write_strategy(WriteStrategy::AllOrFail { rollback: true })
        .build();

    storage.put("test1.txt".to_string(), &b"data".to_vec()).unwrap();

    assert!(storage
        .backend(0)
        .unwrap()
        .object_exists(&"test1.txt".to_string())
        .unwrap());
    assert!(storage
        .backend(1)
        .unwrap()
        .object_exists(&"test1.txt".to_string())
        .unwrap());
}

#[test]
fn test_mirror_at_least_one() {
    let mut storage = MirrorStorage::builder()
        .add_backend(MemoryStorage::new())
        .add_backend(MemoryStorage::new())
        .write_strategy(WriteStrategy::AtLeastOne { rollback: false })
        .build();

    storage.put("test".to_string(), &b"data".to_vec()).unwrap();

    assert!(storage
        .backend(0)
        .unwrap()
        .object_exists(&"test".to_string())
        .unwrap());
    assert!(storage
        .backend(1)
        .unwrap()
        .object_exists(&"test".to_string())
        .unwrap());
}

#[test]
fn test_mirror_quorum_strategy() {
    let mut storage = MirrorStorage::builder()
        .add_backend(MemoryStorage::new())
        .add_backend(MemoryStorage::new())
        .add_backend(MemoryStorage::new())
        .write_strategy(WriteStrategy::Quorum { rollback: false })
        .build();

    storage.put("test".to_string(), &b"data".to_vec()).unwrap();

    assert_eq!(storage.backend_count(), 3);
    assert_eq!(
        storage.write_strategy(),
        WriteStrategy::Quorum { rollback: false }
    );
}

#[test]
fn test_mirror_delete() {
    let backend1 = MemoryStorage::new();
    let backend2 = MemoryStorage::new();

    let mut storage = MirrorStorage::new(vec![backend1, backend2]);

    storage.put("test".to_string(), &b"data".to_vec()).unwrap();
    storage.delete(&"test".to_string()).unwrap();

    assert!(!storage
        .backend(0)
        .unwrap()
        .object_exists(&"test".to_string())
        .unwrap());
    assert!(!storage
        .backend(1)
        .unwrap()
        .object_exists(&"test".to_string())
        .unwrap());
}

#[test]
fn test_mirror_fast_fail() {
    let mut storage = MirrorStorage::builder()
        .add_backend(MemoryStorage::new())
        .add_backend(MemoryStorage::new())
        .write_strategy(WriteStrategy::AllOrFail { rollback: false })
        .return_policy(ReturnPolicy::FastFail)
        .build();

    storage.put("file3.txt".to_string(), &b"data".to_vec()).unwrap();

    assert_eq!(storage.return_policy(), ReturnPolicy::FastFail);
}

#[test]
fn test_mirror_backend_timeout() {
    let mut storage = MirrorStorage::builder()
        .add_backend(MemoryStorage::new())
        .add_backend(MemoryStorage::new())
        .write_strategy(WriteStrategy::AtLeastOne { rollback: false })
        .backend_timeout(5000)
        .build();

    storage.put("test".to_string(), &b"data".to_vec()).unwrap();

    assert_eq!(storage.backend_timeout(), Some(5000));
}

// A full write with three backends under the all-or-fail strategy: the
// object lands on every backend and the operation reports success.
#[test]
fn test_mirror_write_replicates_everywhere() {
    let mut storage = MirrorStorage::builder()
        .add_backend(MemoryStorage::new())
        .add_backend(MemoryStorage::new())
        .add_backend(MemoryStorage::new())
        .write_strategy(WriteStrategy::AllOrFail { rollback: false })
        .build();

    let result = storage.put("f.txt".to_string(), &b"hi".to_vec());
    assert!(result.is_ok());

    for i in 0..3 {
        assert_eq!(
            storage
                .backend(i)
                .unwrap()
                .get_bytes(&"f.txt".to_string())
                .unwrap(),
            b"hi"
        );
    }
}

// A failing backend under all-or-fail with rollback: the failure report
// names the one success and the one failure, and the successful backend no
// longer holds the object after rollback.
#[test]
fn test_mirror_rollback_on_failure() {
    let mut bad = flaky();
    bad.fail_put = true;

    let mut storage = MirrorStorage::builder()
        .add_backend(flaky())
        .add_backend(bad)
        .write_strategy(WriteStrategy::AllOrFail { rollback: true })
        .build();

    let result = storage.put("f.txt".to_string(), &b"hi".to_vec());
    match result.unwrap_err() {
        Error::MirrorFailure(details) => {
            assert_eq!(details.successes, vec![0]);
            assert_eq!(details.failed_indices(), vec![1]);
            assert_eq!(details.success_count(), 1);
            assert_eq!(details.failure_count(), 1);
            assert_eq!(details.total_backends(), 2);
            assert!(details.has_successes());
            assert!(details.has_failures());
            assert!(!details.has_rollback_errors());
        }
        other => panic!("expected a mirror failure, got {:?}", other),
    }

    assert!(!storage
        .backend(0)
        .unwrap()
        .object_exists(&"f.txt".to_string())
        .unwrap());
}

// Rollback errors are recorded alongside the original write failure.
#[test]
fn test_mirror_rollback_error_recorded() {
    let mut good_but_stuck = flaky();
    good_but_stuck.fail_delete = true;
    let mut bad = flaky();
    bad.fail_put = true;

    let mut storage = MirrorStorage::builder()
        .add_backend(good_but_stuck)
        .add_backend(bad)
        .write_strategy(WriteStrategy::AllOrFail { rollback: true })
        .build();

    let result = storage.put("f.txt".to_string(), &b"hi".to_vec());
    match result.unwrap_err() {
        Error::MirrorFailure(details) => {
            assert_eq!(details.successes, vec![0]);
            assert!(details.has_rollback_errors());
            assert_eq!(details.rollback_errors.len(), 1);
            assert_eq!(details.rollback_errors[0].0, 0);
        }
        other => panic!("expected a mirror failure, got {:?}", other),
    }

    // the failed rollback left the object on backend 0
    assert!(storage
        .backend(0)
        .unwrap()
        .object_exists(&"f.txt".to_string())
        .unwrap());
}

// Optimistic return with a quorum: once two of three backends succeed, the
// write counts as successful even though the last backend would fail.
#[test]
fn test_mirror_optimistic_quorum_with_failing_backend() {
    let mut bad = flaky();
    bad.fail_put = true;

    let mut storage = MirrorStorage::builder()
        .add_backend(flaky())
        .add_backend(flaky())
        .add_backend(bad)
        .write_strategy(WriteStrategy::Quorum { rollback: false })
        .return_policy(ReturnPolicy::Optimistic)
        .build();

    let result = storage.put("f.txt".to_string(), &b"hi".to_vec());
    assert!(result.is_ok());

    assert!(storage
        .backend(0)
        .unwrap()
        .object_exists(&"f.txt".to_string())
        .unwrap());
    assert!(storage
        .backend(1)
        .unwrap()
        .object_exists(&"f.txt".to_string())
        .unwrap());
    assert!(!storage
        .backend(2)
        .unwrap()
        .object_exists(&"f.txt".to_string())
        .unwrap());
}

// Fast fail aborts as soon as the threshold is unreachable: with all-or-fail
// and the first backend failing, the remaining backends are never written.
#[test]
fn test_mirror_fast_fail_early_abort() {
    let mut bad = flaky();
    bad.fail_put = true;

    let mut storage = MirrorStorage::builder()
        .add_backend(bad)
        .add_backend(flaky())
        .add_backend(flaky())
        .write_strategy(WriteStrategy::AllOrFail { rollback: false })
        .return_policy(ReturnPolicy::FastFail)
        .build();

    let result = storage.put("f.txt".to_string(), &b"hi".to_vec());
    match result.unwrap_err() {
        Error::MirrorFailure(details) => {
            // only the first backend was attempted
            assert_eq!(details.successes.len() + details.failures.len(), 1);
            assert_eq!(details.failed_indices(), vec![0]);
        }
        other => panic!("expected a mirror failure, got {:?}", other),
    }

    assert!(!storage
        .backend(1)
        .unwrap()
        .object_exists(&"f.txt".to_string())
        .unwrap());
    assert!(!storage
        .backend(2)
        .unwrap()
        .object_exists(&"f.txt".to_string())
        .unwrap());
}

// Wait-for-all always attempts every backend: the failure report accounts
// for all of them.
#[test]
fn test_mirror_wait_all_attempts_every_backend() {
    let mut bad = flaky();
    bad.fail_put = true;

    let mut storage = MirrorStorage::builder()
        .add_backend(bad)
        .add_backend(flaky())
        .add_backend(flaky())
        .write_strategy(WriteStrategy::AllOrFail { rollback: false })
        .build();

    let result = storage.put("f.txt".to_string(), &b"hi".to_vec());
    match result.unwrap_err() {
        Error::MirrorFailure(details) => {
            assert_eq!(details.total_backends(), 3);
            assert_eq!(details.successes, vec![1, 2]);
            assert_eq!(details.failed_indices(), vec![0]);
        }
        other => panic!("expected a mirror failure, got {:?}", other),
    }

    // without rollback, the successful writes stay
    assert!(storage
        .backend(1)
        .unwrap()
        .object_exists(&"f.txt".to_string())
        .unwrap());
}

// Reads fall back across backends when the primary fails, while direct
// retrieval stays primary-only and reports the object as missing there.
#[test]
fn test_mirror_read_fallback() {
    let mut primary = flaky();
    primary.fail_exists = true;
    let mut secondary = flaky();
    secondary
        .inner
        .put_bytes("f.txt".to_string(), b"hi")
        .unwrap();

    let mut storage = MirrorStorage::new(vec![primary, secondary]);

    assert!(storage.object_exists(&"f.txt".to_string()).unwrap());

    let mut buf = Vec::new();
    let result = storage.get_into(&"f.txt".to_string(), &mut buf);
    assert!(matches!(result.unwrap_err(), Error::NotFound(_)));

    // keep the mirror mutable API exercised
    storage.delete(&"missing".to_string()).unwrap();
}

// Deleting an identifier that never existed succeeds on a single backend
// and through the aggregator.
#[test]
fn test_delete_idempotent_through_aggregator() {
    let mut single = MemoryStorage::new();
    single.delete(&"never-existed".to_string()).unwrap();

    let mut storage = MirrorStorage::new(vec![MemoryStorage::new(), MemoryStorage::new()]);
    storage.delete(&"never-existed".to_string()).unwrap();
}

// Delete succeeds when any backend succeeds, even if another errors.
#[test]
fn test_mirror_delete_partial_failure() {
    let mut good = flaky();
    good.inner.put_bytes("f.txt".to_string(), b"hi").unwrap();
    let mut bad = flaky();
    bad.inner.put_bytes("f.txt".to_string(), b"hi").unwrap();
    bad.fail_delete = true;

    let mut storage = MirrorStorage::new(vec![good, bad]);

    assert!(storage.delete(&"f.txt".to_string()).is_ok());
}

// Delete reports an error only when every backend fails.
#[test]
fn test_mirror_delete_all_fail() {
    let mut bad0 = flaky();
    bad0.inner.put_bytes("f.txt".to_string(), b"hi").unwrap();
    bad0.fail_delete = true;
    let mut bad1 = flaky();
    bad1.inner.put_bytes("f.txt".to_string(), b"hi").unwrap();
    bad1.fail_delete = true;

    let mut storage = MirrorStorage::new(vec![bad0, bad1]);

    let result = storage.delete(&"f.txt".to_string());
    assert!(matches!(result.unwrap_err(), Error::Connection(_)));
}

// Optimistic still reports the aggregate failure when the threshold is
// never reached, after attempting every backend.
#[test]
fn test_mirror_optimistic_exhausted_failure() {
    let mut bad = flaky();
    bad.fail_put = true;

    let mut storage = MirrorStorage::builder()
        .add_backend(flaky())
        .add_backend(bad)
        .write_strategy(WriteStrategy::AllOrFail { rollback: false })
        .return_policy(ReturnPolicy::Optimistic)
        .build();

    let result = storage.put("f.txt".to_string(), &b"hi".to_vec());
    match result.unwrap_err() {
        Error::MirrorFailure(details) => {
            assert_eq!(details.total_backends(), 2);
            assert_eq!(details.successes, vec![0]);
            assert_eq!(details.failed_indices(), vec![1]);
        }
        other => panic!("expected a mirror failure, got {:?}", other),
    }
}

// Fast fail returns success as soon as the threshold is met, leaving the
// remaining backends untouched.
#[test]
fn test_mirror_fast_fail_early_success() {
    let mut storage = MirrorStorage::builder()
        .add_backend(MemoryStorage::new())
        .add_backend(MemoryStorage::new())
        .add_backend(MemoryStorage::new())
        .write_strategy(WriteStrategy::AtLeastOne { rollback: false })
        .return_policy(ReturnPolicy::FastFail)
        .build();

    storage.put("f.txt".to_string(), &b"hi".to_vec()).unwrap();

    assert!(storage
        .backend(0)
        .unwrap()
        .object_exists(&"f.txt".to_string())
        .unwrap());
    assert!(!storage
        .backend(1)
        .unwrap()
        .object_exists(&"f.txt".to_string())
        .unwrap());
    assert!(!storage
        .backend(2)
        .unwrap()
        .object_exists(&"f.txt".to_string())
        .unwrap());
}

#[test]
fn test_fallback_basic() {
    let primary = MemoryStorage::new();
    let mut secondary = MemoryStorage::new();

    secondary
        .put_bytes("old.txt".to_string(), b"from secondary")
        .unwrap();

    let mut storage = FallbackStorage::new(primary, secondary);

    assert!(storage.object_exists(&"old.txt".to_string()).unwrap());

    storage
        .put("new.txt".to_string(), &b"from primary".to_vec())
        .unwrap();

    assert!(storage.object_exists(&"new.txt".to_string()).unwrap());
}

#[test]
fn test_fallback_write_default() {
    let mut storage = FallbackStorage::new(MemoryStorage::new(), MemoryStorage::new());

    storage.put("test".to_string(), &b"data".to_vec()).unwrap();

    assert!(storage
        .primary()
        .object_exists(&"test".to_string())
        .unwrap());
    assert!(!storage
        .secondary()
        .object_exists(&"test".to_string())
        .unwrap());
}

#[test]
fn test_fallback_write_through() {
    let mut storage = FallbackStorage::new(MemoryStorage::new(), MemoryStorage::new())
        .with_write_through(true);

    storage.put("test".to_string(), &b"data".to_vec()).unwrap();

    assert!(storage
        .primary()
        .object_exists(&"test".to_string())
        .unwrap());
    assert!(storage
        .secondary()
        .object_exists(&"test".to_string())
        .unwrap());

    assert_eq!(storage.primary().get_bytes(&"test".to_string()).unwrap(), b"data");
    assert_eq!(
        storage.secondary().get_bytes(&"test".to_string()).unwrap(),
        b"data"
    );
    assert!(storage.is_write_through());
}

#[test]
fn test_fallback_delete() {
    let mut primary = MemoryStorage::new();
    let mut secondary = MemoryStorage::new();

    primary.put_bytes("test".to_string(), b"data").unwrap();
    secondary.put_bytes("test".to_string(), b"data").unwrap();

    let mut storage = FallbackStorage::new(primary, secondary);

    storage.delete(&"test".to_string()).unwrap();

    assert!(!storage
        .primary()
        .object_exists(&"test".to_string())
        .unwrap());
    assert!(!storage
        .secondary()
        .object_exists(&"test".to_string())
        .unwrap());
}

// Deleting a never-existing identifier stays successful through the
// failover pair as well.
#[test]
fn test_fallback_delete_idempotent() {
    let mut storage = FallbackStorage::new(MemoryStorage::new(), MemoryStorage::new());
    storage.delete(&"never-existed".to_string()).unwrap();
    storage.delete(&"never-existed".to_string()).unwrap();
}

#[test]
fn test_fallback_exists_with_failing_primary() {
    let mut primary = flaky();
    primary.fail_exists = true;
    let mut secondary = MemoryStorage::new();
    secondary.put_bytes("f.txt".to_string(), b"hi").unwrap();

    let storage = FallbackStorage::new(primary, secondary);

    assert!(storage.object_exists(&"f.txt".to_string()).unwrap());
}

#[test]
fn test_readonly_read() {
    let mut inner = MemoryStorage::new();
    inner.put_bytes("test.txt".to_string(), b"data").unwrap();

    let storage = ReadOnlyStorage::new(inner);

    let mut buf = Vec::new();
    storage.get_into(&"test.txt".to_string(), &mut buf).unwrap();
    assert_eq!(buf, b"data");
}

#[test]
fn test_readonly_write_rejected() {
    let mut storage = ReadOnlyStorage::new(MemoryStorage::new());

    let result = storage.put("test.txt".to_string(), &b"data".to_vec());
    assert!(result.is_err());
    assert!(matches!(result.unwrap_err(), Error::PermissionDenied(_)));
}

#[test]
fn test_readonly_delete_rejected() {
    let mut inner = MemoryStorage::new();
    inner.put_bytes("test.txt".to_string(), b"data").unwrap();

    let mut storage = ReadOnlyStorage::new(inner);

    let result = storage.delete(&"test.txt".to_string());
    assert!(result.is_err());
    assert!(matches!(result.unwrap_err(), Error::PermissionDenied(_)));
}

#[test]
fn test_readonly_exists() {
    let mut inner = MemoryStorage::new();
    inner.put_bytes("test.txt".to_string(), b"data").unwrap();

    let storage = ReadOnlyStorage::new(inner);

    assert!(storage.object_exists(&"test.txt".to_string()).unwrap());
    assert!(!storage.object_exists(&"missing.txt".to_string()).unwrap());

    let inner_again = storage.into_inner();
    assert!(inner_again.object_exists(&"test.txt".to_string()).unwrap());
}
