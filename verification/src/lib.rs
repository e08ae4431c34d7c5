//! A uniform object-storage interface over exchangeable backends, with
//! multi-backend composition policies layered on top: replication with a
//! configurable success threshold (mirror), failover (fallback), read-only
//! guarding, and bulk migration.
//!
//! Backends are modelled as stores of byte objects addressed by string
//! identifiers; every composition policy in this crate is specified and
//! verified against that model.

mod fallback;
mod flaky;
mod local;
mod memory;
pub mod migration;
mod mirror;
pub mod multi;
mod readonly;
pub mod storage;
mod strutil;

pub use flaky::FlakyStorage;
pub use local::LocalStorage;
pub use memory::MemoryStorage;
pub use migration::{ConflictStrategy, MigrateOptions, MigrationResult};
pub use storage::{Storage, StorageExt};

use vstd::prelude::*;

verus! {

/// A unified error type for storage operations.
#[derive(Debug)]
pub enum Error {
    /// The requested object does not exist.
    NotFound(String),
    /// The operation is not allowed.
    PermissionDenied(String),
    /// The backend could not be reached.
    Connection(String),
    /// An input/output failure outside the backend protocol itself.
    Io(String),
    /// Any other storage error.
    Generic(String),
    /// A replicated write did not meet its success threshold.
    MirrorFailure(MirrorFailureDetails),
}

/// Details about a mirror operation failure.
///
/// Contains backend indices and error objects for successes and failures,
/// plus any rollback errors if rollback was attempted.
#[derive(Debug)]
pub struct MirrorFailureDetails {
    /// Indices of backends that succeeded.
    pub successes: Vec<usize>,
    /// Indices and errors of backends that failed.
    pub failures: Vec<(usize, Box<Error>)>,
    /// Errors that occurred during rollback (if any).
    pub rollback_errors: Vec<(usize, Box<Error>)>,
}

impl MirrorFailureDetails {
    /// Total number of backends involved.
    pub fn total_backends(&self) -> (n: usize)
        requires
            self.successes@.len() + self.failures@.len() <= usize::MAX,
        ensures
            n == self.successes@.len() + self.failures@.len(),
    {
        self.successes.len() + self.failures.len()
    }

    /// Number of successful backends.
    pub fn success_count(&self) -> (n: usize)
        ensures
            n == self.successes@.len(),
    {
        self.successes.len()
    }

    /// Number of failed backends.
    pub fn failure_count(&self) -> (n: usize)
        ensures
            n == self.failures@.len(),
    {
        self.failures.len()
    }

    /// Check if any backends succeeded.
    pub fn has_successes(&self) -> (b: bool)
        ensures
            b == (self.successes@.len() > 0),
    {
        self.successes.len() > 0
    }

    /// Check if any backends failed.
    pub fn has_failures(&self) -> (b: bool)
        ensures
            b == (self.failures@.len() > 0),
    {
        self.failures.len() > 0
    }

    /// Check if rollback was attempted and had errors.
    pub fn has_rollback_errors(&self) -> (b: bool)
        ensures
            b == (self.rollback_errors@.len() > 0),
    {
        self.rollback_errors.len() > 0
    }

    /// Get indices of all failed backends.
    pub fn failed_indices(&self) -> (v: Vec<usize>)
        ensures
            v@ == self.failures@.map_values(|p: (usize, Box<Error>)| p.0),
    {
        let mut v: Vec<usize> = Vec::new();
        let mut i: usize = 0;
        while i < self.failures.len()
            invariant
                i <= self.failures@.len(),
                v@ == self.failures@.subrange(0, i as int).map_values(
                    |p: (usize, Box<Error>)| p.0,
                ),
            decreases self.failures@.len() - i,
        {
            v.push(self.failures[i].0);
            proof {
                assert(self.failures@.subrange(0, i + 1 as int)
                    =~= self.failures@.subrange(0, i as int).push(self.failures@[i as int]));
                assert(v@ =~= self.failures@.subrange(0, i + 1 as int).map_values(
                    |p: (usize, Box<Error>)| p.0,
                ));
            }
            i = i + 1;
        }
        proof {
            assert(self.failures@.subrange(0, self.failures@.len() as int) =~= self.failures@);
        }
        v
    }

    /// Get indices of all successful backends.
    pub fn successful_indices(&self) -> (v: &Vec<usize>)
        ensures
            v == &self.successes,
    {
        &self.successes
    }
}

} // verus!
