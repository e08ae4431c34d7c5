//! Failover between a primary and a secondary backend.

use vstd::prelude::*;

use crate::storage::{folder_exists_in, list_result_matches, opt_id_view, Storage};
use crate::Error;

verus! {

/// Automatically falls back to the secondary backend when the primary fails.
///
/// Writes go to the primary only by default; use
/// [`with_write_through`](Self::with_write_through) to also write to the
/// secondary on a best-effort basis.
#[derive(Debug)]
pub struct FallbackStorage<P, S> where P: Storage, S: Storage {
    primary: P,
    secondary: S,
    write_through: bool,
}

impl<P, S> FallbackStorage<P, S> where P: Storage, S: Storage {
    /// The primary backend.
    pub closed spec fn spec_primary(&self) -> P {
        self.primary
    }

    /// The secondary backend.
    pub closed spec fn spec_secondary(&self) -> S {
        self.secondary
    }

    /// Whether writes also go to the secondary backend.
    pub closed spec fn spec_write_through(&self) -> bool {
        self.write_through
    }

    /// Create fallback storage with primary and secondary backends.
    pub fn new(primary: P, secondary: S) -> (s: Self)
        ensures
            s.spec_primary() == primary,
            s.spec_secondary() == secondary,
            !s.spec_write_through(),
    {
        FallbackStorage { primary, secondary, write_through: false }
    }

    /// Enable or disable write-through to the secondary (default: disabled).
    pub fn with_write_through(self, enabled: bool) -> (s: Self)
        ensures
            s.spec_primary() == self.spec_primary(),
            s.spec_secondary() == self.spec_secondary(),
            s.spec_write_through() == enabled,
    {
        let mut s = self;
        s.write_through = enabled;
        s
    }

    /// Get a reference to the primary storage.
    pub fn primary(&self) -> (p: &P)
        ensures
            *p == self.spec_primary(),
    {
        &self.primary
    }

    /// Get a reference to the secondary storage.
    pub fn secondary(&self) -> (s: &S)
        ensures
            *s == self.spec_secondary(),
    {
        &self.secondary
    }

    /// Returns true if write-through is enabled.
    pub fn is_write_through(&self) -> (b: bool)
        ensures
            b == self.spec_write_through(),
    {
        self.write_through
    }

    /// Check if an object exists: a positive primary answer wins; otherwise
    /// the secondary is consulted.
    pub fn object_exists(&self, id: &String) -> (r: Result<bool, Error>)
        ensures
            r matches Ok(b) ==> (b ==> self.spec_primary().contents().contains_key(id@)
                || self.spec_secondary().contents().contains_key(id@)),
            r matches Ok(b) ==> (!b ==> !self.spec_secondary().contents().contains_key(id@)),
    {
        match self.primary.object_exists(id) {
            Ok(true) => Ok(true),
            Ok(false) => self.secondary.object_exists(id),
            Err(_) => self.secondary.object_exists(id),
        }
    }

    /// Check if a folder exists, with the same failover as `object_exists`.
    pub fn folder_exists(&self, id: &String) -> (r: Result<bool, Error>)
        ensures
            r matches Ok(b) ==> (b ==> folder_exists_in(self.spec_primary().contents(), id@)
                || folder_exists_in(self.spec_secondary().contents(), id@)),
            r matches Ok(b) ==> (!b ==> !folder_exists_in(
                self.spec_secondary().contents(),
                id@,
            )),
    {
        match self.primary.folder_exists(id) {
            Ok(true) => Ok(true),
            Ok(false) => self.secondary.folder_exists(id),
            Err(_) => self.secondary.folder_exists(id),
        }
    }

    /// Store an object in the primary backend; with write-through enabled the
    /// secondary is also written, best-effort.
    pub fn put(&mut self, id: String, data: &Vec<u8>) -> (r: Result<(), Error>)
        ensures
            final(self).spec_write_through() == old(self).spec_write_through(),
            r is Ok ==> final(self).spec_primary().contents() == old(self).spec_primary().contents().insert(id@, data@),
            r is Err ==> final(self).spec_primary().contents() == old(self).spec_primary().contents(),
            !old(self).spec_write_through() ==> final(self).spec_secondary() == old(self).spec_secondary(),
            old(self).spec_write_through() ==> final(self).spec_secondary().contents() == old(self).spec_secondary().contents().insert(id@, data@) || final(self).spec_secondary().contents() == old(self).spec_secondary().contents(),
    {
        if self.write_through {
            let primary_result = self.primary.put(id.clone(), data);
            let secondary_result = self.secondary.put(id, data);
            let _ = secondary_result;
            primary_result
        } else {
            self.primary.put(id, data)
        }
    }

    /// Retrieve an object from the primary backend only, appending its bytes
    /// to `output`.
    pub fn get_into(&self, id: &String, output: &mut Vec<u8>) -> (r: Result<u64, Error>)
        ensures
            r matches Ok(n) ==> self.spec_primary().contents().contains_key(id@) && final(output)@ == old(output)@ + self.spec_primary().contents()[id@] && n as nat
                == self.spec_primary().contents()[id@].len(),
            r is Err ==> final(output)@ == old(output)@,
            (r matches Err(e) && e is NotFound) ==> !self.spec_primary().contents().contains_key(
                id@,
            ),
    {
        self.primary.get_into(id, output)
    }

    /// Delete an object from both backends; either success counts, since
    /// deletion is idempotent. If both fail, the primary's error is reported.
    pub fn delete(&mut self, id: &String) -> (r: Result<(), Error>)
        ensures
            final(self).spec_write_through() == old(self).spec_write_through(),
            final(self).spec_primary().contents() == old(self).spec_primary().contents().remove(id@) || final(self).spec_primary().contents()
                == old(self).spec_primary().contents(),
            final(self).spec_secondary().contents() == old(self).spec_secondary().contents().remove(id@) || final(self).spec_secondary().contents()
                == old(self).spec_secondary().contents(),
            r is Ok ==> final(self).spec_primary().contents() == old(self).spec_primary().contents().remove(id@) || final(self).spec_secondary().contents() == old(self).spec_secondary().contents().remove(id@),
            r is Err ==> old(self).spec_primary().contents().contains_key(id@) && old(self).spec_secondary().contents().contains_key(id@) && final(self).spec_primary().contents() == old(self).spec_primary().contents() && final(self).spec_secondary().contents() == old(self).spec_secondary().contents(),
            (!old(self).spec_primary().contents().contains_key(id@) && !old(self).spec_secondary().contents().contains_key(id@)) ==> r is Ok,
    {
        let primary_result = self.primary.delete(id);
        let secondary_result = self.secondary.delete(id);
        match (primary_result, secondary_result) {
            (Ok(()), _) => Ok(()),
            (_, Ok(())) => Ok(()),
            (Err(e), Err(_)) => Err(e),
        }
    }

    /// List identifiers from the primary backend only.
    pub fn list(&self, prefix: Option<&String>) -> (r: Result<Vec<String>, Error>)
        ensures
            r matches Ok(v) ==> list_result_matches(
                self.spec_primary().contents(),
                opt_id_view(prefix),
                v@,
            ),
    {
        self.primary.list(prefix)
    }
}

} // verus!
