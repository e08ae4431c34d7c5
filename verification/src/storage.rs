//! The core storage interface and its mathematical model.
//!
//! A backend is modelled as a finite map from string identifiers to byte
//! sequences. Every trait method carries a contract relating the call's
//! outcome to that model, so composition layers (mirror, fallback, read-only,
//! migration) can be verified against any conforming backend.

use vstd::prelude::*;

use crate::Error;

verus! {

/// Does `p` occur as a prefix of `s`?
pub open spec fn is_prefix_of(p: Seq<char>, s: Seq<char>) -> bool {
    p.len() <= s.len() && s.subrange(0, p.len() as int) == p
}

/// The key prefix under which members of folder `id` are stored:
/// the folder path, with exactly one trailing separator.
pub open spec fn folder_prefix(id: Seq<char>) -> Seq<char> {
    if id.len() > 0 && id[id.len() - 1] == '/' {
        id
    } else {
        id + seq!['/']
    }
}

/// A folder exists when some stored object lies beneath it.
pub open spec fn folder_exists_in(m: Map<Seq<char>, Seq<u8>>, id: Seq<char>) -> bool {
    exists|k: Seq<char>| #[trigger] m.contains_key(k) && is_prefix_of(folder_prefix(id), k)
}

/// The identifier filter an optional listing prefix denotes.
pub open spec fn prefix_matches(p: Option<Seq<char>>, k: Seq<char>) -> bool {
    match p {
        Option::None => true,
        Option::Some(pp) => is_prefix_of(pp, k),
    }
}

/// The view of an optional borrowed identifier.
pub open spec fn opt_id_view(p: Option<&String>) -> Option<Seq<char>> {
    match p {
        Option::None => Option::None,
        Option::Some(s) => Option::Some(s@),
    }
}

/// A listing is correct when it holds exactly the stored identifiers that
/// match the filter, each exactly once.
pub open spec fn list_result_matches(
    m: Map<Seq<char>, Seq<u8>>,
    p: Option<Seq<char>>,
    out: Seq<String>,
) -> bool {
    &&& forall|i: int|
        0 <= i < out.len() ==> m.contains_key(#[trigger] out[i]@) && prefix_matches(p, out[i]@)
    &&& forall|k: Seq<char>|
        #[trigger] m.contains_key(k) && prefix_matches(p, k) ==> exists|i: int|
            0 <= i < out.len() && out[i]@ == k
    &&& forall|i: int, j: int| 0 <= i < j < out.len() ==> out[i]@ != out[j]@
}

/// One object store: byte objects addressed by string identifiers.
///
/// `contents` is the abstract state a conforming implementation maintains.
/// Mutating operations are all-or-nothing: a reported failure leaves the
/// store unchanged. Deletion is idempotent: deleting an identifier that is
/// not present must succeed.
pub trait Storage: Sized {
    /// The abstract contents of the store.
    spec fn contents(&self) -> Map<Seq<char>, Seq<u8>>;

    /// Check if an object exists.
    fn object_exists(&self, id: &String) -> (r: Result<bool, Error>)
        ensures
            r matches Ok(b) ==> b == self.contents().contains_key(id@),
    ;

    /// Check if a folder exists, i.e. whether any object is stored beneath
    /// the given path.
    fn folder_exists(&self, id: &String) -> (r: Result<bool, Error>)
        ensures
            r matches Ok(b) ==> b == folder_exists_in(self.contents(), id@),
    ;

    /// Store an object, replacing any previous object under the same
    /// identifier.
    fn put(&mut self, id: String, data: &Vec<u8>) -> (r: Result<(), Error>)
        ensures
            r is Ok ==> final(self).contents() == old(self).contents().insert(id@, data@),
            r is Err ==> final(self).contents() == old(self).contents(),
    ;

    /// Retrieve an object and append its bytes to `output`. Returns the
    /// number of bytes written.
    fn get_into(&self, id: &String, output: &mut Vec<u8>) -> (r: Result<u64, Error>)
        ensures
            r matches Ok(n) ==> self.contents().contains_key(id@) && final(output)@ == old(output)@ + self.contents()[id@] && n as nat == self.contents()[id@].len(),
            r is Err ==> final(output)@ == old(output)@,
            (r matches Err(e) && e is NotFound) ==> !self.contents().contains_key(id@),
    ;

    /// Delete an object. Idempotent: deleting an absent identifier succeeds.
    fn delete(&mut self, id: &String) -> (r: Result<(), Error>)
        ensures
            r is Ok ==> final(self).contents() == old(self).contents().remove(id@),
            r is Err ==> final(self).contents() == old(self).contents() && old(self).contents().contains_key(id@),
    ;

    /// List the identifiers of all stored objects matching an optional
    /// prefix. Order is unspecified.
    fn list(&self, prefix: Option<&String>) -> (r: Result<Vec<String>, Error>)
        ensures
            r matches Ok(v) ==> list_result_matches(
                self.contents(),
                opt_id_view(prefix),
                v@,
            ),
    ;
}

/// Relies on `String::from_utf8`: it succeeds exactly on valid UTF-8 input,
/// and the returned string then holds those very bytes.
#[verifier::external_body]
fn bytes_to_string(bytes: Vec<u8>) -> (r: Result<String, Error>)
    ensures
        r matches Ok(s) ==> vstd::utf8::valid_utf8(bytes@) && s@ == vstd::utf8::decode_utf8(
            bytes@,
        ),
        r matches Err(e) ==> !vstd::utf8::valid_utf8(bytes@) && e is Generic,
{
    match String::from_utf8(bytes) {
        Ok(s) => Ok(s),
        Err(e) => Err(Error::Generic(format!("invalid utf-8: {e}"))),
    }
}

/// Convenience operations available on every [`Storage`] backend.
pub trait StorageExt: Storage {
    /// Download an object into memory as bytes.
    fn get_bytes(&self, id: &String) -> (r: Result<Vec<u8>, Error>)
        ensures
            r matches Ok(v) ==> self.contents().contains_key(id@) && v@ == self.contents()[id@],
            (r matches Err(e) && e is NotFound) ==> !self.contents().contains_key(id@),
    ;

    /// Download an object as a UTF-8 string.
    fn get_string(&self, id: &String) -> (r: Result<String, Error>)
        ensures
            r matches Ok(s) ==> self.contents().contains_key(id@) && vstd::utf8::valid_utf8(
                self.contents()[id@],
            ) && s@ == vstd::utf8::decode_utf8(self.contents()[id@]),
            (r matches Err(e) && e is NotFound) ==> !self.contents().contains_key(id@),
    ;

    /// Upload a byte slice.
    fn put_bytes(&mut self, id: String, bytes: &[u8]) -> (r: Result<(), Error>)
        ensures
            r is Ok ==> final(self).contents() == old(self).contents().insert(id@, bytes@),
            r is Err ==> final(self).contents() == old(self).contents(),
    ;

    /// Copy an object from this storage to another.
    fn copy_to<S2: Storage>(&self, id: &String, dest: &mut S2) -> (r: Result<(), Error>)
        ensures
            r is Ok ==> self.contents().contains_key(id@) && final(dest).contents() == old(
                dest,
            ).contents().insert(id@, self.contents()[id@]),
            r is Err ==> final(dest).contents() == old(dest).contents(),
    ;

    /// Move an object from this storage to another by copying it and then
    /// deleting the source. If the copy fails, the source is untouched; if
    /// the deletion fails after a successful copy, the object exists in both
    /// storages and the error is reported.
    fn move_to<S2: Storage>(&mut self, id: &String, dest: &mut S2) -> (r: Result<(), Error>)
        ensures
            r is Ok ==> old(self).contents().contains_key(id@) && final(self).contents() == old(
                self,
            ).contents().remove(id@) && final(dest).contents() == old(dest).contents().insert(
                id@,
                old(self).contents()[id@],
            ),
            r is Err ==> final(self).contents() == old(self).contents(),
            r is Err ==> final(dest).contents() == old(dest).contents() || (old(
                self,
            ).contents().contains_key(id@) && final(dest).contents() == old(
                dest,
            ).contents().insert(id@, old(self).contents()[id@])),
    ;

    /// Migrate all objects from this storage to `dest`; a convenience
    /// wrapper around [`crate::migration::migrate`]. See
    /// [`crate::migration::MigrateOptions`] for the knobs (prefix filtering,
    /// conflict strategy, concurrency, and optional source deletion).
    fn migrate_to<S2: Storage>(
        &mut self,
        dest: &mut S2,
        options: crate::migration::MigrateOptions,
    ) -> (r: Result<crate::migration::MigrationResult, Error>)
        ensures
            r matches Ok(res) ==> crate::migration::migrate_post(
                old(self).contents(),
                old(dest).contents(),
                final(self).contents(),
                final(dest).contents(),
                crate::migration::opt_string_view(options.prefix),
                options.conflict,
                options.delete_source,
                res,
            ),
            r is Err ==> *final(self) == *old(self) && *final(dest) == *old(dest),
    ;
}

impl<T: Storage> StorageExt for T {
    fn get_bytes(&self, id: &String) -> (r: Result<Vec<u8>, Error>) {
        let mut buf: Vec<u8> = Vec::new();
        match self.get_into(id, &mut buf) {
            Ok(_) => {
                proof {
                    assert(buf@ =~= self.contents()[id@]);
                }
                Ok(buf)
            },
            Err(e) => Err(e),
        }
    }

    fn get_string(&self, id: &String) -> (r: Result<String, Error>) {
        match self.get_bytes(id) {
            Ok(bytes) => bytes_to_string(bytes),
            Err(e) => Err(e),
        }
    }

    fn put_bytes(&mut self, id: String, bytes: &[u8]) -> (r: Result<(), Error>) {
        let data = vstd::slice::slice_to_vec(bytes);
        self.put(id, &data)
    }

    fn copy_to<S2: Storage>(&self, id: &String, dest: &mut S2) -> (r: Result<(), Error>) {
        match self.get_bytes(id) {
            Ok(data) => dest.put(id.clone(), &data),
            Err(e) => Err(e),
        }
    }

    fn move_to<S2: Storage>(&mut self, id: &String, dest: &mut S2) -> (r: Result<(), Error>) {
        match self.copy_to(id, dest) {
            Ok(()) => self.delete(id),
            Err(e) => Err(e),
        }
    }

    fn migrate_to<S2: Storage>(
        &mut self,
        dest: &mut S2,
        options: crate::migration::MigrateOptions,
    ) -> (r: Result<crate::migration::MigrationResult, Error>) {
        crate::migration::migrate(self, dest, options)
    }
}

} // verus!
