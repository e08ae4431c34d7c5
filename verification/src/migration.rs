//! Storage migration utilities.
//!
//! Provides [`migrate`] and the supporting [`MigrateOptions`] /
//! [`MigrationResult`] / [`ConflictStrategy`] types for bulk-copying (or
//! bulk-moving) objects from one storage backend to another.

use vstd::prelude::*;

use crate::storage::{opt_id_view, prefix_matches, Storage, StorageExt};
use crate::Error;

verus! {

/// Determines how the migration behaves when an object already exists in
/// the destination storage.
#[derive(Debug, Clone, Copy, Default, PartialEq, Eq, Structural)]
pub enum ConflictStrategy {
    /// Overwrite the existing object in the destination. This is the default.
    #[default]
    Overwrite,
    /// Leave the existing destination object untouched and record it as
    /// skipped.
    Skip,
    /// Treat an existing destination object as a hard error and record it in
    /// [`MigrationResult::errors`].
    Fail,
}

/// Options that control how a migration is executed.
#[derive(Debug, Clone)]
pub struct MigrateOptions {
    /// Only migrate objects whose identifier begins with this prefix.
    /// `None` migrates every object in the source (default).
    pub prefix: Option<String>,
    /// How to handle objects that already exist in the destination.
    pub conflict: ConflictStrategy,
    /// Maximum number of objects transferred concurrently. Must be at least
    /// 1; a value of 0 is clamped to 1. Default: 4.
    pub concurrency: usize,
    /// When true, each object is deleted from the source after it has been
    /// successfully copied to the destination (move semantics). A failed
    /// deletion is not an error — the copy has already succeeded.
    pub delete_source: bool,
}

impl Default for MigrateOptions {
    /// Migrate everything, overwriting conflicts, without deleting sources.
    fn default() -> (o: Self)
        ensures
            o.prefix is None,
            o.conflict == ConflictStrategy::Overwrite,
            o.concurrency == 4,
            !o.delete_source,
    {
        MigrateOptions {
            prefix: None,
            conflict: ConflictStrategy::Overwrite,
            concurrency: 4,
            delete_source: false,
        }
    }
}

/// A summary of a completed migration.
///
/// Migrations are best-effort: every object is attempted regardless of
/// individual failures. Inspect [`errors`](Self::errors) to find out which
/// objects did not make it across.
#[derive(Debug)]
pub struct MigrationResult {
    /// Objects successfully copied to the destination.
    pub transferred: Vec<String>,
    /// Objects that already existed at the destination and were left
    /// untouched (only populated under [`ConflictStrategy::Skip`]).
    pub skipped: Vec<String>,
    /// Objects deleted from the source after a successful copy (only
    /// populated when [`MigrateOptions::delete_source`] is set).
    pub deleted: Vec<String>,
    /// Objects that could not be migrated, with the error that caused the
    /// failure.
    pub errors: Vec<(String, Error)>,
}

impl MigrationResult {
    /// An empty summary.
    pub fn new() -> (r: Self)
        ensures
            r.transferred@.len() == 0,
            r.skipped@.len() == 0,
            r.deleted@.len() == 0,
            r.errors@.len() == 0,
    {
        MigrationResult {
            transferred: Vec::new(),
            skipped: Vec::new(),
            deleted: Vec::new(),
            errors: Vec::new(),
        }
    }

    /// Total number of objects that were attempted
    /// (transferred + skipped + errors).
    pub fn total_attempted(&self) -> (n: usize)
        requires
            self.transferred@.len() + self.skipped@.len() + self.errors@.len() <= usize::MAX,
        ensures
            n == self.transferred@.len() + self.skipped@.len() + self.errors@.len(),
    {
        self.transferred.len() + self.skipped.len() + self.errors.len()
    }

    /// Returns true when every object migrated without error.
    pub fn is_complete(&self) -> (b: bool)
        ensures
            b == (self.errors@.len() == 0),
    {
        self.errors.len() == 0
    }

    /// Number of objects successfully transferred to the destination.
    pub fn transferred_count(&self) -> (n: usize)
        ensures
            n == self.transferred@.len(),
    {
        self.transferred.len()
    }

    /// Number of objects skipped due to the conflict strategy.
    pub fn skipped_count(&self) -> (n: usize)
        ensures
            n == self.skipped@.len(),
    {
        self.skipped.len()
    }

    /// Number of objects that failed to migrate.
    pub fn error_count(&self) -> (n: usize)
        ensures
            n == self.errors@.len(),
    {
        self.errors.len()
    }

    /// Number of objects deleted from the source (move semantics).
    pub fn deleted_count(&self) -> (n: usize)
        ensures
            n == self.deleted@.len(),
    {
        self.deleted.len()
    }
}

/// Does the identifier list hold `k`?
pub open spec fn ids_contain(v: Seq<String>, k: Seq<char>) -> bool {
    exists|i: int| 0 <= i < v.len() && v[i]@ == k
}

/// The view of an optional owned identifier.
pub open spec fn opt_string_view(p: Option<String>) -> Option<Seq<char>> {
    match p {
        Option::None => Option::None,
        Option::Some(s) => Option::Some(s@),
    }
}

/// The identifiers recorded in an error list.
pub open spec fn error_ids(es: Seq<(String, Error)>) -> Seq<String> {
    es.map_values(|p: (String, Error)| p.0)
}

proof fn lemma_ids_contain_push(v: Seq<String>, x: String)
    ensures
        forall|k: Seq<char>|
            #[trigger] ids_contain(v.push(x), k) <==> (ids_contain(v, k) || x@ == k),
{
    assert forall|k: Seq<char>| #[trigger]
        ids_contain(v.push(x), k) implies (ids_contain(v, k) || x@ == k) by {
        let i = choose|i: int| 0 <= i < v.push(x).len() && v.push(x)[i]@ == k;
        if i < v.len() {
            assert(v[i]@ == k);
        }
    }
    assert forall|k: Seq<char>| (ids_contain(v, k) || x@ == k) implies ids_contain(
        v.push(x),
        k,
    ) by {
        if ids_contain(v, k) {
            let i = choose|i: int| 0 <= i < v.len() && v[i]@ == k;
            assert(v.push(x)[i]@ == k);
        } else {
            assert(v.push(x)[v.len() as int]@ == k);
        }
    }
}

/// What a completed migration guarantees, relating the source and
/// destination contents before (`src0`, `dst0`) and after (`src1`, `dst1`)
/// to the returned summary.
pub open spec fn migrate_post(
    src0: Map<Seq<char>, Seq<u8>>,
    dst0: Map<Seq<char>, Seq<u8>>,
    src1: Map<Seq<char>, Seq<u8>>,
    dst1: Map<Seq<char>, Seq<u8>>,
    prefix: Option<Seq<char>>,
    conflict: ConflictStrategy,
    delete_source: bool,
    res: MigrationResult,
) -> bool {
    &&& forall|a: int|
        #![auto]
        0 <= a < res.transferred@.len() ==> src0.contains_key(res.transferred@[a]@)
            && prefix_matches(prefix, res.transferred@[a]@) && dst1.contains_key(
            res.transferred@[a]@,
        ) && dst1[res.transferred@[a]@] == src0[res.transferred@[a]@]
    &&& forall|a: int|
        #![auto]
        0 <= a < res.skipped@.len() ==> src0.contains_key(res.skipped@[a]@) && prefix_matches(
            prefix,
            res.skipped@[a]@,
        ) && conflict is Skip && dst0.contains_key(res.skipped@[a]@) && dst1.contains_key(
            res.skipped@[a]@,
        ) && dst1[res.skipped@[a]@] == dst0[res.skipped@[a]@]
    &&& forall|a: int|
        #![auto]
        0 <= a < res.errors@.len() ==> src0.contains_key(res.errors@[a].0@) && prefix_matches(
            prefix,
            res.errors@[a].0@,
        )
    &&& forall|k: Seq<char>|
        #[trigger] src0.contains_key(k) && prefix_matches(prefix, k) ==> ids_contain(
            res.transferred@,
            k,
        ) || ids_contain(res.skipped@, k) || ids_contain(error_ids(res.errors@), k)
    // each source object is recorded at most once, in exactly one bucket
    &&& forall|a: int, b: int|
        0 <= a < b < res.transferred@.len() ==> #[trigger] res.transferred@[a]@ != #[trigger] res.transferred@[b]@
    &&& forall|a: int, b: int|
        0 <= a < b < res.skipped@.len() ==> #[trigger] res.skipped@[a]@ != #[trigger] res.skipped@[b]@
    &&& forall|a: int, b: int|
        0 <= a < b < res.errors@.len() ==> #[trigger] res.errors@[a].0@ != #[trigger] res.errors@[b].0@
    &&& forall|a: int, b: int|
        0 <= a < res.transferred@.len() && 0 <= b < res.skipped@.len()
            ==> #[trigger] res.transferred@[a]@ != #[trigger] res.skipped@[b]@
    &&& forall|a: int, b: int|
        0 <= a < res.transferred@.len() && 0 <= b < res.errors@.len()
            ==> #[trigger] res.transferred@[a]@ != #[trigger] res.errors@[b].0@
    &&& forall|a: int, b: int|
        0 <= a < res.skipped@.len() && 0 <= b < res.errors@.len()
            ==> #[trigger] res.skipped@[a]@ != #[trigger] res.errors@[b].0@
    // under the skip strategy an object already at the destination is never
    // overwritten, only recorded as skipped
    &&& (conflict is Skip ==> forall|a: int|
        #![auto]
        0 <= a < res.transferred@.len() ==> !dst0.contains_key(res.transferred@[a]@))
    &&& (conflict is Overwrite ==> res.skipped@.len() == 0)
    &&& (!delete_source ==> src1 == src0 && res.deleted@.len() == 0)
    &&& (delete_source ==> forall|a: int|
        #![auto]
        0 <= a < res.deleted@.len() ==> !src1.contains_key(res.deleted@[a]@) && ids_contain(
            res.transferred@,
            res.deleted@[a]@,
        ))
    &&& (delete_source ==> forall|k: Seq<char>|
        #[trigger] src0.contains_key(k) && !ids_contain(res.deleted@, k) ==> src1.contains_key(k)
            && src1[k] == src0[k])
    &&& (delete_source ==> forall|k: Seq<char>|
        #[trigger] src1.contains_key(k) ==> src0.contains_key(k))
    &&& forall|k: Seq<char>|
        !(#[trigger] ids_contain(res.transferred@, k)) ==> dst1.contains_key(k)
            == dst0.contains_key(k)
    &&& forall|k: Seq<char>|
        !(#[trigger] ids_contain(res.transferred@, k)) && dst0.contains_key(k) ==> dst1[k]
            == dst0[k]
}

/// Migrate objects from `source` to `dest`, according to `options`.
///
/// All matching identifiers are listed from the source upfront, then each
/// object is attempted in turn; the run is best-effort, with per-object
/// failures collected in the summary's errors rather than aborting the
/// whole run. `Err` is returned only when the initial listing fails, in
/// which case nothing has been changed. `options.concurrency` is an upper
/// bound on parallelism for the embedding application's runner; objects may
/// equally be transferred one at a time.
#[verifier::loop_isolation(false)]
#[verifier::rlimit(100)]
pub fn migrate<S1: Storage, S2: Storage>(
    source: &mut S1,
    dest: &mut S2,
    options: MigrateOptions,
) -> (r: Result<MigrationResult, Error>)
    ensures
        r matches Ok(res) ==> migrate_post(
            old(source).contents(),
            old(dest).contents(),
            final(source).contents(),
            final(dest).contents(),
            opt_string_view(options.prefix),
            options.conflict,
            options.delete_source,
            res,
        ),
        r is Err ==> *final(source) == *old(source) && *final(dest) == *old(dest),
{
    let ghost src0 = source.contents();
    let ghost dst0 = dest.contents();
    let ghost pview: Option<Seq<char>> = opt_string_view(options.prefix);
    let prefix_ref = options.prefix.as_ref();
    proof {
        assert(opt_id_view(prefix_ref) == pview);
    }
    let ids = match source.list(prefix_ref) {
        Ok(v) => v,
        Err(e) => {
            return Err(e);
        },
    };
    let n = ids.len();
    let mut transferred: Vec<String> = Vec::new();
    let mut skipped: Vec<String> = Vec::new();
    let mut deleted: Vec<String> = Vec::new();
    let mut errors: Vec<(String, Error)> = Vec::new();
    let mut t: usize = 0;
    while t < n
        invariant
            t <= n,
            n == ids@.len(),
            // each recorded object with its guarantee, against the current
            // backend contents
            forall|a: int|
                #![auto]
                0 <= a < transferred@.len() ==> src0.contains_key(transferred@[a]@)
                    && prefix_matches(pview, transferred@[a]@) && ids_contain(
                    ids@.subrange(0, t as int),
                    transferred@[a]@,
                ) && dest.contents().contains_key(transferred@[a]@) && dest.contents()[
                    transferred@[a]@
                ] == src0[transferred@[a]@],
            forall|a: int|
                #![auto]
                0 <= a < skipped@.len() ==> src0.contains_key(skipped@[a]@),
            forall|a: int|
                #![auto]
                0 <= a < skipped@.len() ==> prefix_matches(pview, skipped@[a]@),
            skipped@.len() > 0 ==> options.conflict is Skip,
            forall|a: int|
                #![auto]
                0 <= a < skipped@.len() ==> ids_contain(
                    ids@.subrange(0, t as int),
                    skipped@[a]@,
                ),
            forall|a: int|
                #![auto]
                0 <= a < skipped@.len() ==> dst0.contains_key(skipped@[a]@),
            forall|a: int|
                #![auto]
                0 <= a < skipped@.len() ==> dest.contents().contains_key(skipped@[a]@)
                    && dest.contents()[skipped@[a]@] == dst0[skipped@[a]@],
            forall|a: int|
                #![auto]
                0 <= a < errors@.len() ==> src0.contains_key(errors@[a].0@) && prefix_matches(
                    pview,
                    errors@[a].0@,
                ) && ids_contain(ids@.subrange(0, t as int), errors@[a].0@),
            forall|a: int, b: int|
                0 <= a < b < transferred@.len() ==> #[trigger] transferred@[a]@ != #[trigger] transferred@[b]@,
            forall|a: int, b: int|
                0 <= a < b < skipped@.len() ==> #[trigger] skipped@[a]@ != #[trigger] skipped@[b]@,
            forall|a: int, b: int|
                0 <= a < b < errors@.len() ==> #[trigger] errors@[a].0@ != #[trigger] errors@[b].0@,
            forall|a: int, b: int|
                0 <= a < transferred@.len() && 0 <= b < skipped@.len()
                    ==> #[trigger] transferred@[a]@ != #[trigger] skipped@[b]@,
            forall|a: int, b: int|
                0 <= a < transferred@.len() && 0 <= b < errors@.len()
                    ==> #[trigger] transferred@[a]@ != #[trigger] errors@[b].0@,
            forall|a: int, b: int|
                0 <= a < skipped@.len() && 0 <= b < errors@.len()
                    ==> #[trigger] skipped@[a]@ != #[trigger] errors@[b].0@,
            options.conflict is Skip ==> forall|a: int|
                #![auto]
                0 <= a < transferred@.len() ==> !dst0.contains_key(transferred@[a]@),
            forall|a: int|
                #![auto]
                0 <= a < deleted@.len() ==> !source.contents().contains_key(deleted@[a]@)
                    && ids_contain(transferred@, deleted@[a]@),
            // every processed identifier landed in a bucket
            forall|j: int|
                0 <= j < t ==> ids_contain(transferred@, #[trigger] ids@[j]@) || ids_contain(
                    skipped@,
                    ids@[j]@,
                ) || ids_contain(error_ids(errors@), ids@[j]@),
            // the destination is untouched outside the transferred identifiers
            forall|k: Seq<char>|
                !(#[trigger] ids_contain(transferred@, k)) ==> dest.contents().contains_key(k)
                    == dst0.contains_key(k),
            forall|k: Seq<char>|
                !(#[trigger] ids_contain(transferred@, k)) && dst0.contains_key(k)
                    ==> dest.contents()[k] == dst0[k],
            // identifiers not yet processed still hold their original value
            forall|j: int|
                t <= j < n ==> source.contents().contains_key(#[trigger] ids@[j]@)
                    && source.contents()[ids@[j]@] == src0[ids@[j]@],
            // the source loses at most the recorded deletions
            !options.delete_source ==> *source == *old(source) && deleted@.len() == 0,
            options.delete_source ==> forall|k: Seq<char>|
                #[trigger] src0.contains_key(k) && !ids_contain(deleted@, k)
                    ==> source.contents().contains_key(k) && source.contents()[k] == src0[k],
            options.delete_source ==> forall|k: Seq<char>|
                #[trigger] source.contents().contains_key(k) ==> src0.contains_key(k),
            options.conflict is Overwrite ==> skipped@.len() == 0,
        decreases n - t,
    {
        let id = ids[t].clone();
        let ghost prev_transferred = transferred@;
        let ghost prev_skipped = skipped@;
        let ghost prev_deleted = deleted@;
        let ghost prev_errors = errors@;
        let ghost prev_dest = dest.contents();
        let ghost prev_source = source.contents();
        let ghost processed = ids@.subrange(0, t as int);
        proof {
            assert(id@ == ids@[t as int]@);
            assert(ids@.subrange(0, t + 1 as int) =~= processed.push(ids@[t as int]));
            assert(src0.contains_key(id@) && prefix_matches(pview, id@));
            lemma_ids_contain_push(processed, ids@[t as int]);
            lemma_ids_contain_push(prev_transferred, id);
            lemma_ids_contain_push(prev_skipped, id);
            lemma_ids_contain_push(prev_deleted, id);
            // the current identifier has not been processed before
            if ids_contain(processed, id@) {
                let j = choose|j: int| 0 <= j < processed.len() && processed[j]@ == id@;
                assert(ids@[j]@ == ids@[t as int]@);
                assert(false);
            }
            // so it differs from everything already recorded
            assert forall|a: int|
                0 <= a < transferred@.len() implies #[trigger] transferred@[a]@ != id@ by {
                assert(ids_contain(processed, transferred@[a]@));
            }
            assert forall|a: int|
                0 <= a < skipped@.len() implies #[trigger] skipped@[a]@ != id@ by {
                assert(ids_contain(processed, skipped@[a]@));
            }
            assert forall|a: int|
                0 <= a < errors@.len() implies #[trigger] errors@[a].0@ != id@ by {
                assert(ids_contain(processed, errors@[a].0@));
            }
            if ids_contain(transferred@, id@) {
                let a = choose|a: int| 0 <= a < transferred@.len() && transferred@[a]@ == id@;
                assert(false);
            }
        }
        let ghost mut step_wrote: bool = false;
        // conflict check
        let mut proceed = true;
        if match options.conflict {
            ConflictStrategy::Overwrite => false,
            _ => true,
        } {
            match dest.object_exists(&id) {
                Ok(true) => {
                    proceed = false;
                    proof {
                        if ids_contain(transferred@, id@) {
                            let a = choose|a: int|
                                0 <= a < transferred@.len() && transferred@[a]@ == id@;
                            assert(ids_contain(processed, transferred@[a]@));
                            assert(false);
                        }
                        assert(dst0.contains_key(id@) && dst0[id@] == dest.contents()[id@]);
                    }
                    match options.conflict {
                        ConflictStrategy::Skip => {
                            skipped.push(id.clone());
                            proof {
                                assert(skipped@[skipped@.len() - 1]@ == id@);
                                assert(ids_contain(skipped@, id@));
                                assert(forall|a: int|
                                    0 <= a < prev_skipped.len() ==> #[trigger] skipped@[a]
                                        == prev_skipped[a]);
                                assert forall|a: int|
                                    #![auto]
                                    0 <= a < skipped@.len() implies ids_contain(
                                    ids@.subrange(0, t + 1 as int),
                                    skipped@[a]@,
                                ) && dst0.contains_key(skipped@[a]@)
                                    && dest.contents().contains_key(skipped@[a]@)
                                    && dest.contents()[skipped@[a]@] == dst0[skipped@[a]@] by {
                                    if a < prev_skipped.len() {
                                        assert(ids_contain(processed, skipped@[a]@));
                                        assert(ids_contain(
                                            processed.push(ids@[t as int]),
                                            skipped@[a]@,
                                        ));
                                    } else {
                                        assert(skipped@[a]@ == ids@[t as int]@);
                                        assert(ids_contain(
                                            processed.push(ids@[t as int]),
                                            skipped@[a]@,
                                        ));
                                    }
                                }
                            }
                        },
                        _ => {
                            let msg = String::from_str("object already exists at destination: ")
                                .concat(id.as_str());
                            errors.push((id.clone(), Error::Generic(msg)));
                            proof {
                                assert(forall|a: int|
                                    0 <= a < prev_errors.len() ==> #[trigger] errors@[a]
                                        == prev_errors[a]);
                                assert(error_ids(errors@)[errors@.len() - 1]@ == id@);
                                assert(ids_contain(error_ids(errors@), id@));
                            }
                        },
                    }
                },
                Ok(false) => {
                    proof {
                        assert(!dst0.contains_key(id@));
                    }
                },
                Err(e) => {
                    proceed = false;
                    errors.push((id.clone(), e));
                    proof {
                        assert(forall|a: int|
                            0 <= a < prev_errors.len() ==> #[trigger] errors@[a]
                                == prev_errors[a]);
                        assert(error_ids(errors@)[errors@.len() - 1]@ == id@);
                        assert(ids_contain(error_ids(errors@), id@));
                    }
                },
            }
        }
        if proceed {
            match source.copy_to(&id, dest) {
                Ok(()) => {
                    proof {
                        step_wrote = true;
                        assert(prev_source[id@] == src0[id@]);
                        assert(dest.contents() == prev_dest.insert(id@, src0[id@]));
                    }
                    if options.delete_source {
                        match source.delete(&id) {
                            Ok(()) => {
                                deleted.push(id.clone());
                                transferred.push(id);
                            },
                            Err(_) => {
                                transferred.push(id);
                            },
                        }
                    } else {
                        transferred.push(id);
                    }
                    proof {
                        assert(transferred@[transferred@.len() - 1]@ == id@);
                        assert(ids_contain(transferred@, id@));
                        assert(forall|a: int|
                            0 <= a < prev_transferred.len() ==> #[trigger] transferred@[a]
                                == prev_transferred[a]);
                        assert(forall|a: int|
                            0 <= a < prev_deleted.len() ==> #[trigger] deleted@[a]
                                == prev_deleted[a]);
                        // previously recorded objects sit at other keys, so
                        // their guarantees survive this step
                        assert forall|a: int|
                            #![auto]
                            0 <= a < transferred@.len() implies ids_contain(
                            ids@.subrange(0, t + 1 as int),
                            transferred@[a]@,
                        ) && dest.contents().contains_key(transferred@[a]@)
                            && dest.contents()[transferred@[a]@] == src0[transferred@[a]@] by {
                            if a < prev_transferred.len() {
                                assert(transferred@[a] == prev_transferred[a]);
                                assert(ids_contain(processed, transferred@[a]@));
                                assert(ids_contain(
                                    processed.push(ids@[t as int]),
                                    transferred@[a]@,
                                ));
                                assert(transferred@[a]@ != id@);
                                assert(prev_dest.contains_key(transferred@[a]@));
                            } else {
                                assert(transferred@[a]@ == ids@[t as int]@);
                                assert(ids_contain(
                                    processed.push(ids@[t as int]),
                                    transferred@[a]@,
                                ));
                            }
                        }
                        assert forall|a: int|
                            #![auto]
                            0 <= a < skipped@.len() implies ids_contain(
                            ids@.subrange(0, t + 1 as int),
                            skipped@[a]@,
                        ) && dest.contents().contains_key(skipped@[a]@) && dest.contents()[
                            skipped@[a]@
                        ] == dst0[skipped@[a]@] by {
                            assert(skipped@[a] == prev_skipped[a]);
                            assert(ids_contain(processed, skipped@[a]@));
                            assert(ids_contain(processed.push(ids@[t as int]), skipped@[a]@));
                            assert(skipped@[a]@ != id@);
                            assert(prev_dest.contains_key(skipped@[a]@));
                            assert(prev_dest[skipped@[a]@] == dst0[skipped@[a]@]);
                        }
                        // the deletion, if any, only removed the current key
                        assert forall|a: int|
                            #![auto]
                            0 <= a < deleted@.len() implies !source.contents().contains_key(
                            deleted@[a]@,
                        ) && ids_contain(transferred@, deleted@[a]@) by {
                            if a < prev_deleted.len() {
                                assert(!prev_source.contains_key(prev_deleted[a]@));
                                let i = choose|i: int|
                                    0 <= i < prev_transferred.len() && prev_transferred[i]@
                                        == deleted@[a]@;
                                assert(transferred@[i]@ == deleted@[a]@);
                            } else {
                                assert(deleted@[a]@ == id@);
                            }
                        }
                        // unprocessed identifiers keep their original values
                        assert forall|j: int|
                            t + 1 <= j < n implies source.contents().contains_key(
                            #[trigger] ids@[j]@,
                        ) && source.contents()[ids@[j]@] == src0[ids@[j]@] by {
                            if ids@[j]@ == ids@[t as int]@ {
                                assert(false);
                            }
                        }
                        // the destination is untouched outside the
                        // transferred identifiers
                        assert forall|k: Seq<char>|
                            !(#[trigger] ids_contain(
                                transferred@,
                                k,
                            )) implies dest.contents().contains_key(k) == dst0.contains_key(k)
                            && (dst0.contains_key(k) ==> dest.contents()[k] == dst0[k]) by {
                            assert(!ids_contain(prev_transferred, k));
                            assert(transferred@[transferred@.len() - 1]@ == id@);
                            assert(k != id@);
                            assert(dest.contents().contains_key(k) == prev_dest.contains_key(k));
                            assert(prev_dest.contains_key(k) == dst0.contains_key(k));
                            assert(dst0.contains_key(k) ==> dest.contents()[k] == prev_dest[k]
                                && prev_dest[k] == dst0[k]);
                        }
                    }
                },
                Err(e) => {
                    errors.push((id.clone(), e));
                    proof {
                        assert(forall|a: int|
                            0 <= a < prev_errors.len() ==> #[trigger] errors@[a]
                                == prev_errors[a]);
                        assert(error_ids(errors@)[errors@.len() - 1]@ == id@);
                        assert(ids_contain(error_ids(errors@), id@));
                    }
                },
            }
        }
        proof {
            // coverage of all processed identifiers
            assert forall|j: int|
                0 <= j < t + 1 implies ids_contain(transferred@, #[trigger] ids@[j]@)
                || ids_contain(skipped@, ids@[j]@) || ids_contain(error_ids(errors@), ids@[j]@) by {
                if j < t {
                    if ids_contain(prev_transferred, ids@[j]@) {
                        let a = choose|a: int|
                            0 <= a < prev_transferred.len() && prev_transferred[a]@ == ids@[j]@;
                        assert(transferred@[a]@ == ids@[j]@);
                    } else if ids_contain(prev_skipped, ids@[j]@) {
                        let a = choose|a: int|
                            0 <= a < prev_skipped.len() && prev_skipped[a]@ == ids@[j]@;
                        assert(skipped@[a]@ == ids@[j]@);
                    } else {
                        let a = choose|a: int|
                            0 <= a < error_ids(prev_errors).len() && error_ids(prev_errors)[a]@
                                == ids@[j]@;
                        assert(error_ids(errors@)[a]@ == ids@[j]@);
                    }
                }
            }
            // destination untouched outside processed identifiers, when this
            // step did not write it
            if !step_wrote {
                assert(dest.contents() == prev_dest);
                assert(source.contents() == prev_source);
                assert(transferred@ == prev_transferred);
            }
            if !step_wrote {
                assert forall|a: int|
                    #![auto]
                    0 <= a < transferred@.len() implies ids_contain(
                    ids@.subrange(0, t + 1 as int),
                    transferred@[a]@,
                ) by {
                    assert(ids_contain(processed, transferred@[a]@));
                    assert(ids_contain(processed.push(ids@[t as int]), transferred@[a]@));
                }
                assert forall|a: int|
                    #![auto]
                    0 <= a < skipped@.len() implies ids_contain(
                    ids@.subrange(0, t + 1 as int),
                    skipped@[a]@,
                ) by {
                    if a < prev_skipped.len() {
                        assert(skipped@[a] == prev_skipped[a]);
                        assert(ids_contain(processed, skipped@[a]@));
                        assert(ids_contain(processed.push(ids@[t as int]), skipped@[a]@));
                    } else {
                        assert(skipped@[a]@ == id@);
                        assert(ids@[t as int]@ == id@);
                        assert(ids_contain(processed.push(ids@[t as int]), skipped@[a]@));
                    }
                }
            }
            // recorded guarantees survive steps that did not touch the maps
            if !step_wrote {
                assert(forall|a: int|
                    #![auto]
                    0 <= a < transferred@.len() ==> transferred@[a] == prev_transferred[a]);
                assert(forall|a: int|
                    #![auto]
                    0 <= a < deleted@.len() ==> deleted@[a] == prev_deleted[a]);
                assert forall|a: int|
                    #![auto]
                    0 <= a < deleted@.len() implies !source.contents().contains_key(
                    deleted@[a]@,
                ) && ids_contain(transferred@, deleted@[a]@) by {
                    let i = choose|i: int|
                        0 <= i < prev_transferred.len() && prev_transferred[i]@ == deleted@[a]@;
                    assert(transferred@[i]@ == deleted@[a]@);
                }
            }
        }
        t = t + 1;
    }

    let result = MigrationResult { transferred, skipped, deleted, errors };
    proof {
        assert forall|k: Seq<char>| #[trigger]
            src0.contains_key(k) && prefix_matches(pview, k) implies ids_contain(
            result.transferred@,
            k,
        ) || ids_contain(result.skipped@, k) || ids_contain(error_ids(result.errors@), k) by {
            let j = choose|j: int| 0 <= j < ids@.len() && ids@[j]@ == k;
        }
        // the loop's guarantees assemble into the contract's summary
        assert(migrate_post(
            src0,
            dst0,
            source.contents(),
            dest.contents(),
            pview,
            options.conflict,
            options.delete_source,
            result,
        ));
    }
    Ok(result)
}

} // verus!
