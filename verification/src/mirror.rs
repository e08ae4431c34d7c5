//! Replicated writes across multiple backends.
//!
//! [`MirrorStorage`] drives one logical operation across all of its backends,
//! deciding success under a configurable threshold ([`WriteStrategy`]),
//! unblocking the caller according to a [`ReturnPolicy`], and undoing partial
//! writes on failure when the strategy requests rollback.

use vstd::prelude::*;

use crate::storage::Storage;
use crate::{Error, MirrorFailureDetails};

verus! {

/// Write operation strategy for mirrored backends.
#[derive(Debug, Clone, Copy, PartialEq, Eq, Structural)]
pub enum WriteStrategy {
    /// All backends must succeed or the operation fails.
    AllOrFail { rollback: bool },
    /// At least one backend must succeed.
    AtLeastOne { rollback: bool },
    /// A majority of backends must succeed.
    Quorum { rollback: bool },
}

/// Controls when a mirror operation returns to the caller.
#[derive(Debug, Clone, Copy, PartialEq, Eq, Structural)]
pub enum ReturnPolicy {
    /// Wait for all backends to complete before returning.
    /// Returns an error if the strategy threshold is not met.
    WaitAll,
    /// Return as soon as the strategy threshold is met; backends beyond that
    /// point are left for the embedding application to complete in the
    /// background. Once the threshold is met the operation counts as
    /// successful even if a later backend would fail.
    Optimistic,
    /// Return as soon as the strategy threshold is provably unreachable,
    /// without contacting further backends. Also returns early once the
    /// threshold is met.
    FastFail,
}

impl WriteStrategy {
    /// Whether this strategy requests rollback on failure.
    pub open spec fn spec_should_rollback(self) -> bool {
        match self {
            WriteStrategy::AllOrFail { rollback } => rollback,
            WriteStrategy::AtLeastOne { rollback } => rollback,
            WriteStrategy::Quorum { rollback } => rollback,
        }
    }

    /// The success threshold this strategy requires for a given backend
    /// count: all of them, one of them, or a majority.
    pub open spec fn spec_required_successes(self, backend_count: int) -> int {
        match self {
            WriteStrategy::AllOrFail { .. } => backend_count,
            WriteStrategy::AtLeastOne { .. } => 1,
            WriteStrategy::Quorum { .. } => backend_count / 2 + 1,
        }
    }

    /// Check if this strategy requires rollback on failure.
    pub fn should_rollback(&self) -> (b: bool)
        ensures
            b == self.spec_should_rollback(),
    {
        match self {
            WriteStrategy::AllOrFail { rollback } => *rollback,
            WriteStrategy::AtLeastOne { rollback } => *rollback,
            WriteStrategy::Quorum { rollback } => *rollback,
        }
    }

    /// Get the number of required successes for the given backend count.
    pub fn required_successes(&self, backend_count: usize) -> (n: usize)
        ensures
            n == self.spec_required_successes(backend_count as int),
    {
        match self {
            WriteStrategy::AllOrFail { .. } => backend_count,
            WriteStrategy::AtLeastOne { .. } => 1,
            WriteStrategy::Quorum { .. } => (backend_count / 2) + 1,
        }
    }
}

/// The backend indices recorded in a failure list.
pub open spec fn failure_indices(fs: Seq<(usize, Box<Error>)>) -> Seq<usize> {
    fs.map_values(|p: (usize, Box<Error>)| p.0)
}

/// Is `s` strictly increasing?
pub open spec fn strictly_increasing(s: Seq<usize>) -> bool {
    forall|a: int, b: int| 0 <= a < b < s.len() ==> s[a] < s[b]
}

/// Well-formedness of a failure report over `n` backends: the success and
/// failure index lists are strictly increasing, in range, and disjoint.
pub open spec fn details_wf(d: MirrorFailureDetails, n: int) -> bool {
    &&& strictly_increasing(d.successes@)
    &&& strictly_increasing(failure_indices(d.failures@))
    &&& forall|k: int| 0 <= k < d.successes@.len() ==> (#[trigger] d.successes@[k] as int) < n
    &&& forall|k: int| 0 <= k < d.failures@.len() ==> (#[trigger] d.failures@[k].0 as int) < n
    &&& forall|k1: int, k2: int|
        0 <= k1 < d.successes@.len() && 0 <= k2 < d.failures@.len() ==> #[trigger] d.successes@[k1]
            != #[trigger] d.failures@[k2].0
}

/// The successes and failures of a report account for exactly the backends
/// that were attempted, which form a prefix of the backend list.
pub open spec fn outcome_coverage(d: MirrorFailureDetails) -> bool {
    forall|j: usize|
        #![auto]
        (d.successes@.contains(j) || failure_indices(d.failures@).contains(j)) <==> (j as int)
            < d.successes@.len() + d.failures@.len()
}

/// A failure report records exactly the given per-backend results.
spec fn outcomes_match(d: MirrorFailureDetails, results: Seq<Result<(), Error>>) -> bool {
    &&& details_wf(d, results.len() as int)
    &&& outcome_coverage(d)
    &&& d.successes@.len() + d.failures@.len() == results.len()
    &&& forall|k: int|
        0 <= k < d.successes@.len() ==> results[#[trigger] d.successes@[k] as int] is Ok
    &&& forall|k: int|
        0 <= k < d.failures@.len() ==> (results[#[trigger] d.failures@[k].0 as int] matches Err(e)
            && d.failures@[k].1 == e)
    &&& forall|j: int|
        #![auto]
        0 <= j < results.len() && results[j] is Ok ==> d.successes@.contains(j as usize)
    &&& forall|j: int|
        #![auto]
        0 <= j < results.len() && results[j] is Err ==> failure_indices(d.failures@).contains(
            j as usize,
        )
    &&& d.rollback_errors@.len() == 0
}

/// How many of the first `n` backends hold `data` under `id`.
pub open spec fn count_holding<S: Storage>(
    backends: Seq<S>,
    id: Seq<char>,
    data: Seq<u8>,
    n: int,
) -> int
    decreases n,
{
    if n <= 0 {
        0
    } else {
        count_holding(backends, id, data, n - 1) + if backends[n - 1].contents().contains_pair(
            id,
            data,
        ) {
            1int
        } else {
            0int
        }
    }
}

/// After a write without rollback: every backend recorded as a success holds
/// the new object; every other backend is unchanged.
pub open spec fn put_state_plain<S: Storage>(
    oldb: Seq<S>,
    newb: Seq<S>,
    succ: Seq<usize>,
    id: Seq<char>,
    data: Seq<u8>,
) -> bool {
    &&& forall|k: int|
        #![auto]
        0 <= k < succ.len() ==> newb[succ[k] as int].contents() == oldb[
            succ[k] as int
        ].contents().insert(id, data)
    &&& forall|j: usize|
        #![auto]
        (j as int) < newb.len() && !succ.contains(j) ==> newb[j as int].contents() == oldb[
            j as int
        ].contents()
}

/// After a rolled-back write: every backend recorded as a success either had
/// the object deleted again, or kept it and had the failed deletion recorded
/// in the rollback errors; every other backend is untouched.
pub open spec fn put_state_rolled_back<S: Storage>(
    oldb: Seq<S>,
    newb: Seq<S>,
    d: MirrorFailureDetails,
    id: Seq<char>,
    data: Seq<u8>,
) -> bool {
    &&& forall|k: int|
        0 <= k < d.successes@.len() ==> newb[#[trigger] d.successes@[k] as int].contents() == oldb[
            d.successes@[k] as int
        ].contents().remove(id) || (newb[d.successes@[k] as int].contents() == oldb[
            d.successes@[k] as int
        ].contents().insert(id, data) && failure_indices(d.rollback_errors@).contains(
            d.successes@[k],
        ))
    &&& forall|j: usize|
        #![auto]
        (j as int) < newb.len() && !d.successes@.contains(j) ==> newb[j as int].contents() == oldb[
            j as int
        ].contents()
    &&& forall|k: int|
        #![auto]
        0 <= k < d.rollback_errors@.len() ==> d.successes@.contains(d.rollback_errors@[k].0)
    &&& forall|k: int|
        0 <= k < d.rollback_errors@.len() ==> newb[
            #[trigger] d.rollback_errors@[k].0 as int
        ].contents() == oldb[d.rollback_errors@[k].0 as int].contents().insert(id, data)
    &&& strictly_increasing(failure_indices(d.rollback_errors@))
}

proof fn lemma_count_holding_bounds<S: Storage>(b: Seq<S>, id: Seq<char>, data: Seq<u8>, n: int)
    requires
        n >= 0,
    ensures
        0 <= count_holding(b, id, data, n) <= n,
    decreases n,
{
    if n > 0 {
        lemma_count_holding_bounds(b, id, data, n - 1);
    }
}

/// A strictly increasing list of in-range indices, each of which holds the
/// object, witnesses a lower bound on the holding count.
proof fn lemma_count_holding_at_least<S: Storage>(
    b: Seq<S>,
    id: Seq<char>,
    data: Seq<u8>,
    idxs: Seq<usize>,
    n: int,
)
    requires
        strictly_increasing(idxs),
        forall|k: int| 0 <= k < idxs.len() ==> (#[trigger] idxs[k] as int) < n,
        forall|k: int|
            #![auto]
            0 <= k < idxs.len() ==> b[idxs[k] as int].contents().contains_pair(id, data),
        0 <= n,
    ensures
        count_holding(b, id, data, n) >= idxs.len(),
    decreases n,
{
    if idxs.len() == 0 {
        lemma_count_holding_bounds(b, id, data, n);
    } else {
        let lastpos = idxs.len() - 1;
        let lastidx = idxs[lastpos] as int;
        if lastidx == n - 1 {
            let rest = idxs.drop_last();
            assert(forall|k: int|
                0 <= k < rest.len() ==> (#[trigger] rest[k] as int) < n - 1) by {
                assert(forall|k: int| 0 <= k < rest.len() ==> rest[k] == idxs[k]);
                assert(forall|k: int| 0 <= k < lastpos ==> idxs[k] < idxs[lastpos]);
            }
            lemma_count_holding_at_least(b, id, data, rest, n - 1);
            assert(b[n - 1].contents().contains_pair(id, data));
        } else {
            assert(forall|k: int| 0 <= k < idxs.len() ==> (#[trigger] idxs[k] as int) < n - 1) by {
                assert(forall|k: int| 0 <= k < idxs.len() - 1 ==> idxs[k] < idxs[lastpos]);
            }
            lemma_count_holding_at_least(b, id, data, idxs, n - 1);
        }
    }
}

/// Mirrors data across multiple backends for redundancy.
///
/// Writes go to every backend, subject to the configured [`WriteStrategy`]
/// and [`ReturnPolicy`]; reads are served by the configured primary backend.
#[derive(Debug)]
pub struct MirrorStorage<S: Storage> {
    backends: Vec<S>,
    write_strategy: WriteStrategy,
    return_policy: ReturnPolicy,
    backend_timeout: Option<u64>,
    primary_index: usize,
}

impl<S: Storage> MirrorStorage<S> {
    /// The mirrored backends, in order.
    pub closed spec fn backend_seq(&self) -> Seq<S> {
        self.backends@
    }

    /// The configured write strategy.
    pub closed spec fn spec_write_strategy(&self) -> WriteStrategy {
        self.write_strategy
    }

    /// The configured return policy.
    pub closed spec fn spec_return_policy(&self) -> ReturnPolicy {
        self.return_policy
    }

    /// The configured per-backend timeout, in milliseconds.
    pub closed spec fn spec_backend_timeout(&self) -> Option<u64> {
        self.backend_timeout
    }

    /// The index of the primary backend used for reads.
    pub closed spec fn spec_primary_index(&self) -> int {
        self.primary_index as int
    }

    /// A mirror is well formed when it has at least one backend and its
    /// primary index designates one of them.
    pub open spec fn wf(&self) -> bool {
        self.backend_seq().len() >= 1 && 0 <= self.spec_primary_index()
            < self.backend_seq().len()
    }

    /// The configuration (everything but the backend states) is unchanged.
    pub open spec fn same_config(&self, other: &Self) -> bool {
        &&& self.backend_seq().len() == other.backend_seq().len()
        &&& self.spec_write_strategy() == other.spec_write_strategy()
        &&& self.spec_return_policy() == other.spec_return_policy()
        &&& self.spec_backend_timeout() == other.spec_backend_timeout()
        &&& self.spec_primary_index() == other.spec_primary_index()
    }

    /// Create a builder for configuring mirror storage.
    pub fn builder() -> (b: MirrorStorageBuilder<S>)
        ensures
            b.spec_backends() == Seq::<S>::empty(),
            b.spec_write_strategy() == (WriteStrategy::AllOrFail { rollback: false }),
            b.spec_return_policy() == ReturnPolicy::WaitAll,
            b.spec_backend_timeout() is None,
            b.spec_primary_index() == 0,
    {
        MirrorStorageBuilder::new()
    }

    /// Create a mirror storage with default settings (all backends must
    /// succeed, no rollback, wait for all, primary is the first backend).
    pub fn new(backends: Vec<S>) -> (s: Self)
        requires
            backends@.len() >= 1,
        ensures
            s.wf(),
            s.backend_seq() == backends@,
            s.spec_write_strategy() == (WriteStrategy::AllOrFail { rollback: false }),
            s.spec_return_policy() == ReturnPolicy::WaitAll,
            s.spec_backend_timeout() is None,
            s.spec_primary_index() == 0,
    {
        MirrorStorage {
            backends,
            write_strategy: WriteStrategy::AllOrFail { rollback: false },
            return_policy: ReturnPolicy::WaitAll,
            backend_timeout: None,
            primary_index: 0,
        }
    }

    /// Get the number of backends.
    pub fn backend_count(&self) -> (n: usize)
        ensures
            n == self.backend_seq().len(),
    {
        self.backends.len()
    }

    /// Get the write strategy.
    pub fn write_strategy(&self) -> (w: WriteStrategy)
        ensures
            w == self.spec_write_strategy(),
    {
        self.write_strategy
    }

    /// Get the return policy.
    pub fn return_policy(&self) -> (p: ReturnPolicy)
        ensures
            p == self.spec_return_policy(),
    {
        self.return_policy
    }

    /// Get the per-backend timeout in milliseconds, if one is configured.
    pub fn backend_timeout(&self) -> (t: Option<u64>)
        ensures
            t == self.spec_backend_timeout(),
    {
        self.backend_timeout
    }

    /// Get a reference to a specific backend by index.
    pub fn backend(&self, index: usize) -> (r: Option<&S>)
        ensures
            (index as int) < self.backend_seq().len() ==> (r matches Some(b) && *b
                == self.backend_seq()[index as int]),
            (index as int) >= self.backend_seq().len() ==> r is None,
    {
        if index < self.backends.len() {
            Some(&self.backends[index])
        } else {
            None
        }
    }

    /// Get the primary backend (used for reads).
    pub fn primary(&self) -> (b: &S)
        requires
            self.wf(),
        ensures
            *b == self.backend_seq()[self.spec_primary_index()],
    {
        &self.backends[self.primary_index]
    }

    /// Check if an object exists: ask the primary first; on a primary
    /// failure probe all backends in order and take the first answer; if
    /// every attempt fails, report the primary's original error.
    #[verifier::loop_isolation(false)]
    pub fn object_exists(&self, id: &String) -> (r: Result<bool, Error>)
        requires
            self.wf(),
        ensures
            r matches Ok(b) ==> exists|i: int|
                0 <= i < self.backend_seq().len() && b == self.backend_seq()[
                    i
                ].contents().contains_key(id@),
    {
        match self.backends[self.primary_index].object_exists(id) {
            Ok(b) => {
                proof {
                    assert(b == self.backend_seq()[
                        self.spec_primary_index()
                    ].contents().contains_key(id@));
                }
                Ok(b)
            },
            Err(e) => {
                let n = self.backends.len();
                let mut i: usize = 0;
                while i < n
                    invariant
                        i <= n,
                    decreases n - i,
                {
                    match self.backends[i].object_exists(id) {
                        Ok(b) => {
                            proof {
                                assert(b == self.backend_seq()[
                                    i as int
                                ].contents().contains_key(id@));
                            }
                            return Ok(b);
                        },
                        Err(_) => {},
                    }
                    i = i + 1;
                }
                Err(e)
            },
        }
    }

    /// Check if a folder exists, with the same primary-then-probe routing
    /// as `object_exists`.
    #[verifier::loop_isolation(false)]
    pub fn folder_exists(&self, id: &String) -> (r: Result<bool, Error>)
        requires
            self.wf(),
        ensures
            r matches Ok(b) ==> exists|i: int|
                0 <= i < self.backend_seq().len() && b == crate::storage::folder_exists_in(
                    self.backend_seq()[i].contents(),
                    id@,
                ),
    {
        match self.backends[self.primary_index].folder_exists(id) {
            Ok(b) => {
                proof {
                    assert(b == crate::storage::folder_exists_in(
                        self.backend_seq()[self.spec_primary_index()].contents(),
                        id@,
                    ));
                }
                Ok(b)
            },
            Err(e) => {
                let n = self.backends.len();
                let mut i: usize = 0;
                while i < n
                    invariant
                        i <= n,
                    decreases n - i,
                {
                    match self.backends[i].folder_exists(id) {
                        Ok(b) => {
                            proof {
                                assert(b == crate::storage::folder_exists_in(
                                    self.backend_seq()[i as int].contents(),
                                    id@,
                                ));
                            }
                            return Ok(b);
                        },
                        Err(_) => {},
                    }
                    i = i + 1;
                }
                Err(e)
            },
        }
    }

    /// Retrieve an object from the primary backend only, appending its bytes
    /// to `output`. There is deliberately no fallback on reads: a partially
    /// consumed output sink cannot be safely replayed against a second
    /// backend.
    pub fn get_into(&self, id: &String, output: &mut Vec<u8>) -> (r: Result<u64, Error>)
        requires
            self.wf(),
        ensures
            r matches Ok(n) ==> self.backend_seq()[
                self.spec_primary_index()
            ].contents().contains_key(id@) && final(output)@ == old(output)@ + self.backend_seq()[
                self.spec_primary_index()
            ].contents()[id@] && n as nat == self.backend_seq()[
                self.spec_primary_index()
            ].contents()[id@].len(),
            r is Err ==> final(output)@ == old(output)@,
            (r matches Err(e) && e is NotFound) ==> !self.backend_seq()[
                self.spec_primary_index()
            ].contents().contains_key(id@),
    {
        self.backends[self.primary_index].get_into(id, output)
    }

    /// List identifiers from the primary backend only; merging listings
    /// across backends would require deduplication and is left to callers.
    pub fn list(&self, prefix: Option<&String>) -> (r: Result<Vec<String>, Error>)
        requires
            self.wf(),
        ensures
            r matches Ok(v) ==> crate::storage::list_result_matches(
                self.backend_seq()[self.spec_primary_index()].contents(),
                crate::storage::opt_id_view(prefix),
                v@,
            ),
    {
        self.backends[self.primary_index].list(prefix)
    }

    /// Delete an object from every backend; any single success counts, since
    /// deletion is idempotent. Only if every backend fails is the first
    /// error reported.
    #[verifier::loop_isolation(false)]
    pub fn delete(&mut self, id: &String) -> (r: Result<(), Error>)
        requires
            old(self).wf(),
        ensures
            final(self).wf(),
            final(self).same_config(old(self)),
            forall|j: int|
                #![auto]
                0 <= j < old(self).backend_seq().len() ==> final(self).backend_seq()[j].contents()
                    == old(self).backend_seq()[j].contents().remove(id@) || final(self).backend_seq()[j].contents() == old(self).backend_seq()[j].contents(),
            r is Ok ==> exists|j: int|
                0 <= j < old(self).backend_seq().len() && #[trigger] final(self).backend_seq()[
                    j
                ].contents() == old(self).backend_seq()[j].contents().remove(id@),
            r is Err ==> forall|j: int|
                #![auto]
                0 <= j < old(self).backend_seq().len() ==> old(self).backend_seq()[
                    j
                ].contents().contains_key(id@) && final(self).backend_seq()[j].contents() == old(self).backend_seq()[j].contents(),
            (forall|j: int|
                #![auto]
                0 <= j < old(self).backend_seq().len() ==> !old(self).backend_seq()[
                    j
                ].contents().contains_key(id@)) ==> r is Ok,
    {
        let n = self.backends.len();
        let mut any_ok = false;
        let mut first_err: Option<Error> = None;
        let ghost mut wit: int = 0;
        let mut i: usize = 0;
        while i < n
            invariant
                i <= n,
                self.backends@.len() == n,
                self.write_strategy == old(self).write_strategy,
                self.return_policy == old(self).return_policy,
                self.backend_timeout == old(self).backend_timeout,
                self.primary_index == old(self).primary_index,
                any_ok ==> 0 <= wit < i && self.backends@[wit].contents() == old(
                    self,
                ).backends@[wit].contents().remove(id@),
                forall|j: int|
                    #![auto]
                    0 <= j < i ==> self.backends@[j].contents() == old(self).backends@[
                        j
                    ].contents().remove(id@) || self.backends@[j].contents() == old(self).backends@[j].contents(),
                forall|j: int| i <= j < n ==> self.backends@[j] == old(self).backends@[j],
                !any_ok ==> forall|j: int|
                    #![auto]
                    0 <= j < i ==> old(self).backends@[j].contents().contains_key(id@)
                        && self.backends@[j].contents() == old(self).backends@[j].contents(),
                !any_ok && i > 0 ==> first_err is Some,
            decreases n - i,
        {
            let ghost prev_backends = self.backends@;
            let b = &mut self.backends[i];
            match b.delete(id) {
                Ok(()) => {
                    any_ok = true;
                    proof {
                        wit = i as int;
                    }
                },
                Err(e) => {
                    if first_err.is_none() {
                        first_err = Some(e);
                    }
                },
            }
            proof {
                if any_ok && wit < i {
                    assert(self.backends@[wit] == prev_backends[wit]);
                }
            }
            i = i + 1;
        }
        if any_ok {
            Ok(())
        } else {
            proof {
                assert(old(self).backend_seq()[0].contents().contains_key(id@));
            }
            match first_err {
                Some(e) => Err(e),
                None => {
                    proof {
                        assert(false);
                    }
                    Ok(())
                },
            }
        }
    }

    /// Roll back a set of successful writes by deleting the object from
    /// exactly the listed backends, collecting the errors of the deletions
    /// that failed.
    #[verifier::loop_isolation(false)]
    fn rollback_writes(&mut self, id: &String, successful_indices: &Vec<usize>) -> (errs: Vec<
        (usize, Box<Error>),
    >)
        requires
            strictly_increasing(successful_indices@),
            forall|k: int|
                0 <= k < successful_indices@.len() ==> (#[trigger] successful_indices@[k] as int)
                    < old(self).backend_seq().len(),
        ensures
            final(self).same_config(old(self)),
            forall|k: int|
                0 <= k < successful_indices@.len() ==> final(self).backend_seq()[
                    #[trigger] successful_indices@[k] as int
                ].contents() == old(self).backend_seq()[
                    successful_indices@[k] as int
                ].contents().remove(id@) || (final(self).backend_seq()[
                    successful_indices@[k] as int
                ].contents() == old(self).backend_seq()[successful_indices@[k] as int].contents()
                    && failure_indices(errs@).contains(successful_indices@[k])),
            forall|j: usize|
                #![auto]
                (j as int) < old(self).backend_seq().len() && !successful_indices@.contains(j)
                    ==> final(self).backend_seq()[j as int] == old(self).backend_seq()[j as int],
            strictly_increasing(failure_indices(errs@)),
            forall|k: int|
                0 <= k < errs@.len() ==> successful_indices@.contains(#[trigger] errs@[k].0),
            forall|k: int|
                0 <= k < errs@.len() ==> final(self).backend_seq()[
                    #[trigger] errs@[k].0 as int
                ].contents() == old(self).backend_seq()[errs@[k].0 as int].contents(),
    {
        let mut errs: Vec<(usize, Box<Error>)> = Vec::new();
        let total = successful_indices.len();
        let mut k: usize = 0;
        while k < total
            invariant
                k <= total,
                total == successful_indices@.len(),
                self.backends@.len() == old(self).backends@.len(),
                self.write_strategy == old(self).write_strategy,
                self.return_policy == old(self).return_policy,
                self.backend_timeout == old(self).backend_timeout,
                self.primary_index == old(self).primary_index,
                forall|kk: int|
                    0 <= kk < k ==> self.backends@[
                        #[trigger] successful_indices@[kk] as int
                    ].contents() == old(self).backends@[
                        successful_indices@[kk] as int
                    ].contents().remove(id@) || (self.backends@[
                        successful_indices@[kk] as int
                    ].contents() == old(self).backends@[
                        successful_indices@[kk] as int
                    ].contents() && failure_indices(errs@).contains(successful_indices@[kk])),
                forall|m: int|
                    k <= m < total ==> self.backends@[#[trigger] successful_indices@[m] as int]
                        == old(self).backends@[successful_indices@[m] as int],
                forall|j: usize|
                    #![auto]
                    (j as int) < self.backends@.len() && !successful_indices@.contains(j)
                        ==> self.backends@[j as int] == old(self).backends@[j as int],
                forall|kk: int|
                    0 <= kk < errs@.len() ==> exists|m: int|
                        0 <= m < k && successful_indices@[m] == #[trigger] errs@[kk].0,
                forall|kk: int|
                    0 <= kk < errs@.len() ==> self.backends@[
                        #[trigger] errs@[kk].0 as int
                    ].contents() == old(self).backends@[errs@[kk].0 as int].contents(),
                strictly_increasing(failure_indices(errs@)),
            decreases total - k,
        {
            let idx = successful_indices[k];
            let ghost prev_errs = errs@;
            let ghost prev_backends = self.backends@;
            let b = &mut self.backends[idx];
            match b.delete(id) {
                Ok(()) => {},
                Err(e) => {
                    errs.push((idx, Box::new(e)));
                    proof {
                        assert(errs@ == prev_errs.push((idx, Box::new(e))));
                        assert(forall|a: int|
                            0 <= a < prev_errs.len() ==> #[trigger] errs@[a] == prev_errs[a]);
                        assert(errs@[prev_errs.len() as int].0 == idx);
                        assert(failure_indices(errs@)[prev_errs.len() as int]
                            == successful_indices@[k as int]);
                        assert(failure_indices(errs@).contains(successful_indices@[k as int]));
                        assert forall|a: int, bb: int|
                            0 <= a < bb < failure_indices(errs@).len() implies failure_indices(
                            errs@,
                        )[a] < failure_indices(errs@)[bb] by {
                            assert(failure_indices(errs@)[a] == errs@[a].0);
                            assert(failure_indices(errs@)[bb] == errs@[bb].0);
                            if bb == errs@.len() - 1 {
                                assert(failure_indices(prev_errs)[a] == prev_errs[a].0);
                                let m = choose|m: int|
                                    0 <= m < k && successful_indices@[m] == prev_errs[a].0;
                                assert(successful_indices@[m] < successful_indices@[k as int]);
                            } else {
                                assert(failure_indices(prev_errs)[a] < failure_indices(
                                    prev_errs,
                                )[bb]);
                            }
                        }
                    }
                },
            }
            proof {
                assert(forall|j: int|
                    0 <= j < prev_backends.len() && j != idx ==> self.backends@[j]
                        == prev_backends[j]);
                assert forall|m: int|
                    k + 1 <= m < total implies self.backends@[
                    #[trigger] successful_indices@[m] as int
                ] == old(self).backends@[successful_indices@[m] as int] by {
                    assert(successful_indices@[k as int] < successful_indices@[m]);
                }
                assert forall|kk: int|
                    0 <= kk < k + 1 implies self.backends@[
                    #[trigger] successful_indices@[kk] as int
                ].contents() == old(self).backends@[
                    successful_indices@[kk] as int
                ].contents().remove(id@) || (self.backends@[
                    successful_indices@[kk] as int
                ].contents() == old(self).backends@[successful_indices@[kk] as int].contents()
                    && failure_indices(errs@).contains(successful_indices@[kk])) by {
                    if kk < k {
                        assert(successful_indices@[kk] < successful_indices@[k as int]);
                        if failure_indices(prev_errs).contains(successful_indices@[kk]) {
                            let a = choose|a: int|
                                0 <= a < failure_indices(prev_errs).len() && failure_indices(
                                    prev_errs,
                                )[a] == successful_indices@[kk];
                            assert(errs@[a].0 == prev_errs[a].0);
                            assert(failure_indices(errs@)[a] == successful_indices@[kk]);
                        }
                    }
                }
                assert forall|kk: int|
                    0 <= kk < errs@.len() implies exists|m: int|
                    0 <= m < k + 1 && successful_indices@[m] == #[trigger] errs@[kk].0 by {
                    if kk < prev_errs.len() {
                        let m = choose|m: int|
                            0 <= m < k && successful_indices@[m] == prev_errs[kk].0;
                        assert(errs@[kk] == prev_errs[kk]);
                        assert(0 <= m < k + 1 && successful_indices@[m] == errs@[kk].0);
                    } else {
                        assert(0 <= k < k + 1 && successful_indices@[k as int] == errs@[kk].0);
                    }
                }
                assert forall|kk: int|
                    0 <= kk < errs@.len() implies self.backends@[
                    #[trigger] errs@[kk].0 as int
                ].contents() == old(self).backends@[errs@[kk].0 as int].contents() by {
                    if kk < prev_errs.len() {
                        assert(errs@[kk] == prev_errs[kk]);
                        let m = choose|m: int|
                            0 <= m < k && successful_indices@[m] == prev_errs[kk].0;
                        assert(successful_indices@[m] < successful_indices@[k as int]);
                        assert(self.backends@[errs@[kk].0 as int] == prev_backends[
                            errs@[kk].0 as int
                        ]);
                    }
                }
            }
            k = k + 1;
        }
        proof {
            assert forall|kk: int|
                0 <= kk < errs@.len() implies successful_indices@.contains(
                #[trigger] errs@[kk].0,
            ) by {
                let m = choose|m: int|
                    0 <= m < k && successful_indices@[m] == errs@[kk].0;
                assert(successful_indices@[m] == errs@[kk].0);
            }
        }
        errs
    }

    /// Evaluate whether per-backend write results meet the strategy's
    /// threshold, producing the failure report either way.
    #[verifier::loop_isolation(false)]
    fn evaluate_write_results(&self, results: Vec<Result<(), Error>>) -> (r: Result<
        MirrorFailureDetails,
        Error,
    >)
        ensures
            r matches Ok(d) ==> outcomes_match(d, results@) && d.successes@.len()
                >= self.spec_write_strategy().spec_required_successes(
                self.backend_seq().len() as int,
            ),
            r matches Err(e) ==> (e matches Error::MirrorFailure(d) && outcomes_match(d, results@)
                && (d.successes@.len() as int) < self.spec_write_strategy().spec_required_successes(
                self.backend_seq().len() as int,
            )),
    {
        let ghost all = results@;
        let mut rest = results;
        let total_n = rest.len();
        let mut successes: Vec<usize> = Vec::new();
        let mut failures: Vec<(usize, Box<Error>)> = Vec::new();
        let mut j: usize = 0;
        while rest.len() > 0
            invariant
                total_n == all.len(),
                j + rest@.len() == all.len(),
                rest@ == all.subrange(j as int, all.len() as int),
                strictly_increasing(successes@),
                strictly_increasing(failure_indices(failures@)),
                forall|k: int|
                    0 <= k < successes@.len() ==> (#[trigger] successes@[k] as int) < j && all[
                        successes@[k] as int
                    ] is Ok,
                forall|k: int|
                    0 <= k < failures@.len() ==> (#[trigger] failures@[k].0 as int) < j && (all[
                        failures@[k].0 as int
                    ] matches Err(e) && failures@[k].1 == e),
                successes@.len() + failures@.len() == j,
                forall|jj: int|
                    0 <= jj < j && all[jj] is Ok ==> successes@.contains(jj as usize),
                forall|jj: int|
                    0 <= jj < j && all[jj] is Err ==> failure_indices(failures@).contains(
                        jj as usize,
                    ),
            decreases rest@.len(),
        {
            let ghost prev_succ = successes@;
            let ghost prev_fail = failures@;
            let rr = rest.remove(0);
            proof {
                assert(rr == all[j as int]);
                assert(rest@ =~= all.subrange(j + 1 as int, all.len() as int));
            }
            match rr {
                Ok(()) => {
                    successes.push(j);
                    proof {
                        assert(successes@[prev_succ.len() as int] == j);
                        assert(successes@.contains(j));
                        assert forall|jj: int|
                            0 <= jj < j + 1 && all[jj] is Ok implies successes@.contains(
                            jj as usize,
                        ) by {
                            if jj < j {
                                let a = choose|a: int|
                                    0 <= a < prev_succ.len() && prev_succ[a] == jj as usize;
                                assert(successes@[a] == jj as usize);
                            }
                        }
                    }
                },
                Err(e) => {
                    failures.push((j, Box::new(e)));
                    proof {
                        assert(forall|a: int|
                            0 <= a < prev_fail.len() ==> #[trigger] failures@[a] == prev_fail[a]);
                        assert(failures@[prev_fail.len() as int].0 == j);
                        assert(failure_indices(failures@)[prev_fail.len() as int] == j);
                        assert(failure_indices(failures@).contains(j));
                        assert forall|a: int, bb: int|
                            0 <= a < bb < failure_indices(failures@).len() implies failure_indices(
                            failures@,
                        )[a] < failure_indices(failures@)[bb] by {
                            assert(failure_indices(failures@)[a] == failures@[a].0);
                            assert(failure_indices(failures@)[bb] == failures@[bb].0);
                            if bb < failures@.len() - 1 {
                                assert(failure_indices(prev_fail)[a] < failure_indices(
                                    prev_fail,
                                )[bb]);
                            }
                        }
                        assert forall|jj: int|
                            0 <= jj < j + 1 && all[jj] is Err implies failure_indices(
                            failures@,
                        ).contains(jj as usize) by {
                            if jj < j {
                                let a = choose|a: int|
                                    0 <= a < failure_indices(prev_fail).len() && failure_indices(
                                        prev_fail,
                                    )[a] == jj as usize;
                                assert(failure_indices(failures@)[a] == jj as usize);
                            }
                        }
                    }
                },
            }
            j = j + 1;
        }
        let required = self.write_strategy.required_successes(self.backends.len());
        let d = MirrorFailureDetails { successes, failures, rollback_errors: Vec::new() };
        proof {
            assert(d.successes@.len() + d.failures@.len() == all.len());
            assert forall|jj: usize|
                #![auto]
                (d.successes@.contains(jj) || failure_indices(d.failures@).contains(jj))
                    <==> (jj as int) < d.successes@.len() + d.failures@.len() by {
                if d.successes@.contains(jj) {
                    let k = choose|k: int|
                        0 <= k < d.successes@.len() && d.successes@[k] == jj;
                    assert((d.successes@[k] as int) < all.len());
                }
                if failure_indices(d.failures@).contains(jj) {
                    let k = choose|k: int|
                        0 <= k < failure_indices(d.failures@).len() && failure_indices(
                            d.failures@,
                        )[k] == jj;
                    assert(failure_indices(d.failures@)[k] == d.failures@[k].0);
                    assert((d.failures@[k].0 as int) < all.len());
                }
                if (jj as int) < all.len() {
                    if all[jj as int] is Ok {
                        assert(d.successes@.contains(jj));
                    } else {
                        assert(all[jj as int] is Err);
                        assert(failure_indices(d.failures@).contains(jj));
                    }
                }
            }
            assert(outcomes_match(d, all));
        }
        if d.successes.len() >= required {
            Ok(d)
        } else {
            Err(Error::MirrorFailure(d))
        }
    }

    /// Store an object on the mirrored backends.
    ///
    /// The write strategy fixes how many backends must succeed; the return
    /// policy fixes when the operation concludes relative to the backends
    /// attempted. On failure the aggregate report lists exactly which
    /// backends succeeded and failed, and — when the strategy requests
    /// rollback — the object has been deleted again from exactly the
    /// backends that had succeeded, with any rollback errors recorded
    /// alongside the original failure.
    #[verifier::loop_isolation(false)]
    pub fn put(&mut self, id: String, data: &Vec<u8>) -> (r: Result<(), Error>)
        requires
            old(self).wf(),
        ensures
            final(self).wf(),
            final(self).same_config(old(self)),
            r is Ok ==> count_holding(
                final(self).backend_seq(),
                id@,
                data@,
                old(self).backend_seq().len() as int,
            ) >= old(self).spec_write_strategy().spec_required_successes(
                old(self).backend_seq().len() as int,
            ),
            r is Ok ==> forall|j: int|
                #![auto]
                0 <= j < old(self).backend_seq().len() ==> final(self).backend_seq()[j].contents()
                    == old(self).backend_seq()[j].contents().insert(id@, data@) || final(self).backend_seq()[j].contents() == old(self).backend_seq()[j].contents(),
            // success is decided by a prefix of the backends: everything
            // beyond it is untouched, so no later backend's behaviour can
            // change the outcome
            r is Ok ==> exists|m: int|
                #![auto]
                0 <= m <= old(self).backend_seq().len() && count_holding(
                    final(self).backend_seq(),
                    id@,
                    data@,
                    m,
                ) >= old(self).spec_write_strategy().spec_required_successes(
                    old(self).backend_seq().len() as int,
                ) && (forall|j: int|
                    m <= j < old(self).backend_seq().len() ==> final(self).backend_seq()[j] == old(
                        self,
                    ).backend_seq()[j]),
            r matches Err(e) ==> e is MirrorFailure,
            r matches Err(Error::MirrorFailure(d)) ==> details_wf(
                d,
                old(self).backend_seq().len() as int,
            ) && outcome_coverage(d) && (d.successes@.len() as int) < old(self).spec_write_strategy().spec_required_successes(old(self).backend_seq().len() as int),
            r matches Err(Error::MirrorFailure(d)) ==> ((old(self).spec_return_policy() is WaitAll
                || old(self).spec_return_policy() is Optimistic) ==> d.successes@.len()
                + d.failures@.len() == old(self).backend_seq().len()),
            r matches Err(Error::MirrorFailure(d)) ==> (old(self).spec_return_policy() is FastFail
                ==> d.successes@.len() + d.failures@.len() <= old(self).backend_seq().len() && (
            d.successes@.len() + d.failures@.len() < old(self).backend_seq().len()
                ==> d.successes@.len() + (old(self).backend_seq().len() - (d.successes@.len()
                + d.failures@.len())) < old(self).spec_write_strategy().spec_required_successes(
                old(self).backend_seq().len() as int,
            ))),
            r matches Err(Error::MirrorFailure(d)) ==> (!old(self).spec_write_strategy().spec_should_rollback() ==> (d.rollback_errors@.len() == 0
                && put_state_plain(
                old(self).backend_seq(),
                final(self).backend_seq(),
                d.successes@,
                id@,
                data@,
            ))),
            r matches Err(Error::MirrorFailure(d)) ==> (old(self).spec_write_strategy().spec_should_rollback() ==> put_state_rolled_back(
                old(self).backend_seq(),
                final(self).backend_seq(),
                d,
                id@,
                data@,
            )),
    {
        let ghost pre = self.backends@;
        let n = self.backends.len();
        let required = self.write_strategy.required_successes(n);
        match self.return_policy {
            ReturnPolicy::WaitAll => {
                let mut results: Vec<Result<(), Error>> = Vec::new();
                let mut i: usize = 0;
                while i < n
                    invariant
                        i <= n,
                        n == self.backends@.len(),
                        results@.len() == i,
                        self.write_strategy == old(self).write_strategy,
                        self.return_policy == old(self).return_policy,
                        self.backend_timeout == old(self).backend_timeout,
                        self.primary_index == old(self).primary_index,
                        forall|jj: int|
                            #![auto]
                            0 <= jj < i && results@[jj] is Ok ==> self.backends@[jj].contents()
                                == pre[jj].contents().insert(id@, data@),
                        forall|jj: int|
                            #![auto]
                            0 <= jj < i && results@[jj] is Err ==> self.backends@[jj].contents()
                                == pre[jj].contents(),
                        forall|jj: int| i <= jj < n ==> self.backends@[jj] == pre[jj],
                    decreases n - i,
                {
                    let b = &mut self.backends[i];
                    let res = b.put(id.clone(), data);
                    results.push(res);
                    i = i + 1;
                }
                let ghost resseq = results@;
                proof {
                    assert forall|j: int|
                        #![auto]
                        0 <= j < n implies (self.backends@[j].contents() == pre[
                        j
                    ].contents().insert(id@, data@) || self.backends@[j].contents() == pre[
                        j
                    ].contents()) by {
                        assert(resseq[j] is Ok || resseq[j] is Err);
                        if resseq[j] is Ok {
                            assert(self.backends@[j].contents() == pre[j].contents().insert(
                                id@,
                                data@,
                            ));
                        } else {
                            assert(self.backends@[j].contents() == pre[j].contents());
                        }
                    }
                }
                match self.evaluate_write_results(results) {
                    Ok(d) => {
                        proof {
                            assert forall|k: int|
                                #![auto]
                                0 <= k < d.successes@.len() implies self.backends@[
                                d.successes@[k] as int
                            ].contents().contains_pair(id@, data@) by {
                                assert(resseq[d.successes@[k] as int] is Ok);
                            }
                            lemma_count_holding_at_least(
                                self.backends@,
                                id@,
                                data@,
                                d.successes@,
                                n as int,
                            );
                            assert(0 <= n as int <= n as int && count_holding(
                                self.backends@,
                                id@,
                                data@,
                                n as int,
                            ) >= required as int && (forall|j: int|
                                n as int <= j < n as int ==> self.backends@[j] == pre[j]));
                        }
                        Ok(())
                    },
                    Err(e) => {
                        match e {
                            Error::MirrorFailure(d) => {
                                proof {
                                    assert forall|j: usize|
                                        #![auto]
                                        (j as int) < self.backends@.len()
                                            && !d.successes@.contains(
                                            j,
                                        ) implies self.backends@[j as int].contents() == pre[
                                        j as int
                                    ].contents() by {
                                        if (j as int) < d.successes@.len() + d.failures@.len() {
                                            assert(failure_indices(d.failures@).contains(j));
                                            let k = choose|k: int|
                                                0 <= k < failure_indices(d.failures@).len()
                                                    && failure_indices(d.failures@)[k] == j;
                                            assert(failure_indices(d.failures@)[k]
                                                == d.failures@[k].0);
                                            assert(resseq[j as int] is Err);
                                        }
                                    }
                                    assert forall|k: int|
                                        #![auto]
                                        0 <= k < d.successes@.len() implies self.backends@[
                                        d.successes@[k] as int
                                    ].contents() == pre[d.successes@[k] as int].contents().insert(
                                        id@,
                                        data@,
                                    ) by {
                                        assert(resseq[d.successes@[k] as int] is Ok);
                                    }
                                }
                                let ghost dsucc = d.successes@;
                                let ghost dfail = d.failures@;
                                let MirrorFailureDetails { successes, failures, rollback_errors: _ } =
                                    d;
                                self.conclude_failure(&id, data, successes, failures, Ghost(pre))
                            },
                            _ => {
                                proof {
                                    assert(false);
                                }
                                Err(e)
                            },
                        }
                    },
                }
            },
            ReturnPolicy::Optimistic | ReturnPolicy::FastFail => {
                let fast_fail = match self.return_policy {
                    ReturnPolicy::FastFail => true,
                    _ => false,
                };
                let mut successes: Vec<usize> = Vec::new();
                let mut failures: Vec<(usize, Box<Error>)> = Vec::new();
                let mut i: usize = 0;
                while i < n
                    invariant
                        i <= n,
                        n == self.backends@.len(),
                        self.write_strategy == old(self).write_strategy,
                        self.return_policy == old(self).return_policy,
                        self.backend_timeout == old(self).backend_timeout,
                        self.primary_index == old(self).primary_index,
                        strictly_increasing(successes@),
                        forall|k: int|
                            0 <= k < successes@.len() ==> (#[trigger] successes@[k] as int) < i,
                        strictly_increasing(failure_indices(failures@)),
                        forall|k: int|
                            0 <= k < failures@.len() ==> (#[trigger] failures@[k].0 as int) < i,
                        successes@.len() + failures@.len() == i,
                        forall|k1: int, k2: int|
                            0 <= k1 < successes@.len() && 0 <= k2 < failures@.len()
                                ==> #[trigger] successes@[k1] != #[trigger] failures@[k2].0,
                        forall|jj: usize|
                            #![auto]
                            (jj as int) < i ==> (successes@.contains(jj) || failure_indices(
                                failures@,
                            ).contains(jj)),
                        forall|k: int|
                            0 <= k < successes@.len() ==> self.backends@[
                                #[trigger] successes@[k] as int
                            ].contents() == pre[successes@[k] as int].contents().insert(
                                id@,
                                data@,
                            ),
                        forall|j: usize|
                            #![auto]
                            (j as int) < n && !successes@.contains(j) ==> self.backends@[
                                j as int
                            ].contents() == pre[j as int].contents(),
                        forall|jj: int| i <= jj < n ==> self.backends@[jj] == pre[jj],
                        successes@.len() < required,
                    decreases n - i,
                {
                    let ghost prev_succ = successes@;
                    let ghost prev_fail = failures@;
                    let ghost prev_backends = self.backends@;
                    let b = &mut self.backends[i];
                    let res = b.put(id.clone(), data);
                    match res {
                        Ok(()) => {
                            successes.push(i);
                            proof {
                                assert(successes@[prev_succ.len() as int] == i);
                                assert(successes@.contains(i));
                                assert forall|jj: usize|
                                    #![auto]
                                    (jj as int) < i + 1 implies (successes@.contains(jj)
                                    || failure_indices(failures@).contains(jj)) by {
                                    if (jj as int) < i && prev_succ.contains(jj) {
                                        let a = choose|a: int|
                                            0 <= a < prev_succ.len() && prev_succ[a] == jj;
                                        assert(successes@[a] == jj);
                                    }
                                }
                                assert(forall|j: int|
                                    0 <= j < n && j != i ==> self.backends@[j]
                                        == prev_backends[j]);
                                assert forall|k: int|
                                    0 <= k < successes@.len() implies self.backends@[
                                    #[trigger] successes@[k] as int
                                ].contents() == pre[successes@[k] as int].contents().insert(
                                    id@,
                                    data@,
                                ) by {
                                    if k < prev_succ.len() {
                                        assert(successes@[k] == prev_succ[k]);
                                        assert((successes@[k] as int) < i);
                                    }
                                }
                            }
                            if successes.len() >= required {
                                proof {
                                    assert forall|k: int|
                                        #![auto]
                                        0 <= k < successes@.len() implies self.backends@[
                                        successes@[k] as int
                                    ].contents().contains_pair(id@, data@) by {}
                                    lemma_count_holding_at_least(
                                        self.backends@,
                                        id@,
                                        data@,
                                        successes@,
                                        n as int,
                                    );
                                    lemma_count_holding_at_least(
                                        self.backends@,
                                        id@,
                                        data@,
                                        successes@,
                                        i + 1 as int,
                                    );
                                    assert forall|j: int|
                                        i + 1 <= j < n implies self.backends@[j] == pre[j] by {
                                        assert(self.backends@[j] == prev_backends[j]);
                                    }
                                    assert(0 <= i + 1 as int <= n as int && count_holding(
                                        self.backends@,
                                        id@,
                                        data@,
                                        i + 1 as int,
                                    ) >= required as int && (forall|j: int|
                                        i + 1 as int <= j < n as int ==> self.backends@[j] == pre[
                                            j
                                        ]));
                                    assert forall|j: int|
                                        #![auto]
                                        0 <= j < n implies self.backends@[j].contents() == pre[
                                        j
                                    ].contents().insert(id@, data@) || self.backends@[j].contents()
                                        == pre[j].contents() by {
                                        if successes@.contains(j as usize) {
                                            let k = choose|k: int|
                                                0 <= k < successes@.len() && successes@[k]
                                                    == j as usize;
                                            assert(self.backends@[j].contents() == pre[
                                                j
                                            ].contents().insert(id@, data@));
                                        } else {
                                            if prev_succ.contains(j as usize) {
                                                let a = choose|a: int|
                                                    0 <= a < prev_succ.len() && prev_succ[a]
                                                        == j as usize;
                                                assert(successes@[a] == j as usize);
                                            } else {
                                                if j != i {
                                                    assert(self.backends@[j] == prev_backends[j]);
                                                }
                                            }
                                        }
                                    }
                                }
                                return Ok(());
                            }
                        },
                        Err(e) => {
                            failures.push((i, Box::new(e)));
                            proof {
                                assert(forall|a: int|
                                    0 <= a < prev_fail.len() ==> #[trigger] failures@[a]
                                        == prev_fail[a]);
                                assert(failures@[prev_fail.len() as int].0 == i);
                                assert(failure_indices(failures@)[prev_fail.len() as int] == i);
                                assert(failure_indices(failures@).contains(i));
                                assert forall|jj: usize|
                                    #![auto]
                                    (jj as int) < i + 1 implies (successes@.contains(jj)
                                    || failure_indices(failures@).contains(jj)) by {
                                    if (jj as int) < i && failure_indices(prev_fail).contains(
                                        jj,
                                    ) {
                                        let a = choose|a: int|
                                            0 <= a < failure_indices(prev_fail).len()
                                                && failure_indices(prev_fail)[a] == jj;
                                        assert(failure_indices(failures@)[a] == failures@[a].0);
                                        assert(failure_indices(failures@)[a] == jj);
                                    }
                                }
                                assert forall|a: int, bb: int|
                                    0 <= a < bb < failure_indices(
                                        failures@,
                                    ).len() implies failure_indices(failures@)[a]
                                    < failure_indices(failures@)[bb] by {
                                    assert(failure_indices(failures@)[a] == failures@[a].0);
                                    assert(failure_indices(failures@)[bb] == failures@[bb].0);
                                    if bb < failures@.len() - 1 {
                                        assert(failure_indices(prev_fail)[a] < failure_indices(
                                            prev_fail,
                                        )[bb]);
                                    }
                                }
                                assert(forall|j: int|
                                    0 <= j < n && j != i ==> self.backends@[j]
                                        == prev_backends[j]);
                            }
                        },
                    }
                    proof {
                        assert forall|k: int|
                            0 <= k < successes@.len() implies self.backends@[
                            #[trigger] successes@[k] as int
                        ].contents() == pre[successes@[k] as int].contents().insert(
                            id@,
                            data@,
                        ) by {
                            if k < prev_succ.len() {
                                assert(successes@[k] == prev_succ[k]);
                                assert((successes@[k] as int) < i);
                                assert(self.backends@[successes@[k] as int] == prev_backends[
                                    successes@[k] as int
                                ]);
                            }
                        }
                        assert forall|j: usize|
                            #![auto]
                            (j as int) < n && !successes@.contains(
                                j,
                            ) implies self.backends@[j as int].contents() == pre[
                            j as int
                        ].contents() by {
                            if prev_succ.contains(j) {
                                let a = choose|a: int|
                                    0 <= a < prev_succ.len() && prev_succ[a] == j;
                                assert(successes@[a] == j);
                            } else {
                                if (j as int) != i {
                                    assert(self.backends@[j as int] == prev_backends[j as int]);
                                } else {
                                    assert(prev_backends[j as int] == pre[j as int]);
                                }
                            }
                        }
                    }
                    if fast_fail {
                        let attempted = i + 1;
                        let remaining = n - attempted;
                        if successes.len() + remaining < required {
                            proof {
                                assert(successes@.len() + failures@.len() == attempted);
                                assert forall|k: int|
                                    0 <= k < successes@.len() implies (
                                #[trigger] successes@[k] as int) < attempted by {
                                    if k < prev_succ.len() {
                                        assert(successes@[k] == prev_succ[k]);
                                    }
                                }
                                assert forall|k: int|
                                    0 <= k < failures@.len() implies (
                                #[trigger] failures@[k].0 as int) < attempted by {
                                    if k < prev_fail.len() {
                                        assert(failures@[k] == prev_fail[k]);
                                    }
                                }
                                assert forall|jj: usize|
                                    #![auto]
                                    (successes@.contains(jj) || failure_indices(
                                        failures@,
                                    ).contains(jj)) implies (jj as int) < successes@.len()
                                    + failures@.len() by {
                                    if successes@.contains(jj) {
                                        let k = choose|k: int|
                                            0 <= k < successes@.len() && successes@[k] == jj;
                                    } else {
                                        let k = choose|k: int|
                                            0 <= k < failure_indices(failures@).len()
                                                && failure_indices(failures@)[k] == jj;
                                        assert(failure_indices(failures@)[k] == failures@[k].0);
                                    }
                                }
                            }
                            let r2 = self.conclude_failure(
                                &id,
                                data,
                                successes,
                                failures,
                                Ghost(pre),
                            );
                            return r2;
                        }
                    }
                    i = i + 1;
                }
                proof {
                    assert(successes@.len() + failures@.len() == n);
                    assert forall|jj: usize|
                        #![auto]
                        (successes@.contains(jj) || failure_indices(failures@).contains(
                            jj,
                        )) implies (jj as int) < successes@.len() + failures@.len() by {
                        if successes@.contains(jj) {
                            let k = choose|k: int|
                                0 <= k < successes@.len() && successes@[k] == jj;
                        } else {
                            let k = choose|k: int|
                                0 <= k < failure_indices(failures@).len() && failure_indices(
                                    failures@,
                                )[k] == jj;
                            assert(failure_indices(failures@)[k] == failures@[k].0);
                        }
                    }
                }
                let r2 = self.conclude_failure(&id, data, successes, failures, Ghost(pre));
                r2
            },
        }
    }

    /// Conclude a write whose threshold was missed: run rollback when the
    /// strategy requests it and some backends had succeeded, then report the
    /// aggregate failure. `pre` is the backend state before the write began.
    fn conclude_failure(
        &mut self,
        id: &String,
        data: &Vec<u8>,
        successes: Vec<usize>,
        failures: Vec<(usize, Box<Error>)>,
        Ghost(pre): Ghost<Seq<S>>,
    ) -> (r: Result<(), Error>)
        requires
            old(self).backend_seq().len() == pre.len(),
            strictly_increasing(successes@),
            forall|k: int|
                0 <= k < successes@.len() ==> (#[trigger] successes@[k] as int) < pre.len(),
            strictly_increasing(failure_indices(failures@)),
            forall|k: int| 0 <= k < failures@.len() ==> (#[trigger] failures@[k].0 as int) < pre.len(),
            forall|k1: int, k2: int|
                0 <= k1 < successes@.len() && 0 <= k2 < failures@.len() ==> #[trigger] successes@[
                    k1
                ] != #[trigger] failures@[k2].0,
            put_state_plain(pre, old(self).backend_seq(), successes@, id@, data@),
        ensures
            final(self).same_config(old(self)),
            r is Err,
            r matches Err(e) ==> e is MirrorFailure,
            r matches Err(Error::MirrorFailure(d)) ==> d.successes@ == successes@ && d.failures@
                == failures@,
            r matches Err(Error::MirrorFailure(d))
                ==> (!old(self).spec_write_strategy().spec_should_rollback() ==> (
            d.rollback_errors@.len() == 0 && put_state_plain(
                pre,
                final(self).backend_seq(),
                successes@,
                id@,
                data@,
            ))),
            r matches Err(Error::MirrorFailure(d)) ==> (old(self).spec_write_strategy().spec_should_rollback() ==> put_state_rolled_back(
                pre,
                final(self).backend_seq(),
                d,
                id@,
                data@,
            )),
    {
        let mut d = MirrorFailureDetails { successes, failures, rollback_errors: Vec::new() };
        if self.write_strategy.should_rollback() && d.successes.len() > 0 {
            let ghost mid = self.backends@;
            let errs = self.rollback_writes(id, &d.successes);
            d.rollback_errors = errs;
            proof {
                assert forall|k: int|
                    0 <= k < d.successes@.len() implies self.backends@[
                    #[trigger] d.successes@[k] as int
                ].contents() == pre[d.successes@[k] as int].contents().remove(id@) || (
                self.backends@[d.successes@[k] as int].contents() == pre[
                    d.successes@[k] as int
                ].contents().insert(id@, data@) && failure_indices(d.rollback_errors@).contains(
                    d.successes@[k],
                )) by {
                    let i = d.successes@[k] as int;
                    assert(mid[i].contents() == pre[i].contents().insert(id@, data@));
                    if self.backends@[i].contents() == mid[i].contents().remove(id@) {
                        assert(pre[i].contents().insert(id@, data@).remove(id@) =~= pre[
                            i
                        ].contents().remove(id@));
                    }
                }
                assert forall|j: usize|
                    #![auto]
                    (j as int) < self.backends@.len() && !d.successes@.contains(
                        j,
                    ) implies self.backends@[j as int].contents() == pre[j as int].contents() by {
                    assert(self.backends@[j as int] == mid[j as int]);
                }
            }
        } else {
            proof {
                if self.write_strategy.spec_should_rollback() {
                    assert(d.successes@.len() == 0);
                }
            }
        }
        Err(Error::MirrorFailure(d))
    }
}

/// Builder for [`MirrorStorage`].
pub struct MirrorStorageBuilder<S: Storage> {
    backends: Vec<S>,
    write_strategy: WriteStrategy,
    return_policy: ReturnPolicy,
    backend_timeout: Option<u64>,
    primary_index: usize,
}

impl<S: Storage> MirrorStorageBuilder<S> {
    /// The backends added so far.
    pub closed spec fn spec_backends(&self) -> Seq<S> {
        self.backends@
    }

    /// The write strategy configured so far.
    pub closed spec fn spec_write_strategy(&self) -> WriteStrategy {
        self.write_strategy
    }

    /// The return policy configured so far.
    pub closed spec fn spec_return_policy(&self) -> ReturnPolicy {
        self.return_policy
    }

    /// The per-backend timeout configured so far, in milliseconds.
    pub closed spec fn spec_backend_timeout(&self) -> Option<u64> {
        self.backend_timeout
    }

    /// The primary index configured so far.
    pub closed spec fn spec_primary_index(&self) -> int {
        self.primary_index as int
    }

    /// Create a new builder.
    pub fn new() -> (b: Self)
        ensures
            b.spec_backends() == Seq::<S>::empty(),
            b.spec_write_strategy() == (WriteStrategy::AllOrFail { rollback: false }),
            b.spec_return_policy() == ReturnPolicy::WaitAll,
            b.spec_backend_timeout() is None,
            b.spec_primary_index() == 0,
    {
        MirrorStorageBuilder {
            backends: Vec::new(),
            write_strategy: WriteStrategy::AllOrFail { rollback: false },
            return_policy: ReturnPolicy::WaitAll,
            backend_timeout: None,
            primary_index: 0,
        }
    }

    /// Add a backend to the mirror.
    pub fn add_backend(self, backend: S) -> (b: Self)
        ensures
            b.spec_backends() == self.spec_backends().push(backend),
            b.spec_write_strategy() == self.spec_write_strategy(),
            b.spec_return_policy() == self.spec_return_policy(),
            b.spec_backend_timeout() == self.spec_backend_timeout(),
            b.spec_primary_index() == self.spec_primary_index(),
    {
        let mut s = self;
        s.backends.push(backend);
        s
    }

    /// Set the write strategy.
    pub fn write_strategy(self, strategy: WriteStrategy) -> (b: Self)
        ensures
            b.spec_backends() == self.spec_backends(),
            b.spec_write_strategy() == strategy,
            b.spec_return_policy() == self.spec_return_policy(),
            b.spec_backend_timeout() == self.spec_backend_timeout(),
            b.spec_primary_index() == self.spec_primary_index(),
    {
        let mut s = self;
        s.write_strategy = strategy;
        s
    }

    /// Set the return policy (default: wait for all backends).
    pub fn return_policy(self, policy: ReturnPolicy) -> (b: Self)
        ensures
            b.spec_backends() == self.spec_backends(),
            b.spec_write_strategy() == self.spec_write_strategy(),
            b.spec_return_policy() == policy,
            b.spec_backend_timeout() == self.spec_backend_timeout(),
            b.spec_primary_index() == self.spec_primary_index(),
    {
        let mut s = self;
        s.return_policy = policy;
        s
    }

    /// Set the per-backend timeout in milliseconds (default: none). The
    /// timeout is configuration for the embedding application's runner: a
    /// backend call that exceeds it is to be counted as a failure.
    pub fn backend_timeout(self, timeout_ms: u64) -> (b: Self)
        ensures
            b.spec_backends() == self.spec_backends(),
            b.spec_write_strategy() == self.spec_write_strategy(),
            b.spec_return_policy() == self.spec_return_policy(),
            b.spec_backend_timeout() == Some(timeout_ms),
            b.spec_primary_index() == self.spec_primary_index(),
    {
        let mut s = self;
        s.backend_timeout = Some(timeout_ms);
        s
    }

    /// Set the primary backend index for reads (default: 0).
    pub fn primary_index(self, index: usize) -> (b: Self)
        ensures
            b.spec_backends() == self.spec_backends(),
            b.spec_write_strategy() == self.spec_write_strategy(),
            b.spec_return_policy() == self.spec_return_policy(),
            b.spec_backend_timeout() == self.spec_backend_timeout(),
            b.spec_primary_index() == index as int,
    {
        let mut s = self;
        s.primary_index = index;
        s
    }

    /// Build the mirror storage.
    pub fn build(self) -> (s: MirrorStorage<S>)
        requires
            self.spec_backends().len() >= 1,
            0 <= self.spec_primary_index() < self.spec_backends().len(),
        ensures
            s.wf(),
            s.backend_seq() == self.spec_backends(),
            s.spec_write_strategy() == self.spec_write_strategy(),
            s.spec_return_policy() == self.spec_return_policy(),
            s.spec_backend_timeout() == self.spec_backend_timeout(),
            s.spec_primary_index() == self.spec_primary_index(),
    {
        MirrorStorage {
            backends: self.backends,
            write_strategy: self.write_strategy,
            return_policy: self.return_policy,
            backend_timeout: self.backend_timeout,
            primary_index: self.primary_index,
        }
    }
}

impl<S: Storage> Default for MirrorStorageBuilder<S> {
    /// An empty builder with the default configuration.
    fn default() -> (b: Self)
        ensures
            b.spec_backends() == Seq::<S>::empty(),
            b.spec_write_strategy() == (WriteStrategy::AllOrFail { rollback: false }),
            b.spec_return_policy() == ReturnPolicy::WaitAll,
            b.spec_backend_timeout() is None,
            b.spec_primary_index() == 0,
    {
        MirrorStorageBuilder::new()
    }
}

} // verus!
