//! Decisions of batch install and remove: resolving a batch, choosing among
//! variants, bounding how many installs run at once, and counting outcomes.

use vstd::multiset::Multiset;
use vstd::prelude::*;

use crate::package::ResolvedPackage;
use crate::registry::{PackageStorage, RegistryError, Resolution};

verus! {

/// The number of installs that may run at once when no limit is configured.
pub const DEFAULT_PARALLEL_LIMIT: usize = 2;

/// Picks one package among the candidates of a resolution. The first is taken
/// when it is the only one or when `assume_yes` is set; otherwise `answer`, a
/// 1-based choice made by the user, must name one.
pub fn select_variant(candidates: &Vec<ResolvedPackage>, assume_yes: bool, answer: Option<usize>) -> (r:
    Result<ResolvedPackage, RegistryError>)
    requires
        candidates@.len() > 0,
    ensures
        candidates@.len() == 1 || assume_yes ==> r == Ok::<ResolvedPackage, RegistryError>(
            candidates@[0],
        ),
        candidates@.len() > 1 && !assume_yes ==> match answer {
            Some(n) if 1 <= n <= candidates@.len() => r == Ok::<ResolvedPackage, RegistryError>(
                candidates@[n - 1],
            ),
            _ => r is Err,
        },
{
    if candidates.len() == 1 || assume_yes {
        Ok(candidates[0].duplicate())
    } else {
        match answer {
            Some(n) => {
                if 1 <= n && n <= candidates.len() {
                    Ok(candidates[n - 1].duplicate())
                } else {
                    Err(RegistryError::Ambiguous(candidates[0].package.name.clone()))
                }
            },
            None => Err(RegistryError::Ambiguous(candidates[0].package.name.clone())),
        }
    }
}

/// The resolution that a query text has in the registry.
pub open spec fn resolution_agrees(
    storage: PackageStorage,
    name: Seq<char>,
    res: Resolution,
) -> bool {
    let m = storage.query_matches(name);
    match res {
        Resolution::Unique(p) => m.len() == 1 && p == m[0],
        Resolution::Ambiguous(v) => m.len() > 1 && v@ == m,
    }
}

/// A name resolves when at least one package matches it.
pub open spec fn resolvable(storage: PackageStorage, name: Seq<char>) -> bool {
    storage.query_matches(name).len() > 0
}

impl PackageStorage {
    /// Resolves every name of a batch, or fails on the first that matches
    /// nothing, before anything is installed.
    pub fn resolve_all(&self, package_names: &Vec<String>) -> (r: Result<
        Vec<Resolution>,
        RegistryError,
    >)
        ensures
            match r {
                Ok(v) => {
                    &&& v@.len() == package_names@.len()
                    &&& forall|i: int|
                        0 <= i < v@.len() ==> resolution_agrees(*self, package_names@[i]@, #[trigger] v@[i])
                },
                Err(RegistryError::NotFound(n)) => exists|i: int|
                    0 <= i < package_names@.len() && package_names@[i]@ == n@ && !resolvable(
                        *self,
                        package_names@[i]@,
                    ) && forall|j: int| 0 <= j < i ==> resolvable(*self, package_names@[j]@),
                Err(RegistryError::Ambiguous(_)) => false,
            },
            r is Ok <==> forall|i: int|
                0 <= i < package_names@.len() ==> resolvable(*self, #[trigger] package_names@[i]@),
    {
        let mut out: Vec<Resolution> = Vec::new();
        let mut i: usize = 0;
        while i < package_names.len()
            invariant
                i <= package_names@.len(),
                out@.len() == i,
                forall|k: int| 0 <= k < i ==> resolution_agrees(*self, package_names@[k]@, #[trigger] out@[k]),
                forall|k: int| 0 <= k < i ==> resolvable(*self, #[trigger] package_names@[k]@),
            decreases package_names@.len() - i,
        {
            match self.resolve_package(package_names[i].as_str()) {
                Ok(res) => {
                    out.push(res);
                },
                Err(e) => {
                    return Err(e);
                },
            }
            i += 1;
        }
        Ok(out)
    }

    /// Resolves the names of a removal; names that match nothing are skipped.
    pub fn resolve_for_removal(&self, package_names: &Vec<String>) -> (r: Vec<Resolution>)
        ensures
            r@.len() == removable_names(*self, package_names@).len(),
            forall|i: int|
                0 <= i < r@.len() ==> resolution_agrees(
                    *self,
                    removable_names(*self, package_names@)[i],
                    #[trigger] r@[i],
                ),
    {
        let mut out: Vec<Resolution> = Vec::new();
        let mut i: usize = 0;
        while i < package_names.len()
            invariant
                i <= package_names@.len(),
                out@.len() == removable_names(*self, package_names@.subrange(0, i as int)).len(),
                forall|j: int|
                    0 <= j < out@.len() ==> resolution_agrees(
                        *self,
                        removable_names(*self, package_names@.subrange(0, i as int))[j],
                        #[trigger] out@[j],
                    ),
            decreases package_names@.len() - i,
        {
            proof {
                assert(package_names@.subrange(0, i + 1).drop_last() =~= package_names@.subrange(0, i as int));
                assert(package_names@.subrange(0, i + 1).last() == package_names@[i as int]);
            }
            match self.resolve_package(package_names[i].as_str()) {
                Ok(res) => {
                    out.push(res);
                },
                Err(_) => {},
            }
            i += 1;
        }
        proof {
            assert(package_names@.subrange(0, package_names@.len() as int) =~= package_names@);
        }
        out
    }
}

/// The names that resolve, in order.
pub open spec fn removable_names(storage: PackageStorage, names: Seq<String>) -> Seq<Seq<char>>
    decreases names.len(),
{
    if names.len() == 0 {
        Seq::empty()
    } else {
        let rest = removable_names(storage, names.drop_last());
        if resolvable(storage, names.last()@) {
            rest.push(names.last()@)
        } else {
            rest
        }
    }
}

/// The count reported after a batch install.
#[derive(Debug, Clone, Copy, PartialEq, Eq)]
pub struct InstallSummary {
    pub succeeded: usize,
    pub attempted: usize,
}

/// The number of successes among outcomes.
pub open spec fn successes(outcomes: Seq<bool>) -> nat
    decreases outcomes.len(),
{
    if outcomes.len() == 0 {
        0
    } else {
        successes(outcomes.drop_last()) + if outcomes.last() {
            1nat
        } else {
            0nat
        }
    }
}

/// Counts the outcomes of a batch, one per resolved package.
pub fn summarize(outcomes: &Vec<bool>) -> (r: InstallSummary)
    ensures
        r.attempted == outcomes@.len(),
        r.succeeded == successes(outcomes@),
{
    let mut n: usize = 0;
    let mut i: usize = 0;
    while i < outcomes.len()
        invariant
            i <= outcomes@.len(),
            n == successes(outcomes@.subrange(0, i as int)),
            n <= i,
        decreases outcomes@.len() - i,
    {
        proof {
            assert(outcomes@.subrange(0, i + 1).drop_last() =~= outcomes@.subrange(0, i as int));
        }
        if outcomes[i] {
            n += 1;
        }
        i += 1;
    }
    proof {
        assert(outcomes@.subrange(0, outcomes@.len() as int) =~= outcomes@);
    }
    InstallSummary { succeeded: n, attempted: outcomes.len() }
}

/// The bounded pool of a batch install. Packages start in index order; at
/// most `limit` of them are installing at any time.
pub struct InstallPool {
    limit: usize,
    total: usize,
    started: usize,
    running: usize,
    succeeded: usize,
    outcomes: Ghost<Seq<bool>>,
}

impl InstallPool {
    pub closed spec fn limit(&self) -> nat {
        self.limit as nat
    }

    pub closed spec fn total(&self) -> nat {
        self.total as nat
    }

    pub closed spec fn started(&self) -> nat {
        self.started as nat
    }

    pub closed spec fn running(&self) -> nat {
        self.running as nat
    }

    pub closed spec fn succeeded(&self) -> nat {
        self.succeeded as nat
    }

    /// The outcomes of the finished packages, in the order they finished.
    pub closed spec fn outcomes(&self) -> Seq<bool> {
        self.outcomes@
    }

    /// Packages that have finished.
    pub open spec fn finished(&self) -> nat {
        (self.started() - self.running()) as nat
    }

    pub closed spec fn wf(&self) -> bool {
        &&& 1 <= self.limit
        &&& self.running <= self.limit
        &&& self.started <= self.total
        &&& self.running <= self.started
        &&& self.succeeded <= self.started - self.running
        &&& self.outcomes@.len() == self.started - self.running
        &&& self.succeeded == successes(self.outcomes@)
    }

    /// A pool for `total` packages. With `parallel` unset the pool runs one
    /// install at a time; otherwise `limit`, or the default when it is unset.
    /// A limit of zero runs one at a time.
    pub fn new(total: usize, parallel: bool, limit: Option<usize>) -> (r: InstallPool)
        ensures
            r.wf(),
            r.total() == total,
            r.started() == 0,
            r.running() == 0,
            r.succeeded() == 0,
            r.outcomes() == Seq::<bool>::empty(),
            r.limit() == if !parallel {
                1
            } else {
                match limit {
                    Some(k) => if k == 0 {
                        1
                    } else {
                        k as nat
                    },
                    None => DEFAULT_PARALLEL_LIMIT as nat,
                }
            },
    {
        let cap = if !parallel {
            1
        } else {
            match limit {
                Some(k) => if k == 0 {
                    1
                } else {
                    k
                },
                None => DEFAULT_PARALLEL_LIMIT,
            }
        };
        InstallPool {
            limit: cap,
            total,
            started: 0,
            running: 0,
            succeeded: 0,
            outcomes: Ghost(Seq::empty()),
        }
    }

    /// Starts the next package if a slot is free, and returns its index.
    pub fn start_next(&mut self) -> (r: Option<usize>)
        requires
            old(self).wf(),
        ensures
            final(self).wf(),
            final(self).limit() == old(self).limit(),
            final(self).total() == old(self).total(),
            final(self).succeeded() == old(self).succeeded(),
            final(self).outcomes() == old(self).outcomes(),
            old(self).running() < old(self).limit() && old(self).started() < old(self).total() ==> {
                &&& r == Some(old(self).started() as usize)
                &&& final(self).started() == old(self).started() + 1
                &&& final(self).running() == old(self).running() + 1
            },
            !(old(self).running() < old(self).limit() && old(self).started() < old(self).total())
                ==> r is None && *final(self) == *old(self),
    {
        if self.running < self.limit && self.started < self.total {
            let i = self.started;
            self.started = self.started + 1;
            self.running = self.running + 1;
            Some(i)
        } else {
            None
        }
    }

    /// Records that a running install ended, and how; its slot is freed.
    pub fn finish(&mut self, ok: bool)
        requires
            old(self).wf(),
            old(self).running() > 0,
        ensures
            final(self).wf(),
            final(self).limit() == old(self).limit(),
            final(self).total() == old(self).total(),
            final(self).started() == old(self).started(),
            final(self).running() == old(self).running() - 1,
            final(self).outcomes() == old(self).outcomes().push(ok),
            final(self).succeeded() == old(self).succeeded() + if ok {
                1nat
            } else {
                0nat
            },
    {
        proof {
            lemma_successes_bounded(self.outcomes@);
            assert(self.outcomes@.push(ok).drop_last() =~= self.outcomes@);
        }
        self.running = self.running - 1;
        if ok {
            self.succeeded = self.succeeded + 1;
        }
        self.outcomes = Ghost(self.outcomes@.push(ok));
    }

    /// True when a slot is free and a package is waiting.
    pub fn can_start(&self) -> (r: bool)
        requires
            self.wf(),
        ensures
            r == (self.running() < self.limit() && self.started() < self.total()),
    {
        self.running < self.limit && self.started < self.total
    }

    /// True when every package has finished.
    pub fn is_done(&self) -> (r: bool)
        requires
            self.wf(),
        ensures
            r == (self.finished() == self.total()),
    {
        self.started == self.total && self.running == 0
    }

    /// The number of installs running now.
    pub fn running_count(&self) -> (r: usize)
        ensures
            r == self.running(),
    {
        self.running
    }

    /// Succeeded against attempted: every package of the batch counts as attempted.
    pub fn summary(&self) -> (r: InstallSummary)
        requires
            self.wf(),
        ensures
            r.succeeded == self.succeeded(),
            r.succeeded == successes(self.outcomes()),
            r.attempted == self.total(),
    {
        InstallSummary { succeeded: self.succeeded, attempted: self.total }
    }
}


/// However the pool is driven, no more installs run at once than its limit,
/// and the limit is at least one.
pub proof fn lemma_pool_within_limit(p: InstallPool)
    requires
        p.wf(),
    ensures
        1 <= p.limit(),
        p.running() <= p.limit(),
{
}

/// The pool's count of successes never exceeds the finished packages, which
/// never exceed the batch.
pub proof fn lemma_pool_count_bounded(p: InstallPool)
    requires
        p.wf(),
    ensures
        p.succeeded() <= p.finished(),
        p.finished() <= p.total(),
{
}

/// Two pools whose finished packages had the same outcomes, whatever the
/// order in which they finished (one at a time or in parallel), report the
/// same count.
pub proof fn lemma_pool_order_free(a: InstallPool, b: InstallPool)
    requires
        a.wf(),
        b.wf(),
        a.outcomes().to_multiset() == b.outcomes().to_multiset(),
    ensures
        a.succeeded() == b.succeeded(),
        a.finished() == b.finished(),
{
    lemma_successes_order_free(a.outcomes(), b.outcomes());
}

/// Successes never exceed the outcomes.
pub proof fn lemma_successes_bounded(outcomes: Seq<bool>)
    ensures
        successes(outcomes) <= outcomes.len(),
    decreases outcomes.len(),
{
    if outcomes.len() > 0 {
        lemma_successes_bounded(outcomes.drop_last());
    }
}

proof fn lemma_successes_count(outcomes: Seq<bool>)
    ensures
        successes(outcomes) == outcomes.to_multiset().count(true),
    decreases outcomes.len(),
{
    broadcast use vstd::seq_lib::group_to_multiset_ensures;

    if outcomes.len() > 0 {
        lemma_successes_count(outcomes.drop_last());
        assert(outcomes.drop_last().push(outcomes.last()) =~= outcomes);
    } else {
        assert(outcomes.to_multiset() =~= Multiset::<bool>::empty());
    }
}

/// The number of successes depends on the outcomes alone, not on the order in
/// which they arrive: one at a time in index order and in parallel in any
/// completion order give the same count.
pub proof fn lemma_successes_order_free(in_order: Seq<bool>, completed: Seq<bool>)
    requires
        in_order.to_multiset() == completed.to_multiset(),
    ensures
        successes(in_order) == successes(completed),
        in_order.len() == completed.len(),
{
    broadcast use vstd::seq_lib::group_to_multiset_ensures;

    lemma_successes_count(in_order);
    lemma_successes_count(completed);
    assert(in_order.to_multiset().len() == in_order.len());
    assert(completed.to_multiset().len() == completed.len());
}


/// A name that several packages match never resolves to one of them on its
/// own: the resolution hands back every candidate, and only `select_variant`
/// picks one, which without `assume_yes` needs a valid answer.
pub proof fn lemma_no_silent_pick(storage: PackageStorage, name: Seq<char>, res: Resolution)
    requires
        resolution_agrees(storage, name, res),
        storage.query_matches(name).len() > 1,
    ensures
        res matches Resolution::Ambiguous(v) && v@ == storage.query_matches(name),
{
}

} // verus!
