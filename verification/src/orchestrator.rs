//! Aggregation rules of the bounded-concurrency orchestrator: partitioning
//! per-source outcomes into one combined result and independent failures,
//! the concurrency-permit budget, and the decision whether anything is
//! persisted at all.

use vstd::prelude::*;
use crate::errors::FetchError;

verus! {

/// How many sources may run at once.
pub const CONCURRENCY_LIMIT: usize = 8;

/// The flattened successes of a list of per-source outcomes, in source
/// order; failed sources contribute nothing.
pub open spec fn spec_successes(rs: Seq<Result<Vec<String>, FetchError>>) -> Seq<String>
    decreases rs.len(),
{
    if rs.len() == 0 {
        Seq::empty()
    } else {
        (match rs[0] {
            Ok(v) => v@,
            Err(_) => Seq::empty(),
        }) + spec_successes(rs.skip(1))
    }
}

/// The failures of a list of per-source outcomes, in source order.
pub open spec fn spec_failures(rs: Seq<Result<Vec<String>, FetchError>>) -> Seq<FetchError>
    decreases rs.len(),
{
    if rs.len() == 0 {
        Seq::empty()
    } else {
        (match rs[0] {
            Ok(_) => Seq::empty(),
            Err(e) => seq![e],
        }) + spec_failures(rs.skip(1))
    }
}

/// Partition per-source outcomes: successes flattened into one combined list
/// in source order, failures collected separately in source order.  No
/// failure removes or reorders another source's results.
pub fn partition_outcomes(outcomes: Vec<Result<Vec<String>, FetchError>>) -> (r: (
    Vec<String>,
    Vec<FetchError>,
))
    ensures
        r.0@ == spec_successes(outcomes@),
        r.1@ == spec_failures(outcomes@),
{
    let ghost orig = outcomes@;
    let mut rest = outcomes;
    let mut urls: Vec<String> = Vec::new();
    let mut errs: Vec<FetchError> = Vec::new();
    while rest.len() > 0
        invariant
            spec_successes(orig) == urls@ + spec_successes(rest@),
            spec_failures(orig) == errs@ + spec_failures(rest@),
        decreases rest@.len(),
    {
        let ghost pre = rest@;
        let head = rest.remove(0);
        proof {
            assert(rest@ =~= pre.skip(1));
        }
        match head {
            Ok(mut v) => {
                proof {
                    assert(spec_successes(pre) == v@ + spec_successes(pre.skip(1)));
                    assert(spec_failures(pre) == spec_failures(pre.skip(1)));
                }
                urls.append(&mut v);
                proof {
                    assert(urls@ + spec_successes(rest@) =~= spec_successes(orig));
                    assert(errs@ + spec_failures(rest@) =~= spec_failures(orig));
                }
            },
            Err(e) => {
                proof {
                    assert(spec_successes(pre) == spec_successes(pre.skip(1)));
                    assert(spec_failures(pre) == seq![e] + spec_failures(pre.skip(1)));
                }
                errs.push(e);
                proof {
                    assert(urls@ + spec_successes(rest@) =~= spec_successes(orig));
                    assert(errs@ + spec_failures(rest@) =~= spec_failures(orig));
                }
            },
        }
    }
    proof {
        assert(urls@ =~= spec_successes(orig));
        assert(errs@ =~= spec_failures(orig));
    }
    (urls, errs)
}

/// Law: one source's failure never disturbs the others: dropping a failed
/// outcome from the list leaves the combined successes exactly as they were.
pub proof fn lemma_failure_isolated(rs: Seq<Result<Vec<String>, FetchError>>, i: int)
    requires
        0 <= i < rs.len(),
        rs[i] is Err,
    ensures
        spec_successes(rs.remove(i)) == spec_successes(rs),
    decreases rs.len(),
{
    if i == 0 {
        assert(rs.remove(0) =~= rs.skip(1));
    } else {
        lemma_failure_isolated(rs.skip(1), i - 1);
        assert(rs.remove(i).skip(1) =~= rs.skip(1).remove(i - 1));
        assert(rs.remove(i)[0] == rs[0]);
    }
}

/// The fixed budget of concurrency permits: at most `limit` sources run at
/// once, permits freed by one source are reused by the next.
pub struct Permits {
    pub available: usize,
    pub limit: usize,
}

impl Permits {
    /// No more permits than the limit are ever out.
    pub open spec fn wf(self) -> bool {
        self.available <= self.limit
    }

    /// A full budget of `limit` permits.
    pub fn new(limit: usize) -> (r: Permits)
        ensures
            r.wf(),
            r.available == limit,
            r.limit == limit,
    {
        Permits { available: limit, limit }
    }

    /// Take one permit; reports whether one was free.  A source must hold a
    /// permit before it runs.
    pub fn acquire(&mut self) -> (got: bool)
        requires
            old(self).wf(),
        ensures
            final(self).wf(),
            final(self).limit == old(self).limit,
            got == (old(self).available > 0),
            got ==> final(self).available == old(self).available - 1,
            !got ==> final(self).available == old(self).available,
    {
        if self.available > 0 {
            self.available = self.available - 1;
            true
        } else {
            false
        }
    }

    /// Return one permit; must be called on every exit path of a source's
    /// work, success or failure.
    pub fn release(&mut self)
        requires
            old(self).wf(),
            old(self).available < old(self).limit,
        ensures
            final(self).wf(),
            final(self).limit == old(self).limit,
            final(self).available == old(self).available + 1,
    {
        self.available = self.available + 1;
    }
}

/// Whether the harvested links are persisted at all: an empty aggregate
/// short-circuits the persistence step entirely.
pub fn should_persist(urls: &Vec<String>) -> (r: bool)
    ensures
        r == (urls@.len() > 0),
{
    urls.len() > 0
}

} // verus!
