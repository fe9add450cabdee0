//! Collecting a batch of per-ticker outcomes.
//!
//! The fan-out over the ticker universe runs outside the crate under the
//! permit pool's bounded concurrency; each ticker resolves to a record or
//! an error.  Collection never aborts the batch: successes and per-ticker
//! failures are gathered separately, both in the order the outcomes were
//! handed in.

use vstd::prelude::*;

use crate::fetch::Details;
use crate::retry::FetchError;

verus! {

/// What a whole batch produced.
pub struct BatchResult {
    pub successes: Vec<Details>,
    pub failures: Vec<(String, FetchError)>,
}

/// The records of the successful outcomes, in order.
pub open spec fn successes_of(s: Seq<(String, Result<Details, FetchError>)>) -> Seq<Details>
    decreases s.len(),
{
    if s.len() == 0 {
        Seq::empty()
    } else {
        let pre = successes_of(s.drop_last());
        if s.last().1 is Ok {
            pre.push(s.last().1->Ok_0)
        } else {
            pre
        }
    }
}

/// The ticker and error of each failed outcome, in order.
pub open spec fn failures_of(s: Seq<(String, Result<Details, FetchError>)>) -> Seq<
    (String, FetchError),
>
    decreases s.len(),
{
    if s.len() == 0 {
        Seq::empty()
    } else {
        let pre = failures_of(s.drop_last());
        if s.last().1 is Err {
            pre.push((s.last().0, s.last().1->Err_0))
        } else {
            pre
        }
    }
}

/// Every outcome lands in exactly one of the two lists.
pub proof fn lemma_batch_partition(s: Seq<(String, Result<Details, FetchError>)>)
    ensures
        successes_of(s).len() + failures_of(s).len() == s.len(),
    decreases s.len(),
{
    if s.len() > 0 {
        lemma_batch_partition(s.drop_last());
    }
}

/// A batch in which every outcome succeeded yields no failure entries.
pub proof fn lemma_batch_all_ok(s: Seq<(String, Result<Details, FetchError>)>)
    requires
        forall|k: int| 0 <= k < s.len() ==> (#[trigger] s[k].1) is Ok,
    ensures
        successes_of(s).len() == s.len(),
        failures_of(s).len() == 0,
    decreases s.len(),
{
    if s.len() > 0 {
        lemma_batch_all_ok(s.drop_last());
    }
}

/// Partial-failure tolerance: when exactly one outcome failed, collection
/// still returns every other record — `len - 1` successes — and exactly
/// one failure entry, carrying that ticker and its error.
pub proof fn lemma_batch_partial_failure(s: Seq<(String, Result<Details, FetchError>)>, j: int)
    requires
        0 <= j < s.len(),
        s[j].1 is Err,
        forall|k: int| 0 <= k < s.len() && k != j ==> (#[trigger] s[k].1) is Ok,
    ensures
        successes_of(s).len() == s.len() - 1,
        failures_of(s).len() == 1,
        failures_of(s)[0].0 == s[j].0,
        failures_of(s)[0].1 == s[j].1->Err_0,
    decreases s.len(),
{
    if j == s.len() - 1 {
        lemma_batch_all_ok(s.drop_last());
    } else {
        lemma_batch_partial_failure(s.drop_last(), j);
    }
}

/// Gather a batch's outcomes, keeping successes and per-ticker failures
/// apart; no outcome is dropped and no failure aborts the batch.
pub fn collect_outcomes(outcomes: Vec<(String, Result<Details, FetchError>)>) -> (r: BatchResult)
    ensures
        r.successes@ == successes_of(outcomes@),
        r.failures@ == failures_of(outcomes@),
{
    let ghost orig: Seq<(String, Result<Details, FetchError>)> = outcomes@;
    let mut rest = outcomes;
    let mut successes: Vec<Details> = Vec::new();
    let mut failures: Vec<(String, FetchError)> = Vec::new();
    while rest.len() > 0
        invariant
            rest@.len() <= orig.len(),
            rest@ == orig.subrange(orig.len() - rest@.len(), orig.len() as int),
            successes@ == successes_of(orig.subrange(0, orig.len() - rest@.len())),
            failures@ == failures_of(orig.subrange(0, orig.len() - rest@.len())),
        decreases rest@.len(),
    {
        let ghost done: int = orig.len() - rest@.len();
        let (ticker, outcome) = rest.remove(0);
        proof {
            assert(rest@ =~= orig.subrange(done + 1, orig.len() as int));
            assert(orig.subrange(0, done + 1).drop_last() =~= orig.subrange(0, done));
            assert(orig.subrange(0, done + 1).last() == orig[done]);
        }
        match outcome {
            Ok(d) => {
                successes.push(d);
            },
            Err(e) => {
                failures.push((ticker, e));
            },
        }
    }
    proof {
        assert(orig.subrange(0, orig.len() as int) =~= orig);
    }
    BatchResult { successes, failures }
}

} // verus!
