//! Categorizing provider symbol changes against the configured universe.
//!
//! The provider publishes ticker renames; storage hands the pending ones
//! in here together with the currently configured tickers.  A change whose
//! old symbol is configured and whose new symbol is not can be applied; one
//! where both symbols are configured is a conflict; the rest do not touch
//! the configuration.  Reading storage and rewriting the configuration
//! file stay outside the crate.

use vstd::prelude::*;
use vstd::string::StrSliceExecFns;
use vstd::string::StringExecFns;

verus! {

/// One stored ticker rename.
pub struct StoredSymbolChange {
    pub id: Option<i64>,
    pub old_symbol: String,
    pub new_symbol: String,
    pub change_date: Option<String>,
    pub company_name: Option<String>,
    pub reason: Option<String>,
    /// Whether the change was applied; storage keeps this as an integer.
    pub applied: i64,
}

impl Clone for StoredSymbolChange {
    fn clone(&self) -> (r: Self)
        ensures
            r == *self,
    {
        StoredSymbolChange {
            id: match &self.id {
                Some(v) => Some(*v),
                None => None,
            },
            old_symbol: self.old_symbol.clone(),
            new_symbol: self.new_symbol.clone(),
            change_date: match &self.change_date {
                Some(d) => Some(d.clone()),
                None => None,
            },
            company_name: match &self.company_name {
                Some(n) => Some(n.clone()),
                None => None,
            },
            reason: match &self.reason {
                Some(x) => Some(x.clone()),
                None => None,
            },
            applied: self.applied,
        }
    }
}

/// How the pending changes relate to the configured tickers.
pub struct SymbolChangeReport {
    pub pending_changes: Vec<StoredSymbolChange>,
    pub applicable_changes: Vec<StoredSymbolChange>,
    pub non_applicable_changes: Vec<StoredSymbolChange>,
    pub conflicts: Vec<String>,
}

/// `code` is one of the configured tickers.
pub open spec fn has_ticker(ts: Seq<String>, code: Seq<char>) -> bool {
    exists|i: int| 0 <= i < ts.len() && ts[i]@ == code
}

/// The change can be applied: its old symbol is configured, its new one
/// is not yet.
pub open spec fn change_applicable(c: StoredSymbolChange, ts: Seq<String>) -> bool {
    has_ticker(ts, c.old_symbol@) && !has_ticker(ts, c.new_symbol@)
}

/// Both symbols are configured: applying would duplicate the new one.
pub open spec fn change_conflicts(c: StoredSymbolChange, ts: Seq<String>) -> bool {
    has_ticker(ts, c.old_symbol@) && has_ticker(ts, c.new_symbol@)
}

/// The change concerns a ticker that is not configured at all.
pub open spec fn change_not_applicable(c: StoredSymbolChange, ts: Seq<String>) -> bool {
    !has_ticker(ts, c.old_symbol@)
}

/// The applicable changes, in order.
pub open spec fn applicable_of(s: Seq<StoredSymbolChange>, ts: Seq<String>) -> Seq<
    StoredSymbolChange,
>
    decreases s.len(),
{
    if s.len() == 0 {
        Seq::empty()
    } else {
        let pre = applicable_of(s.drop_last(), ts);
        if change_applicable(s.last(), ts) {
            pre.push(s.last())
        } else {
            pre
        }
    }
}

/// The changes that touch no configured ticker, in order.
pub open spec fn non_applicable_of(s: Seq<StoredSymbolChange>, ts: Seq<String>) -> Seq<
    StoredSymbolChange,
>
    decreases s.len(),
{
    if s.len() == 0 {
        Seq::empty()
    } else {
        let pre = non_applicable_of(s.drop_last(), ts);
        if change_not_applicable(s.last(), ts) {
            pre.push(s.last())
        } else {
            pre
        }
    }
}

/// The text reported for one conflicting change.
pub open spec fn conflict_text(c: StoredSymbolChange) -> Seq<char> {
    "Both "@ + c.old_symbol@ + " and "@ + c.new_symbol@ + " exist in config (change date: "@
        + (match c.change_date {
        Some(d) => d@,
        None => "unknown"@,
    }) + ")"@
}

/// The conflict messages, in order.
pub open spec fn conflicts_of(s: Seq<StoredSymbolChange>, ts: Seq<String>) -> Seq<Seq<char>>
    decreases s.len(),
{
    if s.len() == 0 {
        Seq::empty()
    } else {
        let pre = conflicts_of(s.drop_last(), ts);
        if change_conflicts(s.last(), ts) {
            pre.push(conflict_text(s.last()))
        } else {
            pre
        }
    }
}

/// Whether `code` is among the configured tickers.
fn ticker_listed(tickers: &Vec<String>, code: &String) -> (r: bool)
    ensures
        r == has_ticker(tickers@, code@),
{
    let n = tickers.len();
    let mut i: usize = 0;
    while i < n
        invariant
            n == tickers@.len(),
            0 <= i <= n,
            forall|k: int| 0 <= k < i ==> (#[trigger] tickers@[k]@) != code@,
        decreases n - i,
    {
        if tickers[i] == *code {
            return true;
        }
        i += 1;
    }
    false
}

/// The report text for one conflicting change.
fn conflict_message(c: &StoredSymbolChange) -> (m: String)
    ensures
        m@ == conflict_text(*c),
{
    let mut m = String::from_str("Both ");
    m.append(c.old_symbol.as_str());
    m.append(" and ");
    m.append(c.new_symbol.as_str());
    m.append(" exist in config (change date: ");
    match &c.change_date {
        Some(d) => m.append(d.as_str()),
        None => m.append("unknown"),
    }
    m.append(")");
    m
}

/// Sort the pending changes into applicable, conflicting and
/// non-applicable against the configured tickers.  Every pending change is
/// kept in the report, and lands in exactly one of the three categories.
pub fn check_ticker_updates(
    pending: Vec<StoredSymbolChange>,
    current_tickers: &Vec<String>,
) -> (report: SymbolChangeReport)
    ensures
        report.pending_changes@ == pending@,
        report.applicable_changes@ == applicable_of(pending@, current_tickers@),
        report.non_applicable_changes@ == non_applicable_of(pending@, current_tickers@),
        report.conflicts@.map_values(|s: String| s@) == conflicts_of(pending@, current_tickers@),
{
    let n = pending.len();
    let mut applicable: Vec<StoredSymbolChange> = Vec::new();
    let mut non_applicable: Vec<StoredSymbolChange> = Vec::new();
    let mut conflicts: Vec<String> = Vec::new();
    let mut i: usize = 0;
    while i < n
        invariant
            n == pending@.len(),
            0 <= i <= n,
            applicable@ == applicable_of(pending@.subrange(0, i as int), current_tickers@),
            non_applicable@ == non_applicable_of(pending@.subrange(0, i as int), current_tickers@),
            conflicts@.map_values(|s: String| s@) == conflicts_of(
                pending@.subrange(0, i as int),
                current_tickers@,
            ),
        decreases n - i,
    {
        let c = &pending[i];
        let has_old = ticker_listed(current_tickers, &c.old_symbol);
        let has_new = ticker_listed(current_tickers, &c.new_symbol);
        proof {
            assert(pending@.subrange(0, i + 1).drop_last() =~= pending@.subrange(0, i as int));
            assert(pending@.subrange(0, i + 1).last() == pending@[i as int]);
        }
        if has_old {
            if has_new {
                let msg = conflict_message(c);
                conflicts.push(msg);
                proof {
                    assert(conflicts@.map_values(|s: String| s@) =~= conflicts_of(
                        pending@.subrange(0, i + 1),
                        current_tickers@,
                    ));
                }
            } else {
                applicable.push(c.clone());
            }
        } else {
            non_applicable.push(c.clone());
        }
        proof {
            assert(conflicts@.map_values(|s: String| s@) =~= conflicts_of(
                pending@.subrange(0, i + 1),
                current_tickers@,
            ));
        }
        i += 1;
    }
    proof {
        assert(pending@.subrange(0, n as int) =~= pending@);
    }
    SymbolChangeReport {
        pending_changes: pending,
        applicable_changes: applicable,
        non_applicable_changes: non_applicable,
        conflicts,
    }
}

} // verus!
