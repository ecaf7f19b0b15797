//! Left-to-right evaluation of predicate chains whose items carry their own
//! Boolean operator.
use vstd::prelude::*;

use crate::config::MatchOperator;

verus! {

/// Folds one more item into the accumulated value of a chain.
pub open spec fn chain_step(acc: bool, op: MatchOperator, p: bool) -> bool {
    match op {
        MatchOperator::And => acc && p,
        MatchOperator::Or => acc || p,
        MatchOperator::AndNot => acc && !p,
        MatchOperator::OrNot => acc || !p,
        MatchOperator::Not => acc && !p,
    }
}

/// Value of the first `n` items of a chain (`n >= 1`); the first item's
/// operator is ignored.
pub open spec fn chain_prefix(items: Seq<(MatchOperator, bool)>, n: int) -> bool
    decreases n,
{
    if n <= 1 {
        items[0].1
    } else {
        chain_step(chain_prefix(items, n - 1), items[n - 1].0, items[n - 1].1)
    }
}

/// Value of a whole chain: an empty chain is true.
pub open spec fn chain_value(items: Seq<(MatchOperator, bool)>) -> bool {
    if items.len() == 0 {
        true
    } else {
        chain_prefix(items, items.len() as int)
    }
}

/// Whether the item at `i` has to be evaluated, given the value of the items
/// before it: AND-like items are skipped once the value is false, OR-like
/// items once it is true.
pub open spec fn needs_eval(acc: bool, op: MatchOperator) -> bool {
    match op {
        MatchOperator::And | MatchOperator::AndNot | MatchOperator::Not => acc,
        MatchOperator::Or | MatchOperator::OrNot => !acc,
    }
}

/// A skipped item leaves the value unchanged, whatever its predicate says.
pub proof fn lemma_skip_keeps_value(acc: bool, op: MatchOperator, p: bool)
    requires
        !needs_eval(acc, op),
    ensures
        chain_step(acc, op, p) == acc,
{
}

/// Evaluates a chain of `(operator, result)` pairs left to right.
pub fn eval_match_chain(entries: &Vec<(MatchOperator, bool)>) -> (r: bool)
    ensures
        r == chain_value(entries@),
{
    if entries.len() == 0 {
        return true;
    }
    let mut acc = entries[0].1;
    let mut i: usize = 1;
    while i < entries.len()
        invariant
            1 <= i <= entries.len(),
            acc == chain_prefix(entries@, i as int),
        decreases entries.len() - i,
    {
        let (op, p) = entries[i];
        acc = step(acc, op, p);
        i = i + 1;
    }
    acc
}

/// One step of a chain, with the short-circuit of the operator.
pub fn step(acc: bool, op: MatchOperator, p: bool) -> (r: bool)
    ensures
        r == chain_step(acc, op, p),
{
    match op {
        MatchOperator::And => acc && p,
        MatchOperator::Or => acc || p,
        MatchOperator::AndNot => acc && !p,
        MatchOperator::OrNot => acc || !p,
        MatchOperator::Not => acc && !p,
    }
}

/// All of the values hold.
pub open spec fn all_true(v: Seq<bool>) -> bool {
    forall|i: int| 0 <= i < v.len() ==> v[i]
}

/// Some value holds.
pub open spec fn any_true(v: Seq<bool>) -> bool {
    exists|i: int| 0 <= i < v.len() && v[i]
}

/// Combines a list of results with one operator applied to the whole list.
pub open spec fn apply_operator_spec(op: MatchOperator, v: Seq<bool>) -> bool {
    match op {
        MatchOperator::And => all_true(v),
        MatchOperator::Or => any_true(v),
        MatchOperator::AndNot => !any_true(v),
        MatchOperator::OrNot => !all_true(v),
        MatchOperator::Not => !any_true(v),
    }
}

/// Combines a list of results with one operator applied uniformly.
pub fn apply_match_operator(op: &MatchOperator, results: &Vec<bool>) -> (r: bool)
    ensures
        r == apply_operator_spec(*op, results@),
{
    let mut all = true;
    let mut any = false;
    let mut i: usize = 0;
    while i < results.len()
        invariant
            i <= results.len(),
            all == (forall|j: int| 0 <= j < i ==> results@[j]),
            any == (exists|j: int| 0 <= j < i && results@[j]),
        decreases results.len() - i,
    {
        let b = results[i];
        proof {
            if !b {
                assert(!results@[i as int]);
            } else {
                assert(results@[i as int]);
            }
        }
        all = all && b;
        any = any || b;
        i = i + 1;
    }
    match op {
        MatchOperator::And => all,
        MatchOperator::Or => any,
        MatchOperator::AndNot => !any,
        MatchOperator::OrNot => !all,
        MatchOperator::Not => !any,
    }
}

/// An empty chain holds.
pub proof fn lemma_empty_chain_true(items: Seq<(MatchOperator, bool)>)
    requires
        items.len() == 0,
    ensures
        chain_value(items),
{
}

} // verus!
