//! What holds of every execution order that the scheduler resolves.

use crate::order::{
    by_dependencies, by_order, falls_back, first_ready, precedes, ready, resolved, runs_before,
    selection, Entry,
};
use vstd::prelude::*;

verus! {

/// Whether each element of `s` was, at its turn, the first ready system after
/// the elements before it.
pub open spec fn chosen_in_turn(plan: Seq<Entry>, deps: bool, s: Seq<usize>) -> bool {
    forall|k: int| 0 <= k < s.len() ==> first_ready(plan, deps, s.take(k), #[trigger] s[k])
}

/// A sequence without repetition whose elements all occur in another one is
/// not longer than that one.
pub proof fn lemma_distinct_within<A>(t: Seq<A>, s: Seq<A>)
    requires
        t.no_duplicates(),
        forall|i: int| 0 <= i < t.len() ==> s.contains(#[trigger] t[i]),
    ensures
        t.len() <= s.len(),
    decreases t.len(),
{
    if t.len() > 0 {
        let x = t.last();
        let k = choose|k: int| 0 <= k < s.len() && s[k] == x;
        let s2 = s.remove(k);
        let t2 = t.drop_last();
        s.remove_ensures(k);
        assert forall|i: int| 0 <= i < t2.len() implies s2.contains(#[trigger] t2[i]) by {
            let p = choose|p: int| 0 <= p < s.len() && s[p] == t[i];
            if p < k {
                assert(s2[p] == s[p]);
            } else {
                assert(s2[p - 1] == s[p]);
            }
        }
        lemma_distinct_within(t2, s2);
    }
}

/// The positions `0..n` in rising order.
pub open spec fn positions(n: nat) -> Seq<usize> {
    Seq::new(n, |i: int| i as usize)
}

/// Selected systems are positions of the plan, and none is selected twice.
pub proof fn lemma_chosen_distinct(plan: Seq<Entry>, deps: bool, s: Seq<usize>)
    requires
        chosen_in_turn(plan, deps, s),
        plan.len() <= usize::MAX,
    ensures
        s.no_duplicates(),
        forall|k: int| 0 <= k < s.len() ==> (#[trigger] s[k]) < plan.len(),
        s.len() <= plan.len(),
{
    assert forall|a: int, b: int| 0 <= a < s.len() && 0 <= b < s.len() && a != b implies s[a]
        != s[b] by {
        if a < b {
            assert(s.take(b)[a] == s[a]);
        } else {
            assert(s.take(a)[b] == s[b]);
        }
    }
    let all = positions(plan.len());
    assert forall|i: int| 0 <= i < s.len() implies all.contains(#[trigger] s[i]) by {
        assert(all[s[i] as int] == s[i]);
    }
    lemma_distinct_within(s, all);
}

/// A selection that covers the whole plan contains every position.
pub proof fn lemma_full_selection_covers(plan: Seq<Entry>, deps: bool, s: Seq<usize>, i: usize)
    requires
        chosen_in_turn(plan, deps, s),
        plan.len() <= usize::MAX,
        s.len() == plan.len(),
        i < plan.len(),
    ensures
        s.contains(i),
{
    lemma_chosen_distinct(plan, deps, s);
    if !s.contains(i) {
        let longer = s.push(i);
        let all = positions(plan.len());
        assert forall|k: int| 0 <= k < longer.len() implies all.contains(#[trigger] longer[k]) by {
            assert(all[longer[k] as int] == longer[k]);
        }
        lemma_distinct_within(longer, all);
    }
}

/// Selection extends what was picked, keeps choosing in turn, and stops only
/// when the plan is covered or no system is ready.
pub proof fn lemma_selection_in_turn(plan: Seq<Entry>, deps: bool, picked: Seq<usize>)
    requires
        chosen_in_turn(plan, deps, picked),
    ensures
        chosen_in_turn(plan, deps, selection(plan, deps, picked)),
        picked.len() <= selection(plan, deps, picked).len(),
        selection(plan, deps, picked).take(picked.len() as int) == picked,
        selection(plan, deps, picked).len() >= plan.len() || forall|i: usize|
            !ready(plan, deps, selection(plan, deps, picked), i),
    decreases plan.len() - picked.len(),
{
    if picked.len() < plan.len() && exists|i: usize| ready(plan, deps, picked, i) {
        lemma_first_ready_exists(plan, deps, picked);
        let u = choose|i: usize| first_ready(plan, deps, picked, i);
        let next = picked.push(u);
        assert forall|k: int| 0 <= k < next.len() implies first_ready(
            plan,
            deps,
            next.take(k),
            #[trigger] next[k],
        ) by {
            if k < picked.len() {
                assert(next.take(k) =~= picked.take(k));
            } else {
                assert(next.take(k) =~= picked);
            }
        }
        lemma_selection_in_turn(plan, deps, next);
    }
}

/// Whether `i` is ready and comes first among the ready systems at positions
/// up to `top`.
pub open spec fn first_ready_upto(
    plan: Seq<Entry>,
    deps: bool,
    picked: Seq<usize>,
    i: usize,
    top: usize,
) -> bool {
    &&& ready(plan, deps, picked, i)
    &&& i <= top
    &&& forall|j: usize|
        ready(plan, deps, picked, j) && j <= top && j != i ==> runs_before(plan, i, j)
}

/// Where a system is ready, one of the ready systems is the first.
pub proof fn lemma_first_ready_exists(plan: Seq<Entry>, deps: bool, picked: Seq<usize>)
    requires
        exists|i: usize| ready(plan, deps, picked, i),
    ensures
        exists|i: usize| first_ready(plan, deps, picked, i),
{
    let w = choose|i: usize| ready(plan, deps, picked, i);
    lemma_least_ready(plan, deps, picked, w, usize::MAX);
    let i = choose|i: usize| first_ready_upto(plan, deps, picked, i, usize::MAX);
    assert(first_ready(plan, deps, picked, i));
}

/// If `w` is a ready system at a position up to `top`, one system is first
/// among the ready ones up to `top`.
proof fn lemma_least_ready(plan: Seq<Entry>, deps: bool, picked: Seq<usize>, w: usize, top: usize)
    requires
        ready(plan, deps, picked, w),
        w <= top,
    ensures
        exists|i: usize| first_ready_upto(plan, deps, picked, i, top),
    decreases top,
{
    if top == 0 {
        assert(first_ready_upto(plan, deps, picked, w, top));
    } else {
        let prev = (top - 1) as usize;
        if w == top {
            if exists|x: usize| ready(plan, deps, picked, x) && x <= prev {
                let x = choose|x: usize| ready(plan, deps, picked, x) && x <= prev;
                lemma_least_ready(plan, deps, picked, x, prev);
                let i = choose|i: usize| first_ready_upto(plan, deps, picked, i, prev);
                lemma_pick_between(plan, deps, picked, i, top);
            } else {
                assert(first_ready_upto(plan, deps, picked, w, top));
            }
        } else {
            lemma_least_ready(plan, deps, picked, w, prev);
            let i = choose|i: usize| first_ready_upto(plan, deps, picked, i, prev);
            if ready(plan, deps, picked, top) {
                lemma_pick_between(plan, deps, picked, i, top);
            } else {
                assert(first_ready_upto(plan, deps, picked, i, top));
            }
        }
    }
}

/// If `i` is first among the ready systems below `top` and `top` is ready
/// too, one of the two is first among the ready systems up to `top`.
proof fn lemma_pick_between(plan: Seq<Entry>, deps: bool, picked: Seq<usize>, i: usize, top: usize)
    requires
        top > 0,
        ready(plan, deps, picked, top),
        first_ready_upto(plan, deps, picked, i, (top - 1) as usize),
    ensures
        exists|b: usize| first_ready_upto(plan, deps, picked, b, top),
{
    if runs_before(plan, i, top) {
        assert(first_ready_upto(plan, deps, picked, i, top));
    } else {
        assert forall|j: usize|
            ready(plan, deps, picked, j) && j <= top && j != top implies runs_before(
            plan,
            top,
            j,
        ) by {
            if j != i {
                assert(runs_before(plan, i, j));
            }
        }
        assert(first_ready_upto(plan, deps, picked, top, top));
    }
}

/// Both ways of ordering choose each system in its turn.
pub proof fn lemma_orders_in_turn(plan: Seq<Entry>)
    ensures
        chosen_in_turn(plan, false, by_order(plan)),
        chosen_in_turn(plan, true, by_dependencies(plan)),
        chosen_in_turn(plan, !falls_back(plan), resolved(plan)),
{
    let none = Seq::<usize>::empty();
    lemma_selection_in_turn(plan, false, none);
    lemma_selection_in_turn(plan, true, none);
}

/// The plain numeric order leaves no system out.
pub proof fn lemma_by_order_complete(plan: Seq<Entry>)
    requires
        plan.len() <= usize::MAX,
    ensures
        by_order(plan).len() == plan.len(),
{
    let s = by_order(plan);
    lemma_selection_in_turn(plan, false, Seq::<usize>::empty());
    lemma_chosen_distinct(plan, false, s);
    if s.len() < plan.len() {
        let all = positions(plan.len());
        if forall|i: int| 0 <= i < all.len() ==> s.contains(#[trigger] all[i]) {
            lemma_distinct_within(all, s);
        }
        let i = choose|i: int| 0 <= i < all.len() && !s.contains(#[trigger] all[i]);
        assert(ready(plan, false, s, all[i]));
    }
}

/// Every stage gets an execution order that is a rearrangement of its
/// systems: each system occurs in it, and none occurs twice.
pub proof fn law_order_is_rearrangement(plan: Seq<Entry>)
    requires
        plan.len() <= usize::MAX,
    ensures
        resolved(plan).len() == plan.len(),
        resolved(plan).no_duplicates(),
        forall|i: usize| i < plan.len() <==> resolved(plan).contains(i),
{
    let r = resolved(plan);
    let deps = !falls_back(plan);
    lemma_orders_in_turn(plan);
    lemma_by_order_complete(plan);
    lemma_chosen_distinct(plan, deps, r);
    assert forall|i: usize| i < plan.len() implies r.contains(i) by {
        lemma_full_selection_covers(plan, deps, r, i);
    }
}

/// The plain numeric order is sorted: of two systems in it, the earlier one
/// has the smaller order, or the same order and the earlier registration.
pub proof fn law_plain_order_is_sorted(plan: Seq<Entry>, a: int, b: int)
    requires
        plan.len() <= usize::MAX,
        0 <= a < b < by_order(plan).len(),
    ensures
        runs_before(plan, by_order(plan)[a], by_order(plan)[b]),
{
    let s = by_order(plan);
    lemma_orders_in_turn(plan);
    lemma_chosen_distinct(plan, false, s);
}

/// Dependencies override numeric order: unless the stage falls back, a system
/// that is constrained to run before another one stands earlier in the
/// execution order.
pub proof fn law_dependencies_hold(plan: Seq<Entry>, a: usize, b: usize)
    requires
        plan.len() <= usize::MAX,
        !falls_back(plan),
        precedes(plan, a, b),
    ensures
        exists|ka: int, kb: int|
            0 <= ka < kb < resolved(plan).len() && resolved(plan)[ka] == a && resolved(plan)[kb]
                == b,
{
    let r = resolved(plan);
    lemma_orders_in_turn(plan);
    lemma_full_selection_covers(plan, true, r, b);
    let kb = choose|kb: int| 0 <= kb < r.len() && r[kb] == b;
    assert(r.take(kb).contains(a));
}

/// Tie-break: a system on which no constraint bears runs before every system
/// that follows it in numeric order; in particular, of two such systems with
/// equal order the one registered first runs first.
pub proof fn law_tie_break(plan: Seq<Entry>, i: usize, j: usize)
    requires
        plan.len() <= usize::MAX,
        i < plan.len(),
        j < plan.len(),
        forall|k: usize| !precedes(plan, k, i),
        runs_before(plan, i, j),
    ensures
        exists|ki: int, kj: int|
            0 <= ki < kj < resolved(plan).len() && resolved(plan)[ki] == i && resolved(plan)[kj]
                == j,
{
    let r = resolved(plan);
    law_order_is_rearrangement(plan);
    lemma_orders_in_turn(plan);
    assert(r.contains(j));
    let kj = choose|kj: int| 0 <= kj < r.len() && r[kj] == j;
    if !r.take(kj).contains(i) {
        assert(runs_before(plan, j, i));
    }
}

/// Cycle fallback: where two systems block each other, or one blocks itself,
/// the stage falls back, and its systems run in plain numeric order.
pub proof fn law_cycle_falls_back(plan: Seq<Entry>, a: usize, b: usize)
    requires
        plan.len() <= usize::MAX,
        precedes(plan, a, b),
        precedes(plan, b, a),
    ensures
        falls_back(plan),
        resolved(plan) == by_order(plan),
{
    if !falls_back(plan) {
        law_order_is_rearrangement(plan);
        law_dependencies_hold(plan, a, b);
        law_dependencies_hold(plan, b, a);
    }
}

/// Without constraints the execution order is the plain numeric order.
pub proof fn law_unconstrained_is_plain(plan: Seq<Entry>)
    requires
        forall|a: usize, b: usize| !precedes(plan, a, b),
    ensures
        resolved(plan) == by_order(plan),
{
    lemma_same_without_constraints(plan, Seq::<usize>::empty());
}

/// Without constraints, selection with and without dependencies agree.
proof fn lemma_same_without_constraints(plan: Seq<Entry>, picked: Seq<usize>)
    requires
        forall|a: usize, b: usize| !precedes(plan, a, b),
    ensures
        selection(plan, true, picked) == selection(plan, false, picked),
    decreases plan.len() - picked.len(),
{
    assert forall|i: usize| ready(plan, true, picked, i) == ready(plan, false, picked, i) by {}
    if picked.len() < plan.len() && exists|i: usize| ready(plan, false, picked, i) {
        let i = choose|i: usize| ready(plan, false, picked, i);
        let u = choose|i: usize| first_ready(plan, false, picked, i);
        let v = choose|i: usize| first_ready(plan, true, picked, i);
        lemma_first_ready_exists(plan, false, picked);
        lemma_first_ready_exists(plan, true, picked);
        if u != v {
            assert(runs_before(plan, u, v));
            assert(runs_before(plan, v, u));
        }
        lemma_same_without_constraints(plan, picked.push(u));
    }
}

} // verus!
