//! The order in which the systems of one stage run: by numeric order, with
//! named before/after constraints on top.

use crate::system::System;
use crate::text::{names_contain, names_of};
use vstd::prelude::*;

verus! {

/// What the scheduler knows of one registered system, apart from the system
/// itself.
pub ghost struct Entry {
    /// The numeric priority; smaller runs earlier.
    pub order: int,
    /// The name under which other systems can refer to this one.
    pub label: Option<Seq<char>>,
    /// Labels of systems that must run after this one.
    pub before: Seq<Seq<char>>,
    /// Labels of systems that must run before this one.
    pub after: Seq<Seq<char>>,
}

/// Something that is scheduled, with its constraints.
pub struct Scheduled<S> {
    pub order: i32,
    pub label: Option<String>,
    pub before: Vec<String>,
    pub after: Vec<String>,
    pub sys: S,
}

/// One registered system with its constraints.
pub type ScheduledSystem<V> = Scheduled<Box<dyn System<V>>>;

impl<S> Scheduled<S> {
    /// The constraints of this system.
    pub open spec fn entry(self) -> Entry {
        Entry {
            order: self.order as int,
            label: match self.label {
                Some(l) => Some(l@),
                None => None,
            },
            before: names_of(self.before@),
            after: names_of(self.after@),
        }
    }
}

/// The constraints of the systems of one stage, in registration order.
pub open spec fn plan_of<V>(list: Seq<ScheduledSystem<V>>) -> Seq<Entry> {
    list.map_values(|s: ScheduledSystem<V>| s.entry())
}

/// Whether system `a` is constrained to run before system `b`: `a` names the
/// label of `b` in its before-list, or `b` names the label of `a` in its
/// after-list.
pub open spec fn precedes(plan: Seq<Entry>, a: usize, b: usize) -> bool {
    &&& a < plan.len()
    &&& b < plan.len()
    &&& {
        ||| (plan[b as int].label matches Some(l) && plan[a as int].before.contains(l))
        ||| (plan[a as int].label matches Some(l) && plan[b as int].after.contains(l))
    }
}

/// Whether system `a` comes before system `b` when only numeric order counts:
/// smaller order first, and among equal orders the one registered first.
pub open spec fn runs_before(plan: Seq<Entry>, a: usize, b: usize) -> bool {
    plan[a as int].order < plan[b as int].order || (plan[a as int].order == plan[b as int].order
        && a < b)
}

/// Whether system `i` can be selected next after `picked`: it was not selected
/// yet and, where dependencies count, everything that must precede it was.
pub open spec fn ready(plan: Seq<Entry>, deps: bool, picked: Seq<usize>, i: usize) -> bool {
    &&& i < plan.len()
    &&& !picked.contains(i)
    &&& deps ==> forall|j: usize| precedes(plan, j, i) ==> picked.contains(j)
}

/// Whether system `i` is the one to select next after `picked`: it is ready,
/// and it comes before every other ready system by numeric order.
pub open spec fn first_ready(plan: Seq<Entry>, deps: bool, picked: Seq<usize>, i: usize) -> bool {
    &&& ready(plan, deps, picked, i)
    &&& forall|j: usize| ready(plan, deps, picked, j) && j != i ==> runs_before(plan, i, j)
}

/// The sequence that repeated selection builds from `picked`: as long as a
/// system is ready, the first ready one is appended.
pub open spec fn selection(plan: Seq<Entry>, deps: bool, picked: Seq<usize>) -> Seq<usize>
    decreases plan.len() - picked.len(),
{
    if picked.len() < plan.len() && exists|i: usize| ready(plan, deps, picked, i) {
        selection(
            plan,
            deps,
            picked.push(choose|i: usize| first_ready(plan, deps, picked, i)),
        )
    } else {
        picked
    }
}

/// The systems in plain numeric order, ties in registration order.
pub open spec fn by_order(plan: Seq<Entry>) -> Seq<usize> {
    selection(plan, false, Seq::empty())
}

/// The systems in dependency order, as far as selection gets: a cycle among
/// the constraints leaves its systems out.
pub open spec fn by_dependencies(plan: Seq<Entry>) -> Seq<usize> {
    selection(plan, true, Seq::empty())
}

/// The execution order of a stage: the dependency order if it covers every
/// system, otherwise the plain numeric order.
pub open spec fn resolved(plan: Seq<Entry>) -> Seq<usize> {
    if by_dependencies(plan).len() == plan.len() {
        by_dependencies(plan)
    } else {
        by_order(plan)
    }
}

/// Whether the constraints of a stage cannot all be met, so that its systems
/// run in plain numeric order.
pub open spec fn falls_back(plan: Seq<Entry>) -> bool {
    by_dependencies(plan).len() != plan.len()
}

/// Among the first `upto` edges, the number of those that end in `t` and
/// start at a system that was not selected yet.
pub open spec fn blockers(edges: Seq<(usize, usize)>, picked: Seq<usize>, t: usize, upto: int) -> int
    decreases upto,
{
    if upto <= 0 {
        0
    } else {
        blockers(edges, picked, t, upto - 1) + if edges[upto - 1].1 == t && !picked.contains(
            edges[upto - 1].0,
        ) {
            1int
        } else {
            0int
        }
    }
}

/// Whether `edges` lists exactly the constraints of `plan` that count.
pub open spec fn edges_match(plan: Seq<Entry>, deps: bool, edges: Seq<(usize, usize)>) -> bool {
    &&& forall|k: int|
        0 <= k < edges.len() ==> deps && precedes(plan, (#[trigger] edges[k]).0, edges[k].1)
    &&& forall|a: usize, b: usize|
        deps && #[trigger] precedes(plan, a, b) ==> exists|k: int|
            0 <= k < edges.len() && edges[k] == (a, b)
}

/// The count of blockers is between zero and the number of edges looked at.
pub proof fn lemma_blockers_bounds(
    edges: Seq<(usize, usize)>,
    picked: Seq<usize>,
    t: usize,
    upto: int,
)
    requires
        0 <= upto <= edges.len(),
    ensures
        0 <= blockers(edges, picked, t, upto) <= upto,
    decreases upto,
{
    if upto > 0 {
        lemma_blockers_bounds(edges, picked, t, upto - 1);
    }
}

/// No blocker is left exactly if every edge into `t` starts at a selected
/// system.
pub proof fn lemma_blockers_zero(
    edges: Seq<(usize, usize)>,
    picked: Seq<usize>,
    t: usize,
    upto: int,
)
    requires
        0 <= upto <= edges.len(),
    ensures
        blockers(edges, picked, t, upto) == 0 <==> forall|k: int|
            0 <= k < upto && (#[trigger] edges[k]).1 == t ==> picked.contains(edges[k].0),
    decreases upto,
{
    if upto > 0 {
        lemma_blockers_zero(edges, picked, t, upto - 1);
        lemma_blockers_bounds(edges, picked, t, upto - 1);
    }
}

/// Whether system `a` is constrained to run before system `b`.
pub fn must_precede<V>(list: &Vec<ScheduledSystem<V>>, a: usize, b: usize) -> (r: bool)
    requires
        a < list@.len(),
        b < list@.len(),
    ensures
        r == precedes(plan_of(list@), a, b),
{
    let by_before = match &list[b].label {
        Some(l) => names_contain(&list[a].before, l),
        None => false,
    };
    let by_after = match &list[a].label {
        Some(l) => names_contain(&list[b].after, l),
        None => false,
    };
    by_before || by_after
}

/// The constraints among the systems as a list of edges, each edge leading
/// from the system that runs first to the one that runs second. Without
/// `deps` there are none.
pub fn dependency_edges<V>(list: &Vec<ScheduledSystem<V>>, deps: bool) -> (edges: Vec<
    (usize, usize),
>)
    ensures
        edges_match(plan_of(list@), deps, edges@),
{
    let mut edges: Vec<(usize, usize)> = Vec::new();
    if !deps {
        return edges;
    }
    let n = list.len();
    let ghost plan = plan_of(list@);
    let mut a: usize = 0;
    while a < n
        invariant
            a <= n,
            n == list@.len(),
            plan == plan_of(list@),
            deps,
            forall|k: int|
                0 <= k < edges@.len() ==> precedes(plan, (#[trigger] edges@[k]).0, edges@[k].1),
            forall|x: usize, y: usize|
                x < a && #[trigger] precedes(plan, x, y) ==> exists|k: int|
                    0 <= k < edges@.len() && edges@[k] == (x, y),
        decreases n - a,
    {
        let mut b: usize = 0;
        while b < n
            invariant
                a < n,
                b <= n,
                n == list@.len(),
                plan == plan_of(list@),
                forall|k: int|
                    0 <= k < edges@.len() ==> precedes(plan, (#[trigger] edges@[k]).0, edges@[k].1),
                forall|x: usize, y: usize|
                    (x < a || (x == a && y < b)) && #[trigger] precedes(plan, x, y) ==> exists|
                        k: int,
                    |
                        0 <= k < edges@.len() && edges@[k] == (x, y),
            decreases n - b,
        {
            let ghost before = edges@;
            if must_precede(list, a, b) {
                edges.push((a, b));
            }
            proof {
                assert forall|x: usize, y: usize|
                    (x < a || (x == a && y < b + 1)) && #[trigger] precedes(
                        plan,
                        x,
                        y,
                    ) implies exists|k: int| 0 <= k < edges@.len() && edges@[k] == (x, y) by {
                    if x == a && y == b {
                        assert(edges@[edges@.len() - 1] == (x, y));
                    } else {
                        let k = choose|k: int| 0 <= k < before.len() && before[k] == (x, y);
                        assert(edges@[k] == (x, y));
                    }
                }
            }
            b += 1;
        }
        a += 1;
    }
    edges
}

/// For each system, the number of edges that end in it.
pub fn in_degrees(n: usize, edges: &Vec<(usize, usize)>) -> (indeg: Vec<usize>)
    requires
        forall|k: int|
            0 <= k < edges@.len() ==> (#[trigger] edges@[k]).0 < n && edges@[k].1 < n,
    ensures
        indeg@.len() == n,
        forall|t: usize|
            t < n ==> (#[trigger] indeg@[t as int]) == blockers(
                edges@,
                Seq::empty(),
                t,
                edges@.len() as int,
            ),
{
    let mut indeg: Vec<usize> = Vec::new();
    let mut i: usize = 0;
    while i < n
        invariant
            i <= n,
            indeg@.len() == i,
            forall|t: int| 0 <= t < i ==> indeg@[t] == 0,
        decreases n - i,
    {
        indeg.push(0);
        i += 1;
    }
    let mut k: usize = 0;
    while k < edges.len()
        invariant
            k <= edges@.len(),
            indeg@.len() == n,
            forall|j: int|
                0 <= j < edges@.len() ==> (#[trigger] edges@[j]).0 < n && edges@[j].1 < n,
            forall|t: usize|
                t < n ==> (#[trigger] indeg@[t as int]) == blockers(
                    edges@,
                    Seq::empty(),
                    t,
                    k as int,
                ),
        decreases edges@.len() - k,
    {
        let t = edges[k].1;
        proof {
            lemma_blockers_bounds(edges@, Seq::empty(), t, k as int);
        }
        let bumped = indeg[t] + 1;
        indeg.set(t, bumped);
        k += 1;
    }
    indeg
}

/// Among the systems that were not selected yet and have no blocker left,
/// the one that comes first by numeric order; `None` if there is none.
pub fn pick_next<V>(list: &Vec<ScheduledSystem<V>>, done: &Vec<bool>, indeg: &Vec<usize>) -> (r:
    Option<usize>)
    requires
        done@.len() == list@.len(),
        indeg@.len() == list@.len(),
    ensures
        match r {
            Some(u) => {
                &&& u < list@.len()
                &&& !done@[u as int]
                &&& indeg@[u as int] == 0
                &&& forall|j: usize|
                    j < list@.len() && !done@[j as int] && indeg@[j as int] == 0 && j != u
                        ==> runs_before(plan_of(list@), u, j)
            },
            None => forall|j: usize|
                j < list@.len() ==> done@[j as int] || indeg@[j as int] != 0,
        },
{
    let n = list.len();
    let ghost plan = plan_of(list@);
    let mut best: Option<usize> = None;
    let mut j: usize = 0;
    while j < n
        invariant
            j <= n,
            n == list@.len(),
            done@.len() == n,
            indeg@.len() == n,
            plan == plan_of(list@),
            match best {
                Some(u) => {
                    &&& u < j
                    &&& !done@[u as int]
                    &&& indeg@[u as int] == 0
                    &&& forall|x: usize|
                        x < j && !done@[x as int] && indeg@[x as int] == 0 && x != u
                            ==> runs_before(plan, u, x)
                },
                None => forall|x: usize| x < j ==> done@[x as int] || indeg@[x as int] != 0,
            },
        decreases n - j,
    {
        if !done[j] && indeg[j] == 0 {
            match best {
                Some(u) => {
                    if list[j].order < list[u].order {
                        best = Some(j);
                    }
                },
                None => {
                    best = Some(j);
                },
            }
        }
        j += 1;
    }
    best
}

/// A system is ready exactly if it was not selected and no blocker is left.
pub proof fn lemma_ready_iff_unblocked(
    plan: Seq<Entry>,
    deps: bool,
    edges: Seq<(usize, usize)>,
    picked: Seq<usize>,
    i: usize,
)
    requires
        edges_match(plan, deps, edges),
        i < plan.len(),
    ensures
        ready(plan, deps, picked, i) <==> !picked.contains(i) && blockers(
            edges,
            picked,
            i,
            edges.len() as int,
        ) == 0,
{
    lemma_blockers_zero(edges, picked, i, edges.len() as int);
}

/// The first ready system is unique.
pub proof fn lemma_first_ready_unique(
    plan: Seq<Entry>,
    deps: bool,
    picked: Seq<usize>,
    u: usize,
)
    requires
        first_ready(plan, deps, picked, u),
        picked.len() < plan.len(),
    ensures
        selection(plan, deps, picked) == selection(plan, deps, picked.push(u)),
{
    let v = choose|i: usize| first_ready(plan, deps, picked, i);
    if v != u {
        assert(runs_before(plan, u, v));
        assert(runs_before(plan, v, u));
    }
}

/// The selection order of the systems of a stage: repeatedly, among the
/// systems that have no unselected predecessor, the one with the smallest
/// numeric order is taken, the earlier registered one among equals. With
/// `deps` off no system has a predecessor, and the result is the plain
/// numeric order.
pub fn linearize<V>(list: &Vec<ScheduledSystem<V>>, deps: bool) -> (out: Vec<usize>)
    ensures
        out@ == selection(plan_of(list@), deps, Seq::empty()),
{
    let n = list.len();
    let ghost plan = plan_of(list@);
    let edges = dependency_edges(list, deps);
    let m = edges.len();
    let mut indeg = in_degrees(n, &edges);
    let mut done: Vec<bool> = Vec::new();
    let mut i: usize = 0;
    while i < n
        invariant
            i <= n,
            done@.len() == i,
            forall|t: int| 0 <= t < i ==> !done@[t],
        decreases n - i,
    {
        done.push(false);
        i += 1;
    }
    let mut out: Vec<usize> = Vec::new();
    while out.len() < n
        invariant
            n == list@.len(),
            m == edges@.len(),
            plan == plan_of(list@),
            edges_match(plan, deps, edges@),
            done@.len() == n,
            indeg@.len() == n,
            forall|t: usize| t < n ==> (#[trigger] done@[t as int] <==> out@.contains(t)),
            forall|t: usize|
                t < n ==> (#[trigger] indeg@[t as int]) == blockers(edges@, out@, t, m as int),
            selection(plan, deps, out@) == selection(plan, deps, Seq::empty()),
        ensures
            out@ == selection(plan, deps, Seq::empty()),
        decreases n - out@.len(),
    {
        let picked = pick_next(list, &done, &indeg);
        let u = match picked {
            Some(u) => u,
            None => {
                proof {
                    assert forall|j: usize| !ready(plan, deps, out@, j) by {
                        if j < n {
                            lemma_ready_iff_unblocked(plan, deps, edges@, out@, j);
                            assert(done@[j as int] || indeg@[j as int] != 0);
                        }
                    }
                }
                break ;
            },
        };
        let ghost before = out@;
        proof {
            assert forall|j: usize| ready(plan, deps, before, j) && j != u implies runs_before(
                plan,
                u,
                j,
            ) by {
                lemma_ready_iff_unblocked(plan, deps, edges@, before, j);
                assert(done@[j as int] <==> before.contains(j));
            }
            lemma_ready_iff_unblocked(plan, deps, edges@, before, u);
            lemma_first_ready_unique(plan, deps, before, u);
        }
        out.push(u);
        done.set(u, true);
        proof {
            assert forall|t: usize| t < n implies (#[trigger] done@[t as int] <==> out@.contains(
                t,
            )) by {
                if t == u {
                    assert(out@[out@.len() - 1] == u);
                } else if before.contains(t) {
                    let k = choose|k: int| 0 <= k < before.len() && before[k] == t;
                    assert(out@[k] == t);
                }
            }
        }
        let mut k: usize = 0;
        while k < m
            invariant
                k <= m,
                m == edges@.len(),
                n == list@.len(),
                indeg@.len() == n,
                plan == plan_of(list@),
                edges_match(plan, deps, edges@),
                u < n,
                !before.contains(u),
                out@ == before.push(u),
                forall|t: usize|
                    t < n ==> (#[trigger] indeg@[t as int]) == blockers(edges@, out@, t, k as int)
                        + blockers(edges@, before, t, m as int) - blockers(
                        edges@,
                        before,
                        t,
                        k as int,
                    ),
            decreases m - k,
        {
            let (from, to) = edges[k];
            proof {
                assert forall|x: usize| out@.contains(x) <==> before.contains(x) || x == u by {
                    if before.contains(x) {
                        let p = choose|p: int| 0 <= p < before.len() && before[p] == x;
                        assert(out@[p] == x);
                    }
                    if x == u {
                        assert(out@[out@.len() - 1] == u);
                    }
                }
                lemma_blockers_bounds(edges@, out@, to, k as int);
                lemma_blockers_tail(edges@, before, to, k as int + 1, m as int);
            }
            if from == u {
                let lowered = indeg[to] - 1;
                indeg.set(to, lowered);
            }
            k += 1;
        }
    }
    out
}

/// Counting blockers further along the list of edges never lowers the count.
pub proof fn lemma_blockers_tail(
    edges: Seq<(usize, usize)>,
    picked: Seq<usize>,
    t: usize,
    from: int,
    upto: int,
)
    requires
        0 <= from <= upto <= edges.len(),
    ensures
        blockers(edges, picked, t, from) <= blockers(edges, picked, t, upto),
    decreases upto - from,
{
    if from < upto {
        lemma_blockers_tail(edges, picked, t, from, upto - 1);
    }
}

/// The execution order of the systems of one stage, as positions in
/// registration order: the dependency order if the constraints allow one,
/// otherwise the plain numeric order.
pub fn resolve_order<V>(list: &Vec<ScheduledSystem<V>>) -> (out: Vec<usize>)
    ensures
        out@ == resolved(plan_of(list@)),
{
    let topo = linearize(list, true);
    if topo.len() == list.len() {
        topo
    } else {
        linearize(list, false)
    }
}

} // verus!
