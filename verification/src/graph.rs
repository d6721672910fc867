//! The dependency graph of a step set: validation and topological order.
//!
//! A step depends on another step by naming its id. Dependency ids are
//! resolved to step positions, a dependency id always naming the first
//! step that carries it. Validation rejects an empty set, a dependency id
//! that names no step, and a cyclic dependency relation; the scheduler
//! orders an acyclic set so that every step comes after all of its
//! dependencies.

use vstd::prelude::*;
use vstd::set_lib::lemma_int_range;
use vstd::set_lib::lemma_len_subset;
use vstd::set_lib::set_int_range;

use crate::step::steps_view;
use crate::step::GraphError;
use crate::step::StepView;
use crate::step::WorkflowStep;
use crate::value::str_eq;

verus! {

/// The position of the first step carrying the given id, or -1 when no
/// step does.
pub open spec fn first_idx(steps: Seq<StepView>, id: Seq<char>) -> int
    decreases steps.len(),
{
    if steps.len() == 0 {
        -1
    } else if steps[0].id == id {
        0
    } else {
        let r = first_idx(steps.drop_first(), id);
        if r < 0 {
            -1
        } else {
            r + 1
        }
    }
}

/// A match at the first position carrying the id settles the resolution.
pub proof fn lemma_first_idx_found(steps: Seq<StepView>, id: Seq<char>, i: int)
    requires
        0 <= i < steps.len(),
        steps[i].id == id,
        forall|j: int| 0 <= j < i ==> steps[j].id != id,
    ensures
        first_idx(steps, id) == i,
    decreases i,
{
    if i > 0 {
        lemma_first_idx_found(steps.drop_first(), id, i - 1);
    }
}

/// With no step carrying the id, resolution fails.
pub proof fn lemma_first_idx_missing(steps: Seq<StepView>, id: Seq<char>)
    requires
        forall|j: int| 0 <= j < steps.len() ==> steps[j].id != id,
    ensures
        first_idx(steps, id) == -1,
    decreases steps.len(),
{
    if steps.len() > 0 {
        lemma_first_idx_missing(steps.drop_first(), id);
    }
}

/// Every dependency id of every step names some step of the set.
pub open spec fn resolvable(steps: Seq<StepView>) -> bool {
    forall|j: int, d: int|
        0 <= j < steps.len() && 0 <= d < steps[j].dependencies.len() ==> first_idx(
            steps,
            #[trigger] steps[j].dependencies[d],
        ) >= 0
}

/// Step `u` depends on step `v`: one of `u`'s dependency ids resolves to
/// position `v`.
pub open spec fn dep_edge(steps: Seq<StepView>, u: int, v: int) -> bool {
    &&& 0 <= u < steps.len()
    &&& 0 <= v < steps.len()
    &&& exists|d: int|
        0 <= d < steps[u].dependencies.len() && first_idx(
            steps,
            #[trigger] steps[u].dependencies[d],
        ) == v
}

/// A closed walk along dependency edges.
pub open spec fn is_cycle(steps: Seq<StepView>, path: Seq<int>) -> bool {
    &&& path.len() >= 2
    &&& path[0] == path[path.len() - 1]
    &&& forall|k: int| #![trigger path[k]] 0 <= k < path.len() - 1 ==> dep_edge(steps, path[k], path[k + 1])
}

/// The dependency relation contains a cycle.
pub open spec fn has_cycle(steps: Seq<StepView>) -> bool {
    exists|path: Seq<int>| is_cycle(steps, path)
}

/// `order` lists every step position exactly once, and every step comes
/// after all of its dependencies.
pub open spec fn is_topo_order(steps: Seq<StepView>, order: Seq<int>) -> bool {
    &&& order.len() == steps.len()
    &&& forall|k: int| 0 <= k < order.len() ==> 0 <= #[trigger] order[k] < steps.len()
    &&& forall|k1: int, k2: int|
        0 <= k1 < k2 < order.len() ==> order[k1] != order[k2]
    &&& forall|i: int| 0 <= i < steps.len() ==> #[trigger] order.contains(i)
    &&& forall|k: int, u: int|
        0 <= k < order.len() && #[trigger] dep_edge(steps, order[k], u) ==> exists|k2: int|
            0 <= k2 < k && order[k2] == u
}

/// The positions as mathematical integers.
pub open spec fn order_ints(q: Seq<usize>) -> Seq<int> {
    Seq::new(q.len(), |i: int| q[i] as int)
}

/// Every dependency position in `deps` occurs in `em`.
pub open spec fn all_in(deps: Seq<usize>, em: Seq<usize>) -> bool {
    forall|t: int| 0 <= t < deps.len() ==> em.contains(#[trigger] deps[t])
}

/// Resolved dependency positions, one row per step: row `j` holds the
/// distinct positions that step `j`'s dependency ids resolve to.
pub open spec fn edges_match(sv: Seq<StepView>, dx: Seq<Seq<usize>>) -> bool {
    &&& dx.len() == sv.len()
    &&& forall|j: int, t: int|
        0 <= j < dx.len() && 0 <= t < dx[j].len() ==> (#[trigger] dx[j][t]) < sv.len()
    &&& forall|j: int, u: int|
        0 <= j < sv.len() && 0 <= u < sv.len() ==> (#[trigger] dx[j].contains(u as usize)
            <==> dep_edge(sv, j, u))
}

/// An element is in a pushed sequence exactly when it is the new element
/// or was there before.
pub(crate) proof fn lemma_push_contains<A>(s: Seq<A>, x: A, y: A)
    ensures
        s.push(x).contains(y) <==> (s.contains(y) || x == y),
{
    if s.contains(y) {
        let i = choose|i: int| 0 <= i < s.len() && s[i] == y;
        assert(s.push(x)[i] == y);
    }
    if x == y {
        assert(s.push(x)[s.len() as int] == y);
    }
    if s.push(x).contains(y) && x != y {
        let i = choose|i: int| 0 <= i < s.push(x).len() && s.push(x)[i] == y;
        assert(s[i] == y);
    }
}

/// Membership in a prefix extends to membership in a longer prefix.
proof fn lemma_take_contains_mono<A>(s: Seq<A>, h1: int, h2: int, x: A)
    requires
        0 <= h1 <= h2 <= s.len(),
        s.take(h1).contains(x),
    ensures
        s.take(h2).contains(x),
{
    let i = choose|i: int| 0 <= i < h1 && s.take(h1)[i] == x;
    assert(s.take(h2)[i] == x);
}

/// The set of all positions below a bound has exactly that many elements.
proof fn lemma_usize_range_len(n: usize)
    ensures
        Set::new(|u: usize| u < n).finite(),
        Set::new(|u: usize| u < n).len() == n,
    decreases n,
{
    if n == 0 {
        assert(Set::new(|u: usize| u < n) =~= Set::<usize>::empty());
    } else {
        lemma_usize_range_len((n - 1) as usize);
        assert(Set::new(|u: usize| u < n) =~= Set::new(|u: usize| u < (n - 1) as usize).insert(
            (n - 1) as usize,
        ));
    }
}

/// Fewer than `n` distinct positions below `n` leave some position out.
proof fn lemma_missing_node(q: Seq<usize>, n: usize)
    requires
        forall|k: int| 0 <= k < q.len() ==> (#[trigger] q[k]) < n,
        forall|k1: int, k2: int| 0 <= k1 < k2 < q.len() ==> q[k1] != q[k2],
        q.len() < n,
    ensures
        exists|v: usize| v < n && !q.contains(v),
{
    if forall|v: usize| v < n ==> #[trigger] q.contains(v) {
        assert(q.no_duplicates());
        q.unique_seq_to_set();
        vstd::seq_lib::seq_to_set_is_finite(q);
        lemma_usize_range_len(n);
        assert(Set::new(|u: usize| u < n).subset_of(q.to_set()));
        lemma_len_subset(Set::new(|u: usize| u < n), q.to_set());
        assert(false);
    }
}

/// A sequence of more than `n` values drawn from `n` possibilities
/// repeats one.
proof fn lemma_int_pigeonhole(s: Seq<int>, n: int)
    requires
        n >= 0,
        s.len() > n,
        forall|k: int| 0 <= k < s.len() ==> 0 <= #[trigger] s[k] < n,
    ensures
        exists|i: int, j: int| 0 <= i < j < s.len() && s[i] == s[j],
{
    if forall|i: int, j: int| 0 <= i < j < s.len() ==> s[i] != s[j] {
        assert(s.no_duplicates());
        s.unique_seq_to_set();
        vstd::seq_lib::seq_to_set_is_finite(s);
        lemma_int_range(0, n);
        assert(s.to_set().subset_of(set_int_range(0, n)));
        lemma_len_subset(s.to_set(), set_int_range(0, n));
        assert(false);
    }
}

/// The position an order gives to a node.
pub open spec fn pos_in(order: Seq<int>, v: int) -> int {
    choose|k: int| 0 <= k < order.len() && order[k] == v
}

/// Along a dependency walk, positions in a topological order strictly
/// descend.
proof fn lemma_walk_desc(sv: Seq<StepView>, order: Seq<int>, p: Seq<int>, k: int)
    requires
        is_topo_order(sv, order),
        forall|j: int| #![trigger p[j]] 0 <= j < p.len() - 1 ==> dep_edge(sv, p[j], p[j + 1]),
        p.len() >= 2,
        0 <= k < p.len(),
    ensures
        order.contains(p[k]),
        0 <= pos_in(order, p[k]) < order.len(),
        order[pos_in(order, p[k])] == p[k],
        pos_in(order, p[k]) <= pos_in(order, p[0]) - k,
    decreases k,
{
    if k == 0 {
        assert(dep_edge(sv, p[0], p[1]));
        assert(0 <= p[0] < sv.len());
        assert(order.contains(p[0]));
    } else {
        lemma_walk_desc(sv, order, p, k - 1);
        let prev = pos_in(order, p[k - 1]);
        assert(dep_edge(sv, p[k - 1], p[(k - 1) + 1]));
        assert(dep_edge(sv, p[k - 1], p[k]));
        assert(dep_edge(sv, order[prev], p[k]));
        let k2 = choose|k2: int| 0 <= k2 < prev && order[k2] == p[k];
        assert(order.contains(p[k]));
        let kp = pos_in(order, p[k]);
        assert(order[kp] == p[k]);
        if kp != k2 {
            assert(order[kp] == order[k2]);
            assert(false);
        }
    }
}

/// An order that puts every step after its dependencies rules out a
/// dependency cycle.
pub proof fn lemma_topo_no_cycle(sv: Seq<StepView>, order: Seq<int>)
    requires
        is_topo_order(sv, order),
    ensures
        !has_cycle(sv),
{
    if has_cycle(sv) {
        let p = choose|p: Seq<int>| is_cycle(sv, p);
        lemma_walk_desc(sv, order, p, p.len() - 1);
        assert(pos_in(order, p[p.len() - 1]) <= pos_in(order, p[0]) - (p.len() - 1));
        assert(p[p.len() - 1] == p[0]);
        assert(false);
    }
}

/// A dependency walk of the given length along `next`, starting at a
/// blocked node and staying among blocked nodes.
#[verifier::rlimit(50)]
proof fn build_blocked_walk(
    sv: Seq<StepView>,
    scheduled: Seq<usize>,
    next: spec_fn(int) -> int,
    v0: int,
    len: nat,
) -> (w: Seq<int>)
    requires
        0 <= v0 < sv.len(),
        !scheduled.contains(v0 as usize),
        forall|v: int|
            0 <= v < sv.len() && !scheduled.contains(v as usize) ==> {
                &&& 0 <= #[trigger] next(v) < sv.len()
                &&& !scheduled.contains(next(v) as usize)
                &&& dep_edge(sv, v, next(v))
            },
    ensures
        w.len() == len + 1,
        w[0] == v0,
        forall|k: int|
            0 <= k < w.len() ==> 0 <= #[trigger] w[k] < sv.len() && !scheduled.contains(
                w[k] as usize,
            ),
        forall|k: int| #![trigger w[k]] 0 <= k < w.len() - 1 ==> dep_edge(sv, w[k], w[k + 1]),
    decreases len,
{
    if len == 0 {
        seq![v0]
    } else {
        let u = next(v0);
        let rest = build_blocked_walk(sv, scheduled, next, u, (len - 1) as nat);
        let w = seq![v0] + rest;
        assert(w[0] == v0);
        assert forall|k: int| #![trigger w[k]] 0 <= k < w.len() - 1 implies dep_edge(
            sv,
            w[k],
            w[k + 1],
        ) by {
            if k == 0 {
                assert(w[1] == rest[0]);
            } else {
                assert(w[k] == rest[k - 1]);
                assert(w[k + 1] == rest[k]);
            }
        }
        w
    }
}

/// A dependency walk longer than the step count revisits a node and so
/// yields a cycle.
#[verifier::rlimit(50)]
proof fn lemma_walk_repeats_to_cycle(sv: Seq<StepView>, w: Seq<int>)
    requires
        w.len() > sv.len(),
        forall|k: int| 0 <= k < w.len() ==> 0 <= #[trigger] w[k] < sv.len(),
        forall|k: int| #![trigger w[k]] 0 <= k < w.len() - 1 ==> dep_edge(sv, w[k], w[k + 1]),
    ensures
        has_cycle(sv),
{
    lemma_int_pigeonhole(w, sv.len() as int);
    let (i, j) = choose|i: int, j: int| 0 <= i < j < w.len() && w[i] == w[j];
    let p = w.subrange(i, j + 1);
    assert(p.len() == j + 1 - i);
    assert(p[0] == w[i]);
    assert(p[p.len() - 1] == w[j]);
    assert forall|k: int| #![trigger p[k]] 0 <= k < p.len() - 1 implies dep_edge(
        sv,
        p[k],
        p[k + 1],
    ) by {
        assert(p[k] == w[i + k]);
        assert(p[k + 1] == w[i + k + 1]);
        assert(dep_edge(sv, w[i + k], w[(i + k) + 1]));
    }
    assert(is_cycle(sv, p));
}

/// A step set in which every unscheduled node depends, along `next`, on
/// an unscheduled node contains a cycle.
#[verifier::rlimit(50)]
proof fn lemma_blocked_has_cycle(
    sv: Seq<StepView>,
    scheduled: Seq<usize>,
    next: spec_fn(int) -> int,
    v0: int,
)
    requires
        0 <= v0 < sv.len(),
        !scheduled.contains(v0 as usize),
        forall|v: int|
            0 <= v < sv.len() && !scheduled.contains(v as usize) ==> {
                &&& 0 <= #[trigger] next(v) < sv.len()
                &&& !scheduled.contains(next(v) as usize)
                &&& dep_edge(sv, v, next(v))
            },
    ensures
        has_cycle(sv),
{
    let n = sv.len() as nat;
    let w = build_blocked_walk(sv, scheduled, next, v0, n);
    lemma_walk_repeats_to_cycle(sv, w);
}

/// The position of the first step whose id equals the given id.
pub fn find_step_index(steps: &Vec<WorkflowStep>, id: &str) -> (r: Option<usize>)
    ensures
        match r {
            Some(i) => i < steps@.len() && first_idx(steps_view(steps@), id@) == i,
            None => first_idx(steps_view(steps@), id@) == -1,
        },
{
    let ghost sv = steps_view(steps@);
    let mut i: usize = 0;
    while i < steps.len()
        invariant
            sv == steps_view(steps@),
            sv.len() == steps@.len(),
            0 <= i <= steps@.len(),
            forall|j: int| 0 <= j < i ==> sv[j].id != id@,
        decreases steps@.len() - i,
    {
        if str_eq(steps[i].id.as_str(), id) {
            proof {
                lemma_first_idx_found(sv, id@, i as int);
            }
            return Some(i);
        }
        i += 1;
    }
    proof {
        lemma_first_idx_missing(sv, id@);
    }
    None
}

/// Whether a position occurs in a row.
fn vec_contains_usize(v: &Vec<usize>, x: usize) -> (r: bool)
    ensures
        r == v@.contains(x),
{
    let mut i: usize = 0;
    while i < v.len()
        invariant
            0 <= i <= v@.len(),
            forall|j: int| 0 <= j < i ==> v@[j] != x,
        decreases v@.len() - i,
    {
        if v[i] == x {
            return true;
        }
        i += 1;
    }
    proof {
        if v@.contains(x) {
            let j = choose|j: int| 0 <= j < v@.len() && v@[j] == x;
            assert(false);
        }
    }
    false
}

/// Whether every position in `deps` is marked in `done`.
fn all_marked(deps: &Vec<usize>, done: &Vec<bool>) -> (r: bool)
    requires
        forall|t: int| 0 <= t < deps@.len() ==> (#[trigger] deps@[t]) < done@.len(),
    ensures
        r == (forall|t: int| 0 <= t < deps@.len() ==> done@[#[trigger] deps@[t] as int]),
{
    let mut i: usize = 0;
    while i < deps.len()
        invariant
            0 <= i <= deps@.len(),
            forall|t: int| 0 <= t < deps@.len() ==> (#[trigger] deps@[t]) < done@.len(),
            forall|t: int| 0 <= t < i ==> done@[#[trigger] deps@[t] as int],
        decreases deps@.len() - i,
    {
        if !done[deps[i]] {
            return false;
        }
        i += 1;
    }
    true
}

/// The ghost models of the dependency rows.
pub open spec fn rows_view(dx: Seq<Vec<usize>>) -> Seq<Seq<usize>> {
    Seq::new(dx.len(), |i: int| dx[i]@)
}

/// Resolve every step's dependency ids to distinct step positions; `None`
/// when some dependency id names no step.
fn resolve_deps(steps: &Vec<WorkflowStep>) -> (r: Option<Vec<Vec<usize>>>)
    ensures
        match r {
            Some(dx) => resolvable(steps_view(steps@)) && edges_match(
                steps_view(steps@),
                rows_view(dx@),
            ),
            None => !resolvable(steps_view(steps@)),
        },
{
    let ghost sv = steps_view(steps@);
    let n = steps.len();
    let mut dx: Vec<Vec<usize>> = Vec::new();
    let mut j: usize = 0;
    while j < n
        invariant
            sv == steps_view(steps@),
            sv.len() == steps@.len(),
            n == steps@.len(),
            0 <= j <= steps@.len(),
            dx@.len() == j,
            forall|jj: int, t: int|
                0 <= jj < j && 0 <= t < dx@[jj]@.len() ==> (#[trigger] dx@[jj]@[t])
                    < sv.len(),
            forall|jj: int, u: int|
                0 <= jj < j && 0 <= u < sv.len() ==> ((#[trigger] dx@[jj]@.contains(
                    u as usize,
                )) <==> dep_edge(sv, jj, u)),
            forall|jj: int, d: int|
                0 <= jj < j && 0 <= d < sv[jj].dependencies.len() ==> first_idx(
                    sv,
                    #[trigger] sv[jj].dependencies[d],
                ) >= 0,
        decreases steps@.len() - j,
    {
        let mut row: Vec<usize> = Vec::new();
        let nd = steps[j].dependencies.len();
        let mut d: usize = 0;
        while d < nd
            invariant
                sv == steps_view(steps@),
                sv.len() == steps@.len(),
                n == steps@.len(),
                0 <= j < steps@.len(),
                nd == sv[j as int].dependencies.len(),
                0 <= d <= nd,
                forall|t: int| 0 <= t < row@.len() ==> (#[trigger] row@[t]) < sv.len(),
                forall|u: int|
                    0 <= u < sv.len() ==> ((#[trigger] row@.contains(u as usize))
                        <==> exists|dd: int|
                        0 <= dd < d && first_idx(sv, sv[j as int].dependencies[dd]) == u),
                forall|dd: int|
                    0 <= dd < d ==> first_idx(
                        sv,
                        #[trigger] sv[j as int].dependencies[dd],
                    ) >= 0,
            decreases nd - d,
        {
            match find_step_index(steps, steps[j].dependencies[d].as_str()) {
                Some(target) => {
                    proof {
                        assert(sv[j as int].dependencies[d as int]
                            == steps@[j as int].dependencies@[d as int]@);
                    }
                    let ghost old_row = row@;
                    if !vec_contains_usize(&row, target) {
                        row.push(target);
                        proof {
                            assert forall|u: int|
                                0 <= u < sv.len() implies ((#[trigger] row@.contains(
                                u as usize,
                            )) <==> exists|dd: int|
                                0 <= dd < d + 1 && first_idx(
                                    sv,
                                    sv[j as int].dependencies[dd],
                                ) == u) by {
                                lemma_push_contains(old_row, target, u as usize);
                                if row@.contains(u as usize) {
                                    if old_row.contains(u as usize) {
                                        let dd = choose|dd: int|
                                            0 <= dd < d && first_idx(
                                                sv,
                                                sv[j as int].dependencies[dd],
                                            ) == u;
                                        assert(0 <= dd < d + 1 && first_idx(
                                            sv,
                                            sv[j as int].dependencies[dd],
                                        ) == u);
                                    } else {
                                        assert(u as usize == target);
                                        assert(u == target as int);
                                        assert(first_idx(
                                            sv,
                                            sv[j as int].dependencies[d as int],
                                        ) == u);
                                    }
                                }
                            }
                        }
                    } else {
                        proof {
                            assert forall|u: int|
                                0 <= u < sv.len() implies ((#[trigger] row@.contains(
                                u as usize,
                            )) <==> exists|dd: int|
                                0 <= dd < d + 1 && first_idx(
                                    sv,
                                    sv[j as int].dependencies[dd],
                                ) == u) by {
                                if row@.contains(u as usize) {
                                    let dd = choose|dd: int|
                                        0 <= dd < d && first_idx(
                                            sv,
                                            sv[j as int].dependencies[dd],
                                        ) == u;
                                    assert(0 <= dd < d + 1 && first_idx(
                                        sv,
                                        sv[j as int].dependencies[dd],
                                    ) == u);
                                }
                                if exists|dd: int|
                                    0 <= dd < d + 1 && first_idx(
                                        sv,
                                        sv[j as int].dependencies[dd],
                                    ) == u {
                                    let dd = choose|dd: int|
                                        0 <= dd < d + 1 && first_idx(
                                            sv,
                                            sv[j as int].dependencies[dd],
                                        ) == u;
                                    if dd == d {
                                        assert(u == target as int);
                                    }
                                }
                            }
                        }
                    }
                },
                None => {
                    proof {
                        assert(sv[j as int].dependencies[d as int]
                            == steps@[j as int].dependencies@[d as int]@);
                        assert(!resolvable(sv));
                    }
                    return None;
                },
            }
            d += 1;
        }
        dx.push(row);
        proof {
            assert forall|u: int|
                0 <= u < sv.len() implies ((#[trigger] dx@[j as int]@.contains(u as usize))
                <==> dep_edge(sv, j as int, u)) by {
                assert(dx@[j as int]@ == row@);
                if row@.contains(u as usize) {
                    assert(dep_edge(sv, j as int, u));
                }
                if dep_edge(sv, j as int, u) {
                    let dd = choose|dd: int|
                        0 <= dd < sv[j as int].dependencies.len() && first_idx(
                            sv,
                            #[trigger] sv[j as int].dependencies[dd],
                        ) == u;
                    assert(row@.contains(u as usize));
                }
            }
        }
        j += 1;
    }
    Some(dx)
}


/// Distinct positions below a bound are at most that many.
proof fn lemma_distinct_bounded_len(q: Seq<usize>, n: usize)
    requires
        forall|k: int| 0 <= k < q.len() ==> (#[trigger] q[k]) < n,
        forall|k1: int, k2: int| 0 <= k1 < k2 < q.len() ==> q[k1] != q[k2],
    ensures
        q.len() <= n,
{
    assert(q.no_duplicates());
    q.unique_seq_to_set();
    vstd::seq_lib::seq_to_set_is_finite(q);
    lemma_usize_range_len(n);
    assert(q.to_set().subset_of(Set::new(|x: usize| x < n)));
    lemma_len_subset(q.to_set(), Set::new(|x: usize| x < n));
}

/// `n` distinct positions below `n` cover every position below `n`.
proof fn lemma_full_range(q: Seq<usize>, n: usize)
    requires
        q.len() == n,
        forall|k: int| 0 <= k < q.len() ==> (#[trigger] q[k]) < n,
        forall|k1: int, k2: int| 0 <= k1 < k2 < q.len() ==> q[k1] != q[k2],
    ensures
        forall|u: usize| u < n ==> #[trigger] q.contains(u),
{
    assert forall|u: usize| u < n implies #[trigger] q.contains(u) by {
        if !q.contains(u) {
            assert(q.no_duplicates());
            q.unique_seq_to_set();
            vstd::seq_lib::seq_to_set_is_finite(q);
            lemma_usize_range_len(n);
            assert(Set::new(|x: usize| x < n).contains(u));
            assert(q.to_set().subset_of(Set::new(|x: usize| x < n).remove(u)));
            lemma_len_subset(q.to_set(), Set::new(|x: usize| x < n).remove(u));
            assert(false);
        }
    }
}

/// A deterministic execution order for the step set: Kahn's algorithm
/// over resolved dependencies, a first-in-first-out ready queue seeded
/// and refilled in declaration order. Succeeds exactly when every
/// dependency id resolves and the dependency relation is acyclic.
#[verifier::rlimit(100)]
pub fn topological_order(steps: &Vec<WorkflowStep>) -> (r: Result<Vec<usize>, GraphError>)
    ensures
        match r {
            Ok(order) => resolvable(steps_view(steps@)) && !has_cycle(steps_view(steps@))
                && is_topo_order(steps_view(steps@), order_ints(order@)),
            Err(e) => e == GraphError::CycleDetected && (!resolvable(steps_view(steps@))
                || has_cycle(steps_view(steps@))),
        },
{
    let ghost sv = steps_view(steps@);
    let n = steps.len();
    let dx: Vec<Vec<usize>> = match resolve_deps(steps) {
        Some(dx) => dx,
        None => {
            return Err(GraphError::CycleDetected);
        },
    };
    let ghost dxv = rows_view(dx@);
    let mut done: Vec<bool> = Vec::new();
    while done.len() < n
        invariant
            done@.len() <= n,
            forall|u: int| 0 <= u < done@.len() ==> !(#[trigger] done@[u]),
        decreases n - done@.len(),
    {
        done.push(false);
    }
    let mut order: Vec<usize> = Vec::new();
    let mut v: usize = 0;
    while v < n
        invariant
            sv == steps_view(steps@),
            n == sv.len(),
            dxv == rows_view(dx@),
            dxv.len() == n,
            dx@.len() == n,
            edges_match(sv, dxv),
            0 <= v <= n,
            order@.len() <= v,
            forall|k: int| 0 <= k < order@.len() ==> (#[trigger] order@[k]) < n,
            forall|k1: int, k2: int| 0 <= k1 < k2 < order@.len() ==> order@[k1] != order@[k2],
            forall|u: usize|
                u < n ==> ((#[trigger] order@.contains(u)) <==> (u < v && dxv[u as int].len()
                    == 0)),
        decreases n - v,
    {
        let ghost old_order = order@;
        if dx[v].len() == 0 {
            proof {
                assert(dx@[v as int]@ == dxv[v as int]);
                assert(!old_order.contains(v));
            }
            order.push(v);
            proof {
                assert forall|k1: int, k2: int|
                    0 <= k1 < k2 < order@.len() implies order@[k1] != order@[k2] by {
                    if k2 == old_order.len() {
                        if old_order[k1] == v {
                            assert(old_order.contains(v));
                        }
                    }
                }
            }
        }
        proof {
            assert(dx@[v as int]@ == dxv[v as int]);
            assert forall|u: usize|
                u < n implies ((#[trigger] order@.contains(u)) <==> (u < v + 1 && dxv[u as int].len()
                == 0)) by {
                if dxv[v as int].len() == 0 {
                    lemma_push_contains(old_order, v, u);
                }
            }
        }
        v += 1;
    }
    let mut head: usize = 0;
    proof {
        assert(order@.take(0) =~= Seq::<usize>::empty());
        assert forall|u: usize|
            u < n implies ((#[trigger] order@.contains(u)) <==> all_in(
            dxv[u as int],
            order@.take(head as int),
        )) by {
            if all_in(dxv[u as int], order@.take(0)) && dxv[u as int].len() > 0 {
                assert(order@.take(0).contains(dxv[u as int][0]));
                let i = choose|i: int| 0 <= i < 0 && order@.take(0)[i] == dxv[u as int][0];
                assert(false);
            }
            if order@.contains(u) {
                assert(dxv[u as int].len() == 0);
            }
        }
        assert forall|u: usize|
            u < n implies ((#[trigger] order@.take(head as int).contains(u)) <==> done@[u as int])
            by {
            if order@.take(0).contains(u) {
                let i = choose|i: int| 0 <= i < 0 && order@.take(0)[i] == u;
                assert(false);
            }
        }
        assert forall|k: int, t: int|
            0 <= k < order@.len() && 0 <= t < dxv[order@[k] as int].len() implies order@.take(
            k,
        ).contains(#[trigger] dxv[order@[k] as int][t]) by {
            assert(order@.contains(order@[k]));
            assert(dxv[order@[k] as int].len() == 0);
        }
    }
    while head < order.len()
        invariant
            sv == steps_view(steps@),
            n == sv.len(),
            dxv == rows_view(dx@),
            dxv.len() == n,
            dx@.len() == n,
            edges_match(sv, dxv),
            head <= order@.len(),
            order@.len() <= n,
            done@.len() == n,
            forall|k: int| 0 <= k < order@.len() ==> (#[trigger] order@[k]) < n,
            forall|k1: int, k2: int| 0 <= k1 < k2 < order@.len() ==> order@[k1] != order@[k2],
            forall|k: int, t: int|
                0 <= k < order@.len() && 0 <= t < dxv[order@[k] as int].len() ==> order@.take(
                    k,
                ).contains(#[trigger] dxv[order@[k] as int][t]),
            forall|u: usize|
                u < n ==> ((#[trigger] order@.contains(u)) <==> all_in(
                    dxv[u as int],
                    order@.take(head as int),
                )),
            forall|u: usize|
                u < n ==> ((#[trigger] order@.take(head as int).contains(u)) <==> done@[u as int]),
        decreases n - head,
    {
        let current = order[head];
        let ghost em_old = order@.take(head as int);
        done.set(current, true);
        head += 1;
        let ghost em = order@.take(head as int);
        proof {
            assert(em =~= em_old.push(current));
            assert(!em_old.contains(current)) by {
                if em_old.contains(current) {
                    let i = choose|i: int| 0 <= i < em_old.len() && em_old[i] == current;
                    assert(order@[i] == order@[head - 1]);
                    assert(false);
                }
            }
            assert forall|u: usize|
                u < n implies ((#[trigger] em.contains(u)) <==> done@[u as int]) by {
                lemma_push_contains(em_old, current, u);
            }
            assert forall|u: usize|
                u < n implies ((#[trigger] order@.contains(u)) <==> (all_in(
                dxv[u as int],
                em,
            ) && !dxv[u as int].contains(current))) by {
                assert forall|t: int|
                    0 <= t < dxv[u as int].len() implies (em.contains(#[trigger] dxv[u as int][t])
                    <==> (em_old.contains(dxv[u as int][t]) || dxv[u as int][t] == current)) by {
                    lemma_push_contains(em_old, current, dxv[u as int][t]);
                }
                if order@.contains(u) {
                    assert(all_in(dxv[u as int], em_old));
                    assert forall|t: int|
                        0 <= t < dxv[u as int].len() implies em.contains(
                        #[trigger] dxv[u as int][t],
                    ) by {}
                    assert(!dxv[u as int].contains(current)) by {
                        if dxv[u as int].contains(current) {
                            let t = choose|t: int|
                                0 <= t < dxv[u as int].len() && dxv[u as int][t] == current;
                            assert(em_old.contains(current));
                        }
                    }
                }
                if all_in(dxv[u as int], em) && !dxv[u as int].contains(current) {
                    assert forall|t: int|
                        0 <= t < dxv[u as int].len() implies em_old.contains(
                        #[trigger] dxv[u as int][t],
                    ) by {
                        assert(dxv[u as int][t] != current);
                    }
                    assert(all_in(dxv[u as int], em_old));
                }
            }
        }
        let mut w: usize = 0;
        while w < n
            invariant
                sv == steps_view(steps@),
                n == sv.len(),
                dxv == rows_view(dx@),
                dxv.len() == n,
                dx@.len() == n,
                edges_match(sv, dxv),
                0 <= w <= n,
                1 <= head <= order@.len(),
                order@.len() <= n,
                done@.len() == n,
                em == order@.take(head as int),
                forall|k: int| 0 <= k < order@.len() ==> (#[trigger] order@[k]) < n,
                forall|k1: int, k2: int|
                    0 <= k1 < k2 < order@.len() ==> order@[k1] != order@[k2],
                forall|k: int, t: int|
                    0 <= k < order@.len() && 0 <= t < dxv[order@[k] as int].len()
                        ==> order@.take(k).contains(#[trigger] dxv[order@[k] as int][t]),
                forall|u: usize|
                    u < n ==> ((#[trigger] order@.contains(u)) <==> (all_in(
                        dxv[u as int],
                        em,
                    ) && (u < w || !dxv[u as int].contains(current)))),
                forall|u: usize|
                    u < n ==> ((#[trigger] em.contains(u)) <==> done@[u as int]),
            decreases n - w,
        {
            let ghost old_order = order@;
            proof {
                assert(dx@[w as int]@ == dxv[w as int]);
            }
            let is_dependent = vec_contains_usize(&dx[w], current);
            let mut pushed = false;
            if is_dependent {
                let ready = all_marked(&dx[w], &done);
                proof {
                    assert(ready <==> all_in(dxv[w as int], em)) by {
                        if ready {
                            assert forall|t: int|
                                0 <= t < dxv[w as int].len() implies em.contains(
                                #[trigger] dxv[w as int][t],
                            ) by {
                                assert(done@[dxv[w as int][t] as int]);
                            }
                        }
                        if all_in(dxv[w as int], em) {
                            assert forall|t: int|
                                0 <= t < dx@[w as int]@.len() implies done@[(
                                #[trigger] dx@[w as int]@[t]) as int] by {
                                assert(em.contains(dxv[w as int][t]));
                            }
                        }
                    }
                }
                if ready {
                    proof {
                        assert(!order@.contains(w));
                        lemma_distinct_bounded_len(order@.push(w), n);
                    }
                    order.push(w);
                    pushed = true;
                    proof {
                        assert(order@ == old_order.push(w));
                        assert(order@.take(head as int) =~= em);
                        let big = old_order.len() as int;
                        assert forall|k1: int, k2: int|
                            0 <= k1 < k2 < order@.len() implies order@[k1] != order@[k2] by {
                            if k2 == big {
                                assert(order@[k1] == old_order[k1]);
                                if old_order[k1] == w {
                                    assert(old_order.contains(w));
                                }
                            }
                        }
                        assert forall|k: int, t: int|
                            0 <= k < order@.len() && 0 <= t < dxv[order@[k] as int].len()
                            implies order@.take(k).contains(
                            #[trigger] dxv[order@[k] as int][t],
                        ) by {
                            if k < big {
                                assert(order@[k] == old_order[k]);
                                assert(old_order.take(k).contains(dxv[old_order[k] as int][t]));
                                assert(order@.take(k) =~= old_order.take(k));
                            } else {
                                assert(order@[k] == w);
                                assert(em.contains(dxv[w as int][t]));
                                lemma_take_contains_mono(order@, head as int, k, dxv[w as int][t]);
                            }
                        }
                    }
                }
            }
            proof {
                assert forall|u: usize|
                    u < n implies ((#[trigger] order@.contains(u)) <==> (all_in(
                    dxv[u as int],
                    em,
                ) && (u < w + 1 || !dxv[u as int].contains(current)))) by {
                    if pushed {
                        lemma_push_contains(old_order, w, u);
                    }
                    if u == w {
                        if !dxv[w as int].contains(current) {
                            assert(order@.contains(u) <==> old_order.contains(u));
                        }
                    }
                }
            }
            w += 1;
        }
    }
    if order.len() == n {
        proof {
            let oi = order_ints(order@);
            lemma_full_range(order@, n);
            assert(oi.len() == n);
            assert forall|k: int| 0 <= k < oi.len() implies 0 <= #[trigger] oi[k] < sv.len() by {
                assert(oi[k] == order@[k] as int);
            }
            assert forall|k1: int, k2: int|
                0 <= k1 < k2 < oi.len() implies oi[k1] != oi[k2] by {
                assert(order@[k1] != order@[k2]);
            }
            assert forall|i: int| 0 <= i < sv.len() implies #[trigger] oi.contains(i) by {
                assert(order@.contains(i as usize));
                let k = choose|k: int| 0 <= k < order@.len() && order@[k] == i as usize;
                assert(oi[k] == i);
            }
            assert forall|k: int, u: int|
                0 <= k < oi.len() && #[trigger] dep_edge(sv, oi[k], u) implies exists|k2: int|
                0 <= k2 < k && oi[k2] == u by {
                assert(oi[k] == order@[k] as int);
                assert(dxv[oi[k]].contains(u as usize));
                let t = choose|t: int| 0 <= t < dxv[oi[k]].len() && dxv[oi[k]][t] == u as usize;
                assert(order@.take(k).contains(dxv[order@[k] as int][t]));
                let k2 = choose|k2: int|
                    0 <= k2 < k && order@.take(k)[k2] == dxv[order@[k] as int][t];
                assert(order@[k2] == u as usize);
                assert(oi[k2] == u);
            }
            assert(is_topo_order(sv, oi));
            lemma_topo_no_cycle(sv, oi);
        }
        Ok(order)
    } else {
        proof {
            lemma_distinct_bounded_len(order@, n);
            lemma_missing_node(order@, n);
            let v0u = choose|vm: usize| vm < n && !order@.contains(vm);
            let ghost nxt = |v: int|
                choose|u: int|
                    0 <= u < sv.len() && !order@.contains(u as usize) && #[trigger] dep_edge(
                        sv,
                        v,
                        u,
                    );
            assert(order@.take(order@.len() as int) =~= order@);
            assert forall|v: int|
                0 <= v < sv.len() && !order@.contains(v as usize) implies {
                &&& 0 <= #[trigger] nxt(v) < sv.len()
                &&& !order@.contains(nxt(v) as usize)
                &&& dep_edge(sv, v, nxt(v))
            } by {
                let vu = v as usize;
                assert(vu as int == v);
                assert(!order@.contains(vu));
                assert(order@.take(head as int) == order@);
                assert(!all_in(dxv[vu as int], order@.take(head as int)));
                assert(!all_in(dxv[v], order@));
                let t = choose|t: int|
                    0 <= t < dxv[v].len() && !order@.contains(#[trigger] dxv[v][t]);
                let u0 = dxv[v][t] as int;
                assert(dxv[v].contains(dxv[v][t]));
                assert(dxv[v].contains(u0 as usize));
                assert(dep_edge(sv, v, u0));
                assert(0 <= u0 < sv.len() && !order@.contains(u0 as usize) && dep_edge(sv, v, u0));
            }
            lemma_blocked_has_cycle(sv, order@, nxt, v0u as int);
        }
        Err(GraphError::CycleDetected)
    }
}


/// What each validation error means of the step set's model. An unknown
/// dependency is reported for the first step, and its first dependency,
/// in declaration order.
pub open spec fn validation_error(sv: Seq<StepView>, e: GraphError) -> bool {
    match e {
        GraphError::Empty => sv.len() == 0,
        GraphError::UnknownDependency(sid, did) => sv.len() > 0 && !resolvable(sv) && (
        exists|j: int, d: int|
            {
                &&& 0 <= j < sv.len()
                &&& 0 <= d < sv[j].dependencies.len()
                &&& first_idx(sv, #[trigger] sv[j].dependencies[d]) == -1
                &&& sid@ == sv[j].id
                &&& did@ == sv[j].dependencies[d]
                &&& forall|jj: int, dd: int|
                    0 <= jj < j && 0 <= dd < sv[jj].dependencies.len() ==> first_idx(
                        sv,
                        #[trigger] sv[jj].dependencies[dd],
                    ) >= 0
                &&& forall|dd: int|
                    0 <= dd < d ==> first_idx(sv, #[trigger] sv[j].dependencies[dd]) >= 0
            }),
        GraphError::CycleDetected => sv.len() > 0 && resolvable(sv) && has_cycle(sv),
    }
}

/// A valid step set: non-empty, every dependency id resolves, and the
/// dependency relation is acyclic.
pub open spec fn valid_steps(sv: Seq<StepView>) -> bool {
    sv.len() > 0 && resolvable(sv) && !has_cycle(sv)
}

/// Check a step set for structural faults: an empty set, a dependency id
/// naming no step, and a dependency cycle, in that order.
pub fn validate(steps: &Vec<WorkflowStep>) -> (r: Result<(), GraphError>)
    ensures
        ({
            let sv = steps_view(steps@);
            match r {
                Ok(()) => valid_steps(sv),
                Err(e) => validation_error(sv, e),
            }
        }),
{
    let ghost sv = steps_view(steps@);
    if steps.len() == 0 {
        return Err(GraphError::Empty);
    }
    let n = steps.len();
    let mut j: usize = 0;
    while j < n
        invariant
            sv == steps_view(steps@),
            n == sv.len(),
            sv.len() == steps@.len(),
            0 <= j <= n,
            forall|jj: int, dd: int|
                0 <= jj < j && 0 <= dd < sv[jj].dependencies.len() ==> first_idx(
                    sv,
                    #[trigger] sv[jj].dependencies[dd],
                ) >= 0,
        decreases n - j,
    {
        let nd = steps[j].dependencies.len();
        let mut d: usize = 0;
        while d < nd
            invariant
                sv == steps_view(steps@),
                n == sv.len(),
                sv.len() == steps@.len(),
                0 <= j < n,
                nd == sv[j as int].dependencies.len(),
                0 <= d <= nd,
                forall|jj: int, dd: int|
                    0 <= jj < j && 0 <= dd < sv[jj].dependencies.len() ==> first_idx(
                        sv,
                        #[trigger] sv[jj].dependencies[dd],
                    ) >= 0,
                forall|dd: int|
                    0 <= dd < d ==> first_idx(
                        sv,
                        #[trigger] sv[j as int].dependencies[dd],
                    ) >= 0,
            decreases nd - d,
        {
            proof {
                assert(sv[j as int].dependencies[d as int]
                    == steps@[j as int].dependencies@[d as int]@);
            }
            match find_step_index(steps, steps[j].dependencies[d].as_str()) {
                Some(_) => {},
                None => {
                    let sid = steps[j].id.clone();
                    let did = steps[j].dependencies[d].clone();
                    proof {
                        assert(sid@ == sv[j as int].id);
                        assert(did@ == sv[j as int].dependencies[d as int]);
                        assert(!resolvable(sv));
                    }
                    return Err(GraphError::UnknownDependency(sid, did));
                },
            }
            d += 1;
        }
        j += 1;
    }
    proof {
        assert(resolvable(sv));
    }
    match topological_order(steps) {
        Ok(_) => Ok(()),
        Err(_) => Err(GraphError::CycleDetected),
    }
}

} // verus!