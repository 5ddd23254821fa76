//! Calculation of task dates from the dependencies between tasks: a topological
//! ordering of the tasks, their start and end dates, and their floats.

use vstd::prelude::*;
use crate::dates::{Date, in_range};
use crate::errors::DomainError;
use crate::project_management::advanced_dependencies::{
    AdvancedDependency, AdvancedDependencyGraph, DependencyType, DependencyView, GraphModel, LagType, TaskNode,
    count_false, lag_applied, lemma_count_false_mark, lemma_index_of, node_duration,
};
use crate::text::{str_eq, views};

verus! {

// ============================================================================
// TOPOLOGICAL ORDER
// ============================================================================

/// Number of dependencies in a list whose successor is `x`.
pub open spec fn count_to(list: Seq<DependencyView>, x: Seq<char>) -> nat
    decreases list.len(),
{
    if list.len() == 0 {
        0
    } else {
        count_to(list.drop_last(), x) + if list.last().successor_id == x { 1nat } else { 0nat }
    }
}

/// Number of dependencies to `x`, filed under the first `i` tasks, whose predecessor
/// is not yet placed.
pub open spec fn pending_to(g: GraphModel, placed: Seq<bool>, x: Seq<char>, i: int) -> nat
    decreases i,
{
    if i <= 0 {
        0
    } else {
        pending_to(g, placed, x, i - 1) + if placed[i - 1] { 0nat } else { count_to(g.deps[i - 1], x) }
    }
}

/// `ids` lists every task once, each predecessor before its successors.
pub open spec fn is_topological_order(g: GraphModel, ids: Seq<Seq<char>>) -> bool {
    &&& ids.len() == g.nodes.len()
    &&& forall|p: int| 0 <= p < ids.len() ==> g.has_node(#[trigger] ids[p])
    &&& forall|i: int| 0 <= i < g.nodes.len() ==> ids.contains(#[trigger] g.nodes[i].id)
    &&& forall|p: int, q: int| 0 <= p < ids.len() && 0 <= q < ids.len() && p != q ==> #[trigger] ids[p] != #[trigger] ids[q]
    &&& forall|p: int, q: int|
        0 <= p < ids.len() && 0 <= q < ids.len() && g.edge(#[trigger] ids[p], #[trigger] ids[q]) ==> p < q
}

proof fn lemma_count_to_take_step(list: Seq<DependencyView>, x: Seq<char>, k: int)
    requires
        0 <= k < list.len(),
    ensures
        count_to(list.take(k + 1), x) == count_to(list.take(k), x) + if list[k].successor_id == x { 1nat } else { 0nat },
{
    assert(list.take(k + 1).drop_last() =~= list.take(k));
}

proof fn lemma_count_to_take_le(list: Seq<DependencyView>, x: Seq<char>, k: int)
    requires
        0 <= k <= list.len(),
    ensures
        count_to(list.take(k), x) <= count_to(list, x),
    decreases list.len() - k,
{
    if k < list.len() {
        lemma_count_to_take_step(list, x, k);
        lemma_count_to_take_le(list, x, k + 1);
    } else {
        assert(list.take(k) =~= list);
    }
}

proof fn lemma_count_to_positive(list: Seq<DependencyView>, x: Seq<char>)
    ensures
        count_to(list, x) > 0 <==> exists|k: int| 0 <= k < list.len() && (#[trigger] list[k]).successor_id == x,
    decreases list.len(),
{
    if list.len() > 0 {
        lemma_count_to_positive(list.drop_last(), x);
        if exists|k: int| 0 <= k < list.drop_last().len() && (#[trigger] list.drop_last()[k]).successor_id == x {
            let k = choose|k: int| 0 <= k < list.drop_last().len() && (#[trigger] list.drop_last()[k]).successor_id == x;
            assert(list[k].successor_id == x);
        }
        if exists|k: int| 0 <= k < list.len() && (#[trigger] list[k]).successor_id == x {
            let k = choose|k: int| 0 <= k < list.len() && (#[trigger] list[k]).successor_id == x;
            if k < list.len() - 1 {
                assert(list.drop_last()[k].successor_id == x);
            }
        }
    }
}

proof fn lemma_count_to_at_most_one(list: Seq<DependencyView>, x: Seq<char>)
    requires
        forall|k1: int, k2: int|
            0 <= k1 < list.len() && 0 <= k2 < list.len() && k1 != k2
                ==> list[k1].successor_id != list[k2].successor_id,
    ensures
        count_to(list, x) <= 1,
    decreases list.len(),
{
    if list.len() > 0 {
        let rest = list.drop_last();
        assert forall|k1: int, k2: int|
            0 <= k1 < rest.len() && 0 <= k2 < rest.len() && k1 != k2 implies rest[k1].successor_id != rest[k2].successor_id by {
            assert(rest[k1] == list[k1]);
            assert(rest[k2] == list[k2]);
        }
        lemma_count_to_at_most_one(rest, x);
        if list.last().successor_id == x {
            lemma_count_to_positive(rest, x);
            if count_to(rest, x) > 0 {
                let k = choose|k: int| 0 <= k < rest.len() && (#[trigger] rest[k]).successor_id == x;
                assert(list[k].successor_id == list[list.len() - 1].successor_id);
            }
        }
    }
}

proof fn lemma_pending_mark(g: GraphModel, placed: Seq<bool>, x: Seq<char>, i: int, u: int)
    requires
        0 <= u < placed.len(),
        !placed[u],
        0 <= i <= placed.len(),
    ensures
        pending_to(g, placed.update(u, true), x, i) + (if u < i { count_to(g.deps[u], x) } else { 0nat })
            == pending_to(g, placed, x, i),
    decreases i,
{
    if i > 0 {
        lemma_pending_mark(g, placed, x, i - 1, u);
    }
}

proof fn lemma_pending_zero(g: GraphModel, placed: Seq<bool>, x: Seq<char>, i: int, u: int, k: int)
    requires
        pending_to(g, placed, x, i) == 0,
        0 <= u < i,
        0 <= k < g.deps[u].len(),
        g.deps[u][k].successor_id == x,
    ensures
        placed[u],
    decreases i,
{
    if u < i - 1 {
        lemma_pending_zero(g, placed, x, i - 1, u, k);
    } else if !placed[u] {
        lemma_count_to_positive(g.deps[u], x);
    }
}

proof fn lemma_pending_positive(g: GraphModel, placed: Seq<bool>, x: Seq<char>, i: int) -> (uk: (int, int))
    requires
        pending_to(g, placed, x, i) > 0,
    ensures
        0 <= uk.0 < i,
        0 <= uk.1 < g.deps[uk.0].len(),
        !placed[uk.0],
        g.deps[uk.0][uk.1].successor_id == x,
    decreases i,
{
    if pending_to(g, placed, x, i - 1) > 0 {
        lemma_pending_positive(g, placed, x, i - 1)
    } else {
        lemma_count_to_positive(g.deps[i - 1], x);
        let k = choose|k: int| 0 <= k < g.deps[i - 1].len() && (#[trigger] g.deps[i - 1][k]).successor_id == x;
        (i - 1, k)
    }
}

proof fn lemma_pending_bound(g: GraphModel, placed: Seq<bool>, x: Seq<char>, i: int)
    requires
        g.wf(),
        0 <= i <= g.nodes.len(),
    ensures
        pending_to(g, placed, x, i) <= i,
    decreases i,
{
    if i > 0 {
        lemma_pending_bound(g, placed, x, i - 1);
        let list = g.deps[i - 1];
        assert forall|k1: int, k2: int|
            0 <= k1 < list.len() && 0 <= k2 < list.len() && k1 != k2 implies list[k1].successor_id != list[k2].successor_id by {
            assert(g.deps[i - 1][k1] == list[k1]);
            assert(g.deps[i - 1][k2] == list[k2]);
        }
        lemma_count_to_at_most_one(list, x);
    }
}

proof fn lemma_count_false_bound(s: Seq<bool>)
    ensures
        count_false(s) <= s.len(),
        count_false(s) > 0 ==> exists|i: int| 0 <= i < s.len() && !s[i],
    decreases s.len(),
{
    if s.len() > 0 {
        lemma_count_false_bound(s.drop_last());
        if count_false(s.drop_last()) > 0 {
            let i = choose|i: int| 0 <= i < s.drop_last().len() && !s.drop_last()[i];
            assert(!s[i]);
        }
        if !s.last() {
            assert(!s[s.len() - 1]);
        }
    }
}

/// In a graph where every unplaced task has a pending dependency from an unplaced
/// task, every task at or before position `p` of a topological order is placed.
proof fn lemma_order_all_placed(g: GraphModel, t: Seq<Seq<char>>, placed: Seq<bool>, p: int)
    requires
        g.wf(),
        is_topological_order(g, t),
        placed.len() == g.nodes.len(),
        forall|v: int| 0 <= v < g.nodes.len() && !#[trigger] placed[v] ==> pending_to(g, placed, g.nodes[v].id, g.nodes.len() as int) > 0,
        0 <= p < t.len(),
    ensures
        placed[g.index_of(t[p])],
    decreases p,
{
    let w = g.index_of(t[p]);
    assert(g.has_node(t[p]));
    assert(g.nodes[w].id == t[p]);
    if !placed[w] {
        let (u, k) = lemma_pending_positive(g, placed, g.nodes[w].id, g.nodes.len() as int);
        let uid = g.nodes[u].id;
        assert(g.edge(uid, t[p]));
        assert(t.contains(uid));
        let p2 = choose|p2: int| 0 <= p2 < t.len() && t[p2] == uid;
        assert(g.edge(t[p2], t[p]));
        assert(p2 < p);
        lemma_order_all_placed(g, t, placed, p2);
        lemma_index_of(g, u);
    }
}

/// Orders the tasks so that each predecessor comes before its successors, or reports
/// that no such order exists.
pub fn topological_order(graph: &AdvancedDependencyGraph) -> (r: Result<Vec<String>, DomainError>)
    requires
        graph.wf(),
    ensures
        match r {
            Ok(ids) => is_topological_order(graph@, views(ids@)),
            Err(e) => e.is_validation("dependency_graph"@, "Circular dependency detected in project"@)
                && forall|ids: Seq<Seq<char>>| !is_topological_order(graph@, ids),
        },
{
    let ghost g = graph@;
    proof { graph.lemma_wf(); }
    let n = graph.node_count();
    let ghost none: Seq<bool> = Seq::new(n as nat, |i: int| false);
    let mut indeg: Vec<usize> = Vec::new();
    let mut i: usize = 0;
    while i < n
        invariant
            0 <= i <= n,
            indeg@.len() == i,
            forall|v: int| 0 <= v < i ==> indeg@[v] == 0,
        decreases n - i,
    {
        indeg.push(0);
        i = i + 1;
    }
    let mut u: usize = 0;
    while u < n
        invariant
            graph.wf(),
            g == graph@,
            g.wf(),
            n == g.nodes.len(),
            none.len() == n,
            forall|v: int| 0 <= v < n ==> !#[trigger] none[v],
            0 <= u <= n,
            indeg@.len() == n,
            forall|v: int| 0 <= v < n ==> #[trigger] indeg@[v] == pending_to(g, none, g.nodes[v].id, u as int),
        decreases n - u,
    {
        let m = graph.dependency_count_at(u);
        let mut k: usize = 0;
        while k < m
            invariant
                graph.wf(),
                g == graph@,
                g.wf(),
                n == g.nodes.len(),
                none.len() == n,
                forall|v: int| 0 <= v < n ==> !#[trigger] none[v],
                u < n,
                m == g.deps[u as int].len(),
                0 <= k <= m,
                indeg@.len() == n,
                forall|v: int| 0 <= v < n ==> #[trigger] indeg@[v]
                    == pending_to(g, none, g.nodes[v].id, u as int) + count_to(g.deps[u as int].take(k as int), g.nodes[v].id),
            decreases m - k,
        {
            let v = graph.successor_index_at(u, k);
            proof {
                let x = g.nodes[v as int].id;
                lemma_count_to_take_step(g.deps[u as int], x, k as int);
                lemma_count_to_take_le(g.deps[u as int], x, k + 1);
                let list = g.deps[u as int];
                assert forall|k1: int, k2: int|
                    0 <= k1 < list.len() && 0 <= k2 < list.len() && k1 != k2 implies list[k1].successor_id != list[k2].successor_id by {
                    assert(g.deps[u as int][k1] == list[k1]);
                    assert(g.deps[u as int][k2] == list[k2]);
                }
                lemma_count_to_at_most_one(list, x);
                lemma_pending_bound(g, none, x, u as int);
                assert forall|w: int| 0 <= w < n && w != v implies count_to(g.deps[u as int].take(k + 1), g.nodes[w].id)
                    == count_to(g.deps[u as int].take(k as int), g.nodes[w].id) by {
                    lemma_count_to_take_step(g.deps[u as int], g.nodes[w].id, k as int);
                    if g.deps[u as int][k as int].successor_id == g.nodes[w].id {
                        assert(g.nodes[w].id == g.nodes[v as int].id);
                    }
                }
            }
            let old_degree = indeg[v];
            indeg.set(v, old_degree + 1);
            k = k + 1;
        }
        proof {
            assert(g.deps[u as int].take(m as int) =~= g.deps[u as int]);
        }
        u = u + 1;
    }
    let mut queue: Vec<usize> = Vec::new();
    let ghost mut enq: Seq<bool> = none;
    let mut v: usize = 0;
    proof { lemma_count_false_bound(none); }
    assert(count_false(none) == n) by {
        lemma_count_false_all(none);
    }
    while v < n
        invariant
            graph.wf(),
            g == graph@,
            g.wf(),
            n == g.nodes.len(),
            none.len() == n,
            0 <= v <= n,
            indeg@.len() == n,
            enq.len() == n,
            forall|x: int| 0 <= x < n ==> #[trigger] indeg@[x] == pending_to(g, none, g.nodes[x].id, n as int),
            queue@.len() + count_false(enq) == n,
            forall|p: int| 0 <= p < queue@.len() ==> (#[trigger] queue@[p]) < n && enq[queue@[p] as int],
            forall|x: int| 0 <= x < n && #[trigger] enq[x] ==> queue@.contains(x as usize),
            forall|p: int, q: int| 0 <= p < queue@.len() && 0 <= q < queue@.len() && p != q ==> #[trigger] queue@[p] != #[trigger] queue@[q],
            forall|x: int| 0 <= x < n && #[trigger] enq[x] ==> indeg@[x] == 0,
            forall|x: int| 0 <= x < v && !#[trigger] enq[x] ==> indeg@[x] > 0,
            forall|x: int| v <= x < n ==> !#[trigger] enq[x],
        decreases n - v,
    {
        if indeg[v] == 0 {
            let ghost q0 = queue@;
            proof { lemma_count_false_mark(enq, v as int); }
            queue.push(v);
            proof {
                enq = enq.update(v as int, true);
                assert(queue@ == q0.push(v));
                assert forall|x: int| 0 <= x < n && #[trigger] enq[x] implies queue@.contains(x as usize) by {
                    if x == v as int {
                        assert(queue@[q0.len() as int] == v);
                    } else {
                        let p = choose|p: int| 0 <= p < q0.len() && q0[p] == x as usize;
                        assert(queue@[p] == x as usize);
                    }
                }
            }
        }
        v = v + 1;
    }
    let mut head: usize = 0;
    let mut result: Vec<String> = Vec::new();
    let ghost mut placed: Seq<bool> = none;
    while head < queue.len()
        invariant
            graph.wf(),
            g == graph@,
            g.wf(),
            n == g.nodes.len(),
            indeg@.len() == n,
            enq.len() == n,
            placed.len() == n,
            0 <= head <= queue@.len(),
            queue@.len() + count_false(enq) == n,
            forall|p: int| 0 <= p < queue@.len() ==> (#[trigger] queue@[p]) < n && enq[queue@[p] as int],
            forall|x: int| 0 <= x < n && #[trigger] enq[x] ==> queue@.contains(x as usize),
            forall|p: int, q: int| 0 <= p < queue@.len() && 0 <= q < queue@.len() && p != q ==> #[trigger] queue@[p] != #[trigger] queue@[q],
            forall|x: int| 0 <= x < n ==> (#[trigger] placed[x] <==> exists|p: int| 0 <= p < head && queue@[p] == x as usize),
            forall|x: int| 0 <= x < n ==> #[trigger] indeg@[x] == pending_to(g, placed, g.nodes[x].id, n as int),
            forall|x: int| 0 <= x < n && #[trigger] enq[x] ==> indeg@[x] == 0,
            forall|x: int| 0 <= x < n && !#[trigger] enq[x] ==> indeg@[x] > 0,
            views(result@) == queue@.take(head as int).map_values(|x: usize| g.nodes[x as int].id),
            forall|q: int, u2: int, k2: int|
                #![trigger queue@[q], g.deps[u2][k2]]
                0 <= q < head && 0 <= u2 < n && 0 <= k2 < g.deps[u2].len() && g.deps[u2][k2].successor_id == g.nodes[queue@[q] as int].id
                    ==> exists|p: int| 0 <= p < q && queue@[p] == u2 as usize,
        decreases n - head,
    {
        proof { lemma_count_false_bound(enq); }
        let w = queue[head];
        let ghost placed0 = placed;
        proof {
            assert(!placed[w as int]) by {
                if placed[w as int] {
                    let p = choose|p: int| 0 <= p < head && queue@[p] == w;
                    assert(queue@[p] == queue@[head as int]);
                }
            }
            assert forall|u2: int, k2: int|
                #![trigger g.deps[u2][k2]]
                0 <= u2 < n && 0 <= k2 < g.deps[u2].len() && g.deps[u2][k2].successor_id == g.nodes[w as int].id
                    implies exists|p: int| 0 <= p < head && queue@[p] == u2 as usize by {
                lemma_pending_zero(g, placed, g.nodes[w as int].id, n as int, u2, k2);
            }
            assert forall|x: int| 0 <= x < n implies #[trigger] indeg@[x]
                == pending_to(g, placed.update(w as int, true), g.nodes[x].id, n as int) + count_to(g.deps[w as int], g.nodes[x].id) by {
                lemma_pending_mark(g, placed, g.nodes[x].id, n as int, w as int);
            }
            placed = placed.update(w as int, true);
        }
        let ghost res0 = result@;
        result.push(graph.node_at(w).id.clone());
        proof {
            assert(views(result@) =~= views(res0).push(g.nodes[w as int].id));
            assert(queue@.take(head + 1) =~= queue@.take(head as int).push(w));
            assert(views(result@) =~= queue@.take(head + 1).map_values(|x: usize| g.nodes[x as int].id));
        }
        let ghost qh = queue@;
        let m = graph.dependency_count_at(w);
        let mut k: usize = 0;
        while k < m
            invariant
                graph.wf(),
                g == graph@,
                g.wf(),
                n == g.nodes.len(),
                w < n,
                m == g.deps[w as int].len(),
                0 <= k <= m,
                indeg@.len() == n,
                enq.len() == n,
                placed.len() == n,
                placed[w as int],
                head < queue@.len(),
                queue@[head as int] == w,
                queue@.len() + count_false(enq) == n,
                forall|p: int| 0 <= p < queue@.len() ==> (#[trigger] queue@[p]) < n && enq[queue@[p] as int],
                forall|x: int| 0 <= x < n && #[trigger] enq[x] ==> queue@.contains(x as usize),
                forall|p: int, q: int| 0 <= p < queue@.len() && 0 <= q < queue@.len() && p != q ==> #[trigger] queue@[p] != #[trigger] queue@[q],
                forall|x: int| 0 <= x < n ==> (#[trigger] placed[x] <==> exists|p: int| 0 <= p <= head && queue@[p] == x as usize),
                forall|x: int| 0 <= x < n ==> #[trigger] indeg@[x] + count_to(g.deps[w as int].take(k as int), g.nodes[x].id)
                    == pending_to(g, placed, g.nodes[x].id, n as int) + count_to(g.deps[w as int], g.nodes[x].id),
                forall|x: int| 0 <= x < n && #[trigger] enq[x] ==> indeg@[x] == 0,
                forall|x: int| 0 <= x < n && !#[trigger] enq[x] ==> indeg@[x] > 0,
                forall|p: int| 0 <= p < queue@.len() ==> !placed[#[trigger] queue@[p] as int] ==> p > head,
                qh.len() <= queue@.len(),
                forall|p: int| 0 <= p < qh.len() ==> #[trigger] queue@[p] == qh[p],
                forall|u2: int, k2: int|
                    #![trigger g.deps[u2][k2]]
                    0 <= u2 < n && 0 <= k2 < g.deps[u2].len() && g.deps[u2][k2].successor_id == g.nodes[w as int].id
                        ==> exists|p: int| 0 <= p < head && qh[p] == u2 as usize,
                forall|q: int, u2: int, k2: int|
                    #![trigger qh[q], g.deps[u2][k2]]
                    0 <= q < head && 0 <= u2 < n && 0 <= k2 < g.deps[u2].len() && g.deps[u2][k2].successor_id == g.nodes[qh[q] as int].id
                        ==> exists|p: int| 0 <= p < q && qh[p] == u2 as usize,
                views(result@) == qh.take(head + 1).map_values(|x: usize| g.nodes[x as int].id),
            decreases m - k,
        {
            let s = graph.successor_index_at(w, k);
            let ghost x = g.nodes[s as int].id;
            proof {
                lemma_count_to_take_step(g.deps[w as int], x, k as int);
                lemma_count_to_take_le(g.deps[w as int], x, k + 1);
                assert forall|y: int| 0 <= y < n && y != s implies count_to(g.deps[w as int].take(k + 1), g.nodes[y].id)
                    == count_to(g.deps[w as int].take(k as int), g.nodes[y].id) by {
                    lemma_count_to_take_step(g.deps[w as int], g.nodes[y].id, k as int);
                    if g.deps[w as int][k as int].successor_id == g.nodes[y].id {
                        assert(g.nodes[y].id == g.nodes[s as int].id);
                    }
                }
                assert(indeg@[s as int] > 0);
            }
            let d = indeg[s] - 1;
            indeg.set(s, d);
            if d == 0 {
                let ghost q0 = queue@;
                proof {
                    assert(!enq[s as int]);
                    lemma_count_false_mark(enq, s as int);
                }
                queue.push(s);
                proof {
                    enq = enq.update(s as int, true);
                    assert(queue@ == q0.push(s));
                    assert forall|y: int| 0 <= y < n && #[trigger] enq[y] implies queue@.contains(y as usize) by {
                        if y == s as int {
                            assert(queue@[q0.len() as int] == s);
                        } else {
                            let p = choose|p: int| 0 <= p < q0.len() && q0[p] == y as usize;
                            assert(queue@[p] == y as usize);
                        }
                    }
                    assert forall|p: int, q: int| 0 <= p < queue@.len() && 0 <= q < queue@.len() && p != q implies #[trigger] queue@[p] != #[trigger] queue@[q] by {
                        if p == q0.len() as int && q < q0.len() {
                            assert(enq[q0[q] as int]);
                        } else if q == q0.len() as int && p < q0.len() {
                            assert(enq[q0[p] as int]);
                        }
                    }
                    assert forall|y: int| 0 <= y < n implies (#[trigger] placed[y] <==> exists|p: int| 0 <= p <= head && queue@[p] == y as usize) by {
                        if exists|p: int| 0 <= p <= head && q0[p] == y as usize {
                            let p = choose|p: int| 0 <= p <= head && q0[p] == y as usize;
                            assert(queue@[p] == y as usize);
                        }
                        if exists|p: int| 0 <= p <= head && queue@[p] == y as usize {
                            let p = choose|p: int| 0 <= p <= head && queue@[p] == y as usize;
                            assert(q0[p] == y as usize);
                        }
                    }
                    assert forall|p: int| 0 <= p < queue@.len() implies !placed[#[trigger] queue@[p] as int] ==> p > head by {
                        if p == q0.len() as int {
                            if placed[s as int] {
                                let p2 = choose|p2: int| 0 <= p2 <= head && queue@[p2] == s;
                                assert(enq[q0[p2] as int]);
                            }
                        }
                    }
                }
            }
            k = k + 1;
        }
        proof {
            assert(g.deps[w as int].take(m as int) =~= g.deps[w as int]);
            assert(queue@.take(head + 1) =~= qh.take(head + 1));
            assert forall|q: int, u2: int, k2: int|
                #![trigger queue@[q], g.deps[u2][k2]]
                0 <= q < head + 1 && 0 <= u2 < n && 0 <= k2 < g.deps[u2].len() && g.deps[u2][k2].successor_id == g.nodes[queue@[q] as int].id
                    implies exists|p: int| 0 <= p < q && queue@[p] == u2 as usize by {
                assert(queue@[q] == qh[q]);
                if q == head as int {
                    assert(qh[q] == w);
                    let p = choose|p: int| 0 <= p < head && qh[p] == u2 as usize;
                    assert(queue@[p] == u2 as usize);
                } else {
                    assert(g.deps[u2][k2].successor_id == g.nodes[qh[q] as int].id);
                    let p = choose|p: int| 0 <= p < q && qh[p] == u2 as usize;
                    assert(queue@[p] == u2 as usize);
                }
            }
            assert forall|x: int| 0 <= x < n implies (#[trigger] placed[x] <==> exists|p: int| 0 <= p < head + 1 && queue@[p] == x as usize) by {
                if exists|p: int| 0 <= p <= head && queue@[p] == x as usize {
                    let p = choose|p: int| 0 <= p <= head && queue@[p] == x as usize;
                    assert(0 <= p < head + 1);
                }
            }
        }
        head = head + 1;
    }
    proof { lemma_count_false_bound(enq); }
    if result.len() != n {
        proof {
            assert(count_false(enq) > 0);
            let v0 = choose|i: int| 0 <= i < enq.len() && !enq[i];
            assert forall|x: int| 0 <= x < n implies (#[trigger] placed[x] == enq[x]) by {
                if enq[x] {
                    let p = choose|p: int| 0 <= p < queue@.len() && queue@[p] == x as usize;
                    assert(0 <= p < head);
                }
            }
            assert forall|ids: Seq<Seq<char>>| !is_topological_order(g, ids) by {
                if is_topological_order(g, ids) {
                    assert forall|y: int| 0 <= y < g.nodes.len() && !#[trigger] placed[y]
                        implies pending_to(g, placed, g.nodes[y].id, g.nodes.len() as int) > 0 by {
                        assert(!enq[y]);
                    }
                    assert(ids.contains(g.nodes[v0].id));
                    let p = choose|p: int| 0 <= p < ids.len() && ids[p] == g.nodes[v0].id;
                    lemma_order_all_placed(g, ids, placed, p);
                    lemma_index_of(g, v0);
                }
            }
        }
        return Err(DomainError::validation("dependency_graph", "Circular dependency detected in project"));
    }
    proof {
        let t = views(result@);
        assert(queue@.take(head as int) =~= queue@);
        assert(count_false(enq) == 0);
        assert forall|x: int| 0 <= x < n implies #[trigger] enq[x] by {
            if !enq[x] {
                lemma_count_false_positive(enq, x);
            }
        }
        assert forall|p: int| 0 <= p < t.len() implies g.has_node(#[trigger] t[p]) by {
            assert(t[p] == g.nodes[queue@[p] as int].id);
        }
        assert forall|i2: int| 0 <= i2 < g.nodes.len() implies t.contains(#[trigger] g.nodes[i2].id) by {
            assert(enq[i2]);
            let p = choose|p: int| 0 <= p < queue@.len() && queue@[p] == i2 as usize;
            assert(t[p] == g.nodes[i2].id);
        }
        assert forall|p: int, q: int| 0 <= p < t.len() && 0 <= q < t.len() && p != q implies #[trigger] t[p] != #[trigger] t[q] by {
            assert(queue@[p] != queue@[q]);
            assert(t[p] == g.nodes[queue@[p] as int].id);
            assert(t[q] == g.nodes[queue@[q] as int].id);
        }
        assert forall|p: int, q: int|
            0 <= p < t.len() && 0 <= q < t.len() && g.edge(#[trigger] t[p], #[trigger] t[q]) implies p < q by {
            let (u2, k2) = choose|u2: int, k2: int|
                #![trigger g.deps[u2][k2]]
                0 <= u2 < g.nodes.len() && 0 <= k2 < g.deps[u2].len() && g.nodes[u2].id == t[p]
                    && g.deps[u2][k2].successor_id == t[q];
            assert(t[p] == g.nodes[queue@[p] as int].id);
            assert(t[q] == g.nodes[queue@[q] as int].id);
            assert(u2 == queue@[p] as int);
            assert(queue@[q] < n);
            let p2 = choose|p2: int| 0 <= p2 < q && queue@[p2] == u2 as usize;
            assert(p2 == p);
        }
    }
    Ok(result)
}

proof fn lemma_count_false_all(s: Seq<bool>)
    requires
        forall|i: int| 0 <= i < s.len() ==> !#[trigger] s[i],
    ensures
        count_false(s) == s.len(),
    decreases s.len(),
{
    if s.len() > 0 {
        lemma_count_false_all(s.drop_last());
    }
}

proof fn lemma_count_false_positive(s: Seq<bool>, i: int)
    requires
        0 <= i < s.len(),
        !s[i],
    ensures
        count_false(s) > 0,
    decreases s.len(),
{
    if i < s.len() - 1 {
        lemma_count_false_positive(s.drop_last(), i);
    }
}

// ============================================================================
// CALCULATION TYPES
// ============================================================================

/// The dates calculated for a task.
#[derive(Debug, PartialEq, Eq)]
pub struct CalculationResult {
    pub task_id: String,
    pub calculated_start_date: Option<Date>,
    pub calculated_end_date: Option<Date>,
    pub is_critical: bool,
    /// Total float in days.
    pub total_float: Option<i64>,
    /// Free float in days.
    pub free_float: Option<i64>,
    pub dependencies_satisfied: bool,
    pub calculation_order: usize,
}

impl Clone for CalculationResult {
    fn clone(&self) -> (r: Self)
        ensures
            r == *self,
    {
        CalculationResult {
            task_id: self.task_id.clone(),
            calculated_start_date: self.calculated_start_date,
            calculated_end_date: self.calculated_end_date,
            is_critical: self.is_critical,
            total_float: self.total_float,
            free_float: self.free_float,
            dependencies_satisfied: self.dependencies_satisfied,
            calculation_order: self.calculation_order,
        }
    }
}

/// The text of an optional date: `%Y-%m-%d`, or `N/A`.
pub open spec fn date_text(d: Option<Date>) -> Seq<char> {
    match d {
        Some(x) => crate::dates::iso_text(x.day() as i32),
        None => "N/A"@,
    }
}

/// The rendering of a calculated result.
pub open spec fn result_text(r: CalculationResult) -> Seq<char> {
    "Task "@ + r.task_id@ + ": "@ + date_text(r.calculated_start_date) + " -> "@ + date_text(r.calculated_end_date)
        + " (Critical: "@ + (if r.is_critical { "true"@ } else { "false"@ }) + ", Float: "@ + match r.total_float {
        Some(n) => crate::text::signed_decimal(n as int),
        None => "N/A"@,
    } + " days)"@
}

fn date_string(d: Option<Date>) -> (s: String)
    requires
        d matches Some(x) ==> x.wf(),
    ensures
        s@ == date_text(d),
{
    match d {
        Some(x) => x.to_iso_string(),
        None => String::from_str("N/A"),
    }
}

impl CalculationResult {
    /// The rendering of the result: task, dates, whether it is critical, and its float.
    pub fn to_string(&self) -> (s: String)
        requires
            self.calculated_start_date matches Some(d) ==> d.wf(),
            self.calculated_end_date matches Some(d) ==> d.wf(),
        ensures
            s@ == result_text(*self),
    {
        let critical = if self.is_critical { "true" } else { "false" };
        let float = match self.total_float {
            Some(n) => crate::text::i64_to_text(n),
            None => String::from_str("N/A"),
        };
        String::from_str("Task ").concat(self.task_id.as_str()).concat(": ").concat(
            date_string(self.calculated_start_date).as_str(),
        ).concat(" -> ").concat(date_string(self.calculated_end_date).as_str()).concat(" (Critical: ").concat(
            critical,
        ).concat(", Float: ").concat(float.as_str()).concat(" days)")
    }
}

/// The state of a task during a calculation.
#[derive(Debug, PartialEq, Eq)]
pub enum TaskCalculationStatus {
    /// Every dependency of the task is satisfied.
    Ready,
    /// The task waits for some of its dependencies.
    Waiting,
    /// The task's dates are calculated.
    Calculated,
    /// The calculation of the task failed.
    Error(String),
}

/// The recorded state of one task during a calculation; a later record for the same
/// task overrides an earlier one.
#[derive(Debug)]
pub struct StatusEntry {
    pub task_id: String,
    pub status: TaskCalculationStatus,
}

/// Whether the last record of the task in the board says that it is waiting:
/// `Some(true)` waiting, `Some(false)` another state, `None` no record.
pub open spec fn waiting_status(board: Seq<StatusEntry>, id: Seq<char>) -> Option<bool>
    decreases board.len(),
{
    if board.len() == 0 {
        None
    } else if board.last().task_id@ == id {
        Some(board.last().status == TaskCalculationStatus::Waiting)
    } else {
        waiting_status(board.drop_last(), id)
    }
}

/// Settings of a calculation.
#[derive(Debug, Clone, Copy, PartialEq, Eq)]
pub struct CalculationConfig {
    /// Start date of the project.
    pub project_start_date: Date,
    /// Duration, in days, of a task that has none.
    pub default_task_duration: i64,
    /// Whether only working days count.
    pub working_days_only: bool,
    /// Working hours per day.
    pub working_hours_per_day: u8,
    /// Whether results are cached.
    pub cache_enabled: bool,
}

impl Default for CalculationConfig {
    fn default() -> (c: Self)
        ensures
            c.project_start_date.wf(),
            c.default_task_duration == 1,
            !c.working_days_only,
            c.working_hours_per_day == 8,
            c.cache_enabled,
    {
        CalculationConfig {
            project_start_date: Date::today(),
            default_task_duration: 1,
            working_days_only: false,
            working_hours_per_day: 8,
            cache_enabled: true,
        }
    }
}

// ============================================================================
// SPECIFICATION OF THE CALCULATION
// ============================================================================

/// The day numbers of an optional date.
pub open spec fn opt_day(d: Option<Date>) -> Option<int> {
    match d {
        Some(x) => Some(x.day()),
        None => None,
    }
}

/// The dates of a calculated task, as day numbers.
pub struct DateRow {
    pub id: Seq<char>,
    pub start: Option<int>,
    pub end: Option<int>,
}

/// The dates of a result, as day numbers.
pub open spec fn row_of(r: CalculationResult) -> DateRow {
    DateRow { id: r.task_id@, start: opt_day(r.calculated_start_date), end: opt_day(r.calculated_end_date) }
}

/// The dates of results, as day numbers.
pub open spec fn rows_of(rs: Seq<CalculationResult>) -> Seq<DateRow> {
    rs.map_values(|r: CalculationResult| row_of(r))
}

/// Every date of the results lies in range.
pub open spec fn results_wf(rs: Seq<CalculationResult>) -> bool {
    forall|i: int| 0 <= i < rs.len() ==> {
        &&& (#[trigger] rs[i]).calculated_start_date matches Some(d) ==> d.wf()
        &&& rs[i].calculated_end_date matches Some(d) ==> d.wf()
    }
}

/// The first row of a task.
pub open spec fn lookup(rows: Seq<DateRow>, id: Seq<char>) -> Option<DateRow>
    decreases rows.len(),
{
    if rows.len() == 0 {
        None
    } else if rows[0].id == id {
        Some(rows[0])
    } else {
        lookup(rows.skip(1), id)
    }
}

/// The later of an optional day and a day.
pub open spec fn later_of(a: Option<int>, x: int) -> int {
    match a {
        Some(v) => if v >= x { v } else { x },
        None => x,
    }
}

/// The earlier of an optional day and a day.
pub open spec fn earlier_of(a: Option<int>, x: int) -> int {
    match a {
        Some(v) => if v <= x { v } else { x },
        None => x,
    }
}

/// Whether a kind of dependency constrains the successor's start (rather than its end).
pub open spec fn constrains_start(t: DependencyType) -> bool {
    t == DependencyType::FinishToStart || t == DependencyType::StartToStart
}

/// Whether a kind of dependency counts from the predecessor's end (rather than its start).
pub open spec fn from_predecessor_end(t: DependencyType) -> bool {
    t == DependencyType::FinishToStart || t == DependencyType::FinishToFinish
}

/// The date a dependency imposes, given its predecessor's row, or the error met.
pub open spec fn constraint_of(d: DependencyView, pred: DateRow) -> Result<int, (Seq<char>, Seq<char>)> {
    let base = if from_predecessor_end(d.dependency_type) { pred.end } else { pred.start };
    match base {
        None => if from_predecessor_end(d.dependency_type) {
            Err(("predecessor_end_date"@, "Predecessor end date not available"@))
        } else {
            Err(("predecessor_start_date"@, "Predecessor start date not available"@))
        },
        Some(b) => match lag_applied(d.lag, b) {
            Some(x) => Ok(x),
            None => Err(("lag"@, match d.lag {
                LagType::Positive(_) => "Invalid positive lag duration"@,
                _ => "Invalid negative lag duration"@,
            })),
        },
    }
}

/// Law: a start-to-start or start-to-finish dependency counts from its predecessor's
/// start, and a finish-to-start or finish-to-finish one from its predecessor's end:
/// the date it imposes is that date moved by the lag, and it fails where that date is
/// missing.
pub proof fn lemma_constraint_counts_from_the_right_date(d: DependencyView, pred: DateRow)
    ensures
        (d.dependency_type == DependencyType::StartToStart || d.dependency_type == DependencyType::StartToFinish) ==> {
            &&& pred.start is None ==> constraint_of(d, pred) is Err
            &&& pred.start matches Some(b) ==> (lag_applied(d.lag, b) matches Some(x) ==> constraint_of(d, pred) == Ok::<int, (Seq<char>, Seq<char>)>(x))
            &&& pred.start matches Some(b) ==> (d.lag == LagType::Zero ==> constraint_of(d, pred) == Ok::<int, (Seq<char>, Seq<char>)>(b))
        },
        (d.dependency_type == DependencyType::FinishToStart || d.dependency_type == DependencyType::FinishToFinish) ==> {
            &&& pred.end is None ==> constraint_of(d, pred) is Err
            &&& pred.end matches Some(b) ==> (lag_applied(d.lag, b) matches Some(x) ==> constraint_of(d, pred) == Ok::<int, (Seq<char>, Seq<char>)>(x))
            &&& pred.end matches Some(b) ==> (d.lag == LagType::Zero ==> constraint_of(d, pred) == Ok::<int, (Seq<char>, Seq<char>)>(b))
        },
{
}

/// Law: a task whose only dependency is a start-to-start one without lag starts when
/// its predecessor starts, and ends its duration later.
pub proof fn lemma_single_start_to_start(g: GraphModel, c: CalculationConfig, t: Seq<char>, rows: Seq<DateRow>, b: int)
    requires
        g.has_node(t),
        g.dependents_of(t).len() == 1,
        g.dependents_of(t)[0].dependency_type == DependencyType::StartToStart,
        g.dependents_of(t)[0].lag == LagType::Zero,
        lookup(rows, g.dependents_of(t)[0].predecessor_id) matches Some(p) && p.start == Some(b),
    ensures
        ({
            let dur = match node_duration(g.nodes[g.index_of(t)]) {
                Some(x) => x as int,
                None => c.default_task_duration as int,
            };
            &&& in_range(b + dur) ==> task_outcome(g, c, t, rows) == Ok::<Option<(int, int)>, (Seq<char>, Seq<char>)>(Some((b, b + dur)))
            &&& !in_range(b + dur) ==> task_outcome(g, c, t, rows) is Err
        }),
{
    let deps = g.dependents_of(t);
    lemma_constraint_counts_from_the_right_date(deps[0], lookup(rows, deps[0].predecessor_id)->Some_0);
    assert(all_predecessors_calculated(deps, rows));
    assert(fold_constraints(deps, rows, 0) == Ok::<(Option<int>, Option<int>), (Seq<char>, Seq<char>)>((None, None)));
    assert(fold_constraints(deps, rows, 1) == Ok::<(Option<int>, Option<int>), (Seq<char>, Seq<char>)>((Some(b), None)));
}

/// The latest start and latest end imposed by the first `k` dependencies, or the
/// first error met.
pub open spec fn fold_constraints(deps: Seq<DependencyView>, rows: Seq<DateRow>, k: int)
    -> Result<(Option<int>, Option<int>), (Seq<char>, Seq<char>)>
    decreases k,
{
    if k <= 0 {
        Ok((None, None))
    } else {
        match fold_constraints(deps, rows, k - 1) {
            Err(e) => Err(e),
            Ok((ls, le)) => {
                let d = deps[k - 1];
                match lookup(rows, d.predecessor_id) {
                    None => Err(("predecessor"@, "Predecessor "@ + d.predecessor_id + " not calculated"@)),
                    Some(p) => match constraint_of(d, p) {
                        Err(e) => Err(e),
                        Ok(x) => if constrains_start(d.dependency_type) {
                            Ok((Some(later_of(ls, x)), le))
                        } else {
                            Ok((ls, Some(later_of(le, x))))
                        },
                    },
                }
            },
        }
    }
}

/// Whether every predecessor of the dependencies has a row.
pub open spec fn all_predecessors_calculated(deps: Seq<DependencyView>, rows: Seq<DateRow>) -> bool {
    forall|k: int| 0 <= k < deps.len() ==> lookup(rows, (#[trigger] deps[k]).predecessor_id) is Some
}

/// The message of a calculated date out of range.
pub open spec fn date_range_error() -> (Seq<char>, Seq<char>) {
    ("date"@, "Calculated date is out of range"@)
}

/// What calculating one task gives: `Ok(None)` while some predecessor has no row,
/// `Ok(Some((start, end)))` once its dates are known, or the error met.
pub open spec fn task_outcome(g: GraphModel, c: CalculationConfig, t: Seq<char>, rows: Seq<DateRow>)
    -> Result<Option<(int, int)>, (Seq<char>, Seq<char>)>
{
    if !g.has_node(t) {
        Err(("task_id"@, "Task "@ + t + " not found"@))
    } else {
        let deps = g.dependents_of(t);
        if !all_predecessors_calculated(deps, rows) {
            Ok(None)
        } else {
            match fold_constraints(deps, rows, deps.len() as int) {
                Err(e) => Err(e),
                Ok((ls, le)) => {
                    let start = match ls { Some(s) => s, None => c.project_start_date.day() };
                    let dur = match node_duration(g.nodes[g.index_of(t)]) {
                        Some(d) => d as int,
                        None => c.default_task_duration as int,
                    };
                    if !in_range(start + dur) {
                        Err(date_range_error())
                    } else {
                        Ok(Some((start, later_of(le, start + dur))))
                    }
                },
            }
        }
    }
}

/// The rows that calculating the first `i` tasks of `order` produces, or the first error.
pub open spec fn run_dates(g: GraphModel, c: CalculationConfig, order: Seq<Seq<char>>, i: int)
    -> Result<Seq<DateRow>, (Seq<char>, Seq<char>)>
    decreases i,
{
    if i <= 0 {
        Ok(Seq::empty())
    } else {
        match run_dates(g, c, order, i - 1) {
            Err(e) => Err(e),
            Ok(rows) => match task_outcome(g, c, order[i - 1], rows) {
                Err(e) => Err(e),
                Ok(None) => Ok(rows),
                Ok(Some((s, e))) => Ok(rows.push(DateRow { id: order[i - 1], start: Some(s), end: Some(e) })),
            },
        }
    }
}

/// The latest end date among the first `k` rows.
pub open spec fn latest_end(rows: Seq<DateRow>, k: int) -> Option<int>
    decreases k,
{
    if k <= 0 {
        None
    } else {
        match rows[k - 1].end {
            Some(e) => Some(later_of(latest_end(rows, k - 1), e)),
            None => latest_end(rows, k - 1),
        }
    }
}

/// The end of the project: the latest end date, or the project's start when no task has one.
pub open spec fn project_end(rows: Seq<DateRow>, c: CalculationConfig) -> int {
    match latest_end(rows, rows.len() as int) {
        Some(e) => e,
        None => c.project_start_date.day(),
    }
}

/// The earliest start among the successors of the first `k` dependencies.
pub open spec fn earliest_successor_start(deps: Seq<DependencyView>, rows: Seq<DateRow>, k: int) -> Option<int>
    decreases k,
{
    if k <= 0 {
        None
    } else {
        match lookup(rows, deps[k - 1].successor_id) {
            Some(r) => match r.start {
                Some(s) => Some(earlier_of(earliest_successor_start(deps, rows, k - 1), s)),
                None => earliest_successor_start(deps, rows, k - 1),
            },
            None => earliest_successor_start(deps, rows, k - 1),
        }
    }
}

/// The total float of the task of a row: the days from its end to the earliest start
/// of its successors, or to the end of the project when it has none.
pub open spec fn total_float_of(g: GraphModel, rows: Seq<DateRow>, c: CalculationConfig, r: DateRow) -> Option<int> {
    match r.end {
        None => None,
        Some(e) => {
            let deps = g.dependencies_of(r.id);
            match earliest_successor_start(deps, rows, deps.len() as int) {
                Some(s) => Some(s - e),
                None => Some(project_end(rows, c) - e),
            }
        },
    }
}

// ============================================================================
// LOOKUPS
// ============================================================================

/// The fold at one more dependency, from the fold before it.
proof fn lemma_fold_step(deps: Seq<DependencyView>, rows: Seq<DateRow>, k: int)
    requires
        0 <= k,
    ensures
        fold_constraints(deps, rows, k + 1) == match fold_constraints(deps, rows, k) {
            Err(e) => Err(e),
            Ok((ls, le)) => {
                let d = deps[k];
                match lookup(rows, d.predecessor_id) {
                    None => Err(("predecessor"@, "Predecessor "@ + d.predecessor_id + " not calculated"@)),
                    Some(p) => match constraint_of(d, p) {
                        Err(e) => Err(e),
                        Ok(x) => if constrains_start(d.dependency_type) {
                            Ok((Some(later_of(ls, x)), le))
                        } else {
                            Ok((ls, Some(later_of(le, x))))
                        },
                    },
                }
            },
        },
{
}

/// Once the fold meets an error, it keeps it.
proof fn lemma_fold_err_stays(deps: Seq<DependencyView>, rows: Seq<DateRow>, k: int, n: int)
    requires
        0 <= k <= n,
    ensures
        fold_constraints(deps, rows, k) is Err ==> fold_constraints(deps, rows, n) == fold_constraints(deps, rows, k),
    decreases n - k,
{
    if k < n {
        lemma_fold_err_stays(deps, rows, k + 1, n);
    }
}

proof fn lemma_lookup_first(rows: Seq<DateRow>, id: Seq<char>, i: int)
    requires
        0 <= i < rows.len(),
        rows[i].id == id,
        forall|j: int| 0 <= j < i ==> rows[j].id != id,
    ensures
        lookup(rows, id) == Some(rows[i]),
    decreases i,
{
    if i > 0 {
        assert forall|j: int| 0 <= j < i - 1 implies rows.skip(1)[j].id != id by {
            assert(rows.skip(1)[j] == rows[j + 1]);
        }
        lemma_lookup_first(rows.skip(1), id, i - 1);
    }
}

proof fn lemma_lookup_none(rows: Seq<DateRow>, id: Seq<char>)
    requires
        forall|j: int| 0 <= j < rows.len() ==> rows[j].id != id,
    ensures
        lookup(rows, id) is None,
    decreases rows.len(),
{
    if rows.len() > 0 {
        assert forall|j: int| 0 <= j < rows.len() - 1 implies rows.skip(1)[j].id != id by {
            assert(rows.skip(1)[j] == rows[j + 1]);
        }
        lemma_lookup_none(rows.skip(1), id);
    }
}

/// The position of the first result of a task.
pub(crate) fn find_result(results: &Vec<CalculationResult>, id: &str) -> (r: Option<usize>)
    ensures
        match r {
            Some(i) => i < results@.len() && lookup(rows_of(results@), id@) == Some(row_of(results@[i as int]))
                && results@[i as int].task_id@ == id@,
            None => lookup(rows_of(results@), id@) is None,
        },
{
    let ghost rows = rows_of(results@);
    let mut i: usize = 0;
    while i < results.len()
        invariant
            rows == rows_of(results@),
            0 <= i <= results.len(),
            forall|j: int| 0 <= j < i ==> rows[j].id != id@,
        decreases results.len() - i,
    {
        if str_eq(results[i].task_id.as_str(), id) {
            proof { lemma_lookup_first(rows, id@, i as int); }
            return Some(i);
        }
        i = i + 1;
    }
    proof { lemma_lookup_none(rows, id@); }
    None
}

// ============================================================================
// THE ENGINE
// ============================================================================

/// Calculates task dates from the dependencies between tasks.
#[derive(Debug)]
pub struct DependencyCalculationEngine {
    config: CalculationConfig,
    cache: Vec<CalculationResult>,
    calculation_order: Vec<String>,
}

impl DependencyCalculationEngine {
    /// The invariant of the engine: a valid start date and an empty cache.
    pub closed spec fn wf(&self) -> bool {
        &&& self.config.project_start_date.wf()
        &&& self.cache@.len() == 0
    }

    /// The settings of the engine.
    pub closed spec fn settings(&self) -> CalculationConfig {
        self.config
    }

    /// The order of the tasks in the last calculation.
    pub closed spec fn order(&self) -> Seq<Seq<char>> {
        views(self.calculation_order@)
    }

    /// A new engine with the given settings.
    pub fn new(config: CalculationConfig) -> (e: DependencyCalculationEngine)
        requires
            config.project_start_date.wf(),
        ensures
            e.wf(),
            e.settings() == config,
            e.order().len() == 0,
    {
        DependencyCalculationEngine { config, cache: Vec::new(), calculation_order: Vec::new() }
    }

    /// A new engine with the default settings.
    pub fn with_default_config() -> (e: DependencyCalculationEngine)
        ensures
            e.wf(),
            e.settings().default_task_duration == 1,
            !e.settings().working_days_only,
            e.settings().working_hours_per_day == 8,
            e.settings().cache_enabled,
            e.order().len() == 0,
    {
        Self::new(CalculationConfig::default())
    }

    /// The settings of the engine.
    pub fn config(&self) -> (c: &CalculationConfig)
        ensures
            *c == self.settings(),
    {
        &self.config
    }

    /// Replaces the settings; the cache is cleared when caching is off.
    pub fn update_config(&mut self, config: CalculationConfig)
        requires
            old(self).wf(),
            config.project_start_date.wf(),
        ensures
            final(self).wf(),
            final(self).settings() == config,
            final(self).order() == old(self).order(),
    {
        self.config = config;
        if !self.config.cache_enabled {
            self.cache.clear();
        }
    }

    /// Clears the cache.
    pub fn clear_cache(&mut self)
        requires
            old(self).wf(),
        ensures
            final(self).wf(),
            final(self).settings() == old(self).settings(),
            final(self).order() == old(self).order(),
    {
        self.cache.clear();
    }

    /// The number of cached results and the number of tasks in the last calculation.
    pub fn cache_stats(&self) -> (r: (usize, usize))
        requires
            self.wf(),
        ensures
            r.0 == 0,
            r.1 == self.order().len(),
    {
        (self.cache.len(), self.calculation_order.len())
    }

    /// The latest start and end that the dependencies impose, and from them the dates
    /// of the task.
    fn calculate_dates_from_dependencies(
        &self,
        task: &TaskNode,
        dependencies: &Vec<&AdvancedDependency>,
        calculated_results: &Vec<CalculationResult>,
    ) -> (r: Result<(Option<Date>, Option<Date>), DomainError>)
        requires
            self.wf(),
            results_wf(calculated_results@),
            task.start_date matches Some(s) ==> s.wf(),
            task.end_date matches Some(e) ==> e.wf(),
        ensures
            match fold_constraints(dependencies@.map_values(|d: &AdvancedDependency| d@), rows_of(calculated_results@), dependencies@.len() as int) {
                Err((f, m)) => r matches Err(e) && e.is_validation(f, m),
                Ok((ls, le)) => {
                    let start = match ls { Some(s) => s, None => self.settings().project_start_date.day() };
                    let dur = match node_duration(task@) { Some(d) => d as int, None => self.settings().default_task_duration as int };
                    if !in_range(start + dur) {
                        r matches Err(e) && e.is_validation(date_range_error().0, date_range_error().1)
                    } else {
                        r matches Ok((Some(s), Some(e))) && s.day() == start && e.day() == later_of(le, start + dur)
                            && s.wf() && e.wf()
                    }
                },
            },
    {
        let ghost deps = dependencies@.map_values(|d: &AdvancedDependency| d@);
        let ghost rows = rows_of(calculated_results@);
        let mut latest_start: Option<Date> = None;
        let mut latest_end: Option<Date> = None;
        let mut k: usize = 0;
        while k < dependencies.len()
            invariant
                self.wf(),
                results_wf(calculated_results@),
                deps == dependencies@.map_values(|d: &AdvancedDependency| d@),
                rows == rows_of(calculated_results@),
                0 <= k <= dependencies.len(),
                fold_constraints(deps, rows, k as int) == Ok::<(Option<int>, Option<int>), (Seq<char>, Seq<char>)>((opt_day(latest_start), opt_day(latest_end))),
                latest_start matches Some(d) ==> d.wf(),
                latest_end matches Some(d) ==> d.wf(),
            decreases dependencies.len() - k,
        {
            let dep = dependencies[k];
            assert(deps[k as int] == dep@);
            proof {
                lemma_fold_step(deps, rows, k as int);
                lemma_fold_err_stays(deps, rows, k + 1, dependencies@.len() as int);
            }
            let pi = match find_result(calculated_results, dep.predecessor_id.as_str()) {
                None => {
                    let message = String::from_str("Predecessor ").concat(dep.predecessor_id.as_str()).concat(" not calculated");
                    return Err(DomainError::ValidationError { field: String::from_str("predecessor"), message });
                },
                Some(i) => i,
            };
            let pred = &calculated_results[pi];
            let from_end = match dep.dependency_type {
                DependencyType::FinishToStart => true,
                DependencyType::FinishToFinish => true,
                _ => false,
            };
            let base = if from_end {
                match pred.calculated_end_date {
                    None => { return Err(DomainError::validation("predecessor_end_date", "Predecessor end date not available")); },
                    Some(d) => d,
                }
            } else {
                match pred.calculated_start_date {
                    None => { return Err(DomainError::validation("predecessor_start_date", "Predecessor start date not available")); },
                    Some(d) => d,
                }
            };
            let adjusted = match dep.lag.apply_to_date(base) {
                Err(e) => { return Err(e); },
                Ok(d) => d,
            };
            let starts = match dep.dependency_type {
                DependencyType::FinishToStart => true,
                DependencyType::StartToStart => true,
                _ => false,
            };
            if starts {
                latest_start = Some(match latest_start {
                    Some(current) => current.later(adjusted),
                    None => adjusted,
                });
            } else {
                latest_end = Some(match latest_end {
                    Some(current) => current.later(adjusted),
                    None => adjusted,
                });
            }
            k = k + 1;
        }
        let start_date = match latest_start {
            Some(s) => s,
            None => self.config.project_start_date,
        };
        let duration = match task.calculate_duration() {
            Some(d) => d,
            None => self.config.default_task_duration,
        };
        let calculated_end_date = match start_date.checked_shift(duration) {
            None => { return Err(DomainError::validation("date", "Calculated date is out of range")); },
            Some(d) => d,
        };
        let final_end_date = match latest_end {
            Some(dep_end) => calculated_end_date.later(dep_end),
            None => calculated_end_date,
        };
        Ok((Some(start_date), Some(final_end_date)))
    }

    /// Calculates the dates of one task from the results of its predecessors; `None`
    /// (with the task recorded as waiting) while some predecessor has no result.
    pub fn calculate_task_dates(
        &self,
        task_id: &str,
        graph: &AdvancedDependencyGraph,
        calculated_results: &Vec<CalculationResult>,
        task_status: &mut Vec<StatusEntry>,
        order: usize,
    ) -> (r: Result<Option<CalculationResult>, DomainError>)
        requires
            self.wf(),
            graph.wf(),
            results_wf(calculated_results@),
        ensures
            match task_outcome(graph@, self.settings(), task_id@, rows_of(calculated_results@)) {
                Err((f, m)) => r matches Err(e) && e.is_validation(f, m) && final(task_status)@ == old(task_status)@,
                Ok(None) => r matches Ok(None) && waiting_status(final(task_status)@, task_id@) == Some(true)
                    && forall|other: Seq<char>| other != task_id@ ==> #[trigger] waiting_status(final(task_status)@, other)
                        == waiting_status(old(task_status)@, other),
                Ok(Some((s, e))) => r matches Ok(Some(res)) && res.task_id@ == task_id@
                    && opt_day(res.calculated_start_date) == Some(s) && opt_day(res.calculated_end_date) == Some(e)
                    && results_wf(seq![res])
                    && !res.is_critical && res.total_float is None && res.free_float is None
                    && res.dependencies_satisfied && res.calculation_order == order
                    && final(task_status)@ == old(task_status)@,
            },
    {
        if self.config.cache_enabled {
            match find_result(&self.cache, task_id) {
                Some(i) => { return Ok(Some(self.cache[i].clone())); },
                None => {},
            }
        }
        let ti = match graph.index_of_task(task_id) {
            None => {
                let message = String::from_str("Task ").concat(task_id).concat(" not found");
                return Err(DomainError::ValidationError { field: String::from_str("task_id"), message });
            },
            Some(i) => i,
        };
        let task = graph.node_at(ti);
        let dependencies = graph.get_dependents(task_id);
        let ghost deps = dependencies@.map_values(|d: &AdvancedDependency| d@);
        let ghost rows = rows_of(calculated_results@);
        let mut all_dependencies_satisfied = true;
        let mut k: usize = 0;
        while k < dependencies.len()
            invariant
                deps == dependencies@.map_values(|d: &AdvancedDependency| d@),
                rows == rows_of(calculated_results@),
                0 <= k <= dependencies.len(),
                all_dependencies_satisfied == forall|j: int| 0 <= j < k ==> lookup(rows, (#[trigger] deps[j]).predecessor_id) is Some,
            decreases dependencies.len() - k,
        {
            assert(deps[k as int] == dependencies@[k as int]@);
            if find_result(calculated_results, dependencies[k].predecessor_id.as_str()).is_none() {
                all_dependencies_satisfied = false;
            }
            k = k + 1;
        }
        if !all_dependencies_satisfied {
            let ghost board0 = task_status@;
            task_status.push(StatusEntry { task_id: String::from_str(task_id), status: TaskCalculationStatus::Waiting });
            proof {
                assert(task_status@.drop_last() == board0);
                assert forall|other: Seq<char>| other != task_id@ implies #[trigger] waiting_status(task_status@, other)
                    == waiting_status(board0, other) by {
                }
            }
            return Ok(None);
        }
        let (start_date, end_date) = match self.calculate_dates_from_dependencies(task, &dependencies, calculated_results) {
            Err(e) => { return Err(e); },
            Ok(p) => p,
        };
        let result = CalculationResult {
            task_id: String::from_str(task_id),
            calculated_start_date: start_date,
            calculated_end_date: end_date,
            is_critical: false,
            total_float: None,
            free_float: None,
            dependencies_satisfied: all_dependencies_satisfied,
            calculation_order: order,
        };
        Ok(Some(result))
    }
}

/// Every dependency whose successor is `t` comes from a task of the graph.
proof fn lemma_dependents_edge(g: GraphModel, t: Seq<char>, i: int, k: int)
    requires
        g.wf(),
        0 <= i <= g.nodes.len(),
        0 <= k < g.dependents_upto(t, i).len(),
    ensures
        g.dependents_upto(t, i)[k].successor_id == t,
        g.edge(g.dependents_upto(t, i)[k].predecessor_id, t),
        g.has_node(g.dependents_upto(t, i)[k].predecessor_id),
    decreases i,
{
    let prev = g.dependents_upto(t, i - 1);
    let f = g.deps[i - 1].filter(|d: DependencyView| d.successor_id == t);
    assert(g.dependents_upto(t, i) == prev + f);
    if k < prev.len() {
        lemma_dependents_edge(g, t, i - 1, k);
        assert(g.dependents_upto(t, i)[k] == prev[k]);
    } else {
        let j = k - prev.len();
        let d = f[j];
        assert(g.dependents_upto(t, i)[k] == d);
        g.deps[i - 1].lemma_filter_pred(|d: DependencyView| d.successor_id == t, j);
        assert(f.contains(d));
        g.deps[i - 1].lemma_filter_contains_rev(|d: DependencyView| d.successor_id == t, d);
        let k2 = choose|k2: int| 0 <= k2 < g.deps[i - 1].len() && #[trigger] g.deps[i - 1][k2] == d;
        assert(g.deps[i - 1][k2] == d);
        assert(g.edge(g.nodes[i - 1].id, t));
        assert(g.has_node(g.nodes[i - 1].id));
    }
}

proof fn lemma_lookup_some(rows: Seq<DateRow>, id: Seq<char>, j: int)
    requires
        0 <= j < rows.len(),
        rows[j].id == id,
    ensures
        lookup(rows, id) is Some,
    decreases j,
{
    if j > 0 && rows[0].id != id {
        assert(rows.skip(1)[j - 1] == rows[j]);
        lemma_lookup_some(rows.skip(1), id, j - 1);
    }
}

/// Once the calculation meets an error, it keeps it.
proof fn lemma_run_err_stays(g: GraphModel, c: CalculationConfig, order: Seq<Seq<char>>, k: int, n: int)
    requires
        0 <= k <= n,
    ensures
        run_dates(g, c, order, k) is Err ==> run_dates(g, c, order, n) == run_dates(g, c, order, k),
    decreases n - k,
{
    if k < n {
        lemma_run_err_stays(g, c, order, k + 1, n);
    }
}

/// The latest end among the first `k` rows, given the rows of results.
proof fn lemma_latest_end_step(rows: Seq<DateRow>, k: int)
    requires
        0 <= k < rows.len(),
    ensures
        latest_end(rows, k + 1) == match rows[k].end {
            Some(e) => Some(later_of(latest_end(rows, k), e)),
            None => latest_end(rows, k),
        },
{
}

/// The option of days as `i64`.
pub open spec fn opt_days(o: Option<i64>) -> Option<int> {
    match o {
        Some(x) => Some(x as int),
        None => None,
    }
}

impl DependencyCalculationEngine {
    /// Orders the tasks so that each predecessor comes before its successors.
    pub fn topological_sort(&self, graph: &AdvancedDependencyGraph) -> (r: Result<Vec<String>, DomainError>)
        requires
            graph.wf(),
        ensures
            match r {
                Ok(ids) => is_topological_order(graph@, views(ids@)),
                Err(e) => e.is_validation("dependency_graph"@, "Circular dependency detected in project"@)
                    && forall|ids: Seq<Seq<char>>| !is_topological_order(graph@, ids),
            },
    {
        topological_order(graph)
    }

    /// The end of the project: the latest calculated end, or the project's start.
    fn project_end_date(&self, results: &Vec<CalculationResult>) -> (d: Date)
        requires
            self.wf(),
            results_wf(results@),
        ensures
            d.day() == project_end(rows_of(results@), self.settings()),
            d.wf(),
    {
        let ghost rows = rows_of(results@);
        let mut latest: Option<Date> = None;
        let mut i: usize = 0;
        while i < results.len()
            invariant
                self.wf(),
                results_wf(results@),
                rows == rows_of(results@),
                0 <= i <= results.len(),
                opt_day(latest) == latest_end(rows, i as int),
                latest matches Some(x) ==> x.wf(),
            decreases results.len() - i,
        {
            proof { lemma_latest_end_step(rows, i as int); }
            match results[i].calculated_end_date {
                Some(e) => {
                    latest = Some(match latest {
                        Some(cur) => cur.later(e),
                        None => e,
                    });
                },
                None => {},
            }
            i = i + 1;
        }
        match latest {
            Some(x) => x,
            None => self.config.project_start_date,
        }
    }

    /// The earliest start among the successors of a task's dependencies.
    fn earliest_successor(&self, graph: &AdvancedDependencyGraph, task_id: &str, results: &Vec<CalculationResult>) -> (r: Option<Date>)
        requires
            graph.wf(),
            results_wf(results@),
        ensures
            opt_day(r) == earliest_successor_start(graph@.dependencies_of(task_id@), rows_of(results@),
                graph@.dependencies_of(task_id@).len() as int),
            r matches Some(x) ==> x.wf(),
    {
        let deps = graph.get_dependencies(task_id);
        let ghost dv = deps@.map_values(|d: &AdvancedDependency| d@);
        let ghost rows = rows_of(results@);
        let mut min_start: Option<Date> = None;
        let mut k: usize = 0;
        while k < deps.len()
            invariant
                results_wf(results@),
                dv == deps@.map_values(|d: &AdvancedDependency| d@),
                rows == rows_of(results@),
                0 <= k <= deps.len(),
                opt_day(min_start) == earliest_successor_start(dv, rows, k as int),
                min_start matches Some(x) ==> x.wf(),
            decreases deps.len() - k,
        {
            assert(dv[k as int] == deps@[k as int]@);
            match find_result(results, deps[k].successor_id.as_str()) {
                Some(j) => {
                    match results[j].calculated_start_date {
                        Some(s) => {
                            min_start = Some(match min_start {
                                Some(cur) => cur.earlier(s),
                                None => s,
                            });
                        },
                        None => {},
                    }
                },
                None => {},
            }
            k = k + 1;
        }
        min_start
    }

    /// Sets the total float of every result, and marks as critical those without float.
    fn calculate_floats_and_critical_path(
        &self,
        results: &mut Vec<CalculationResult>,
        graph: &AdvancedDependencyGraph,
    ) -> (r: Result<(), DomainError>)
        requires
            self.wf(),
            graph.wf(),
            results_wf(old(results)@),
        ensures
            r is Ok,
            final(results)@.len() == old(results)@.len(),
            rows_of(final(results)@) == rows_of(old(results)@),
            results_wf(final(results)@),
            forall|j: int| 0 <= j < old(results)@.len() ==> {
                let o = #[trigger] old(results)@[j];
                let f = final(results)@[j];
                &&& f.task_id == o.task_id
                &&& f.calculated_start_date == o.calculated_start_date
                &&& f.calculated_end_date == o.calculated_end_date
                &&& f.free_float == o.free_float
                &&& f.dependencies_satisfied == o.dependencies_satisfied
                &&& f.calculation_order == o.calculation_order
                &&& match total_float_of(graph@, rows_of(old(results)@), self.settings(), row_of(o)) {
                    Some(x) => opt_days(f.total_float) == Some(x) && f.is_critical == (x == 0),
                    None => f.total_float == o.total_float && f.is_critical == o.is_critical,
                }
            },
    {
        let ghost rows = rows_of(results@);
        let ghost old_results = results@;
        let project_end_date = self.project_end_date(results);
        let mut idx = results.len();
        while idx > 0
            invariant
                self.wf(),
                graph.wf(),
                results@.len() == old_results.len(),
                rows_of(results@) == rows,
                rows == rows_of(old_results),
                results_wf(results@),
                0 <= idx <= results@.len(),
                project_end_date.day() == project_end(rows, self.settings()),
                project_end_date.wf(),
                forall|j: int| 0 <= j < old_results.len() ==> {
                    let o = #[trigger] old_results[j];
                    let f = results@[j];
                    &&& f.task_id == o.task_id
                    &&& f.calculated_start_date == o.calculated_start_date
                    &&& f.calculated_end_date == o.calculated_end_date
                    &&& f.free_float == o.free_float
                    &&& f.dependencies_satisfied == o.dependencies_satisfied
                    &&& f.calculation_order == o.calculation_order
                    &&& if j >= idx {
                        match total_float_of(graph@, rows, self.settings(), row_of(o)) {
                            Some(x) => opt_days(f.total_float) == Some(x) && f.is_critical == (x == 0),
                            None => f.total_float == o.total_float && f.is_critical == o.is_critical,
                        }
                    } else {
                        f.total_float == o.total_float && f.is_critical == o.is_critical
                    }
                },
            decreases idx,
        {
            idx = idx - 1;
            let ghost before = results@;
            proof {
                assert(old_results[idx as int] == before[idx as int] || true);
                assert(row_of(before[idx as int]) == rows[idx as int]);
            }
            let task_id = results[idx].task_id.clone();
            let successor_start = self.earliest_successor(graph, task_id.as_str(), results);
            let end = results[idx].calculated_end_date;
            let update: Option<i64> = match successor_start {
                Some(s) => match end {
                    Some(e) => Some(s.days_since(&e)),
                    None => None,
                },
                None => match end {
                    Some(e) => Some(project_end_date.days_since(&e)),
                    None => None,
                },
            };
            match update {
                Some(f) => {
                    results[idx].total_float = Some(f);
                    results[idx].is_critical = f == 0;
                },
                None => {},
            }
            proof {
                assert forall|j: int| 0 <= j < results@.len() && j != idx implies #[trigger] results@[j] == before[j] by {}
                assert(rows_of(results@) =~= rows);
            }
        }
        Ok(())
    }

    /// Calculates the dates of every task: orders the tasks, calculates each from its
    /// predecessors, then sets floats and marks the critical tasks.
    pub fn calculate_project_dates(&mut self, graph: &AdvancedDependencyGraph) -> (r: Result<Vec<CalculationResult>, DomainError>)
        requires
            old(self).wf(),
            graph.wf(),
        ensures
            final(self).wf(),
            final(self).settings() == old(self).settings(),
            match r {
                Ok(results) => {
                    let order = final(self).order();
                    &&& is_topological_order(graph@, order)
                    &&& run_dates(graph@, final(self).settings(), order, order.len() as int) == Ok::<Seq<DateRow>, (Seq<char>, Seq<char>)>(rows_of(results@))
                    &&& results@.len() == order.len()
                    &&& results_wf(results@)
                    &&& forall|j: int| 0 <= j < results@.len() ==> {
                        let res = #[trigger] results@[j];
                        &&& res.task_id@ == order[j]
                        &&& res.calculation_order == j
                        &&& res.dependencies_satisfied
                        &&& res.free_float is None
                        &&& match total_float_of(graph@, rows_of(results@), final(self).settings(), row_of(res)) {
                            Some(x) => opt_days(res.total_float) == Some(x) && res.is_critical == (x == 0),
                            None => res.total_float is None && !res.is_critical,
                        }
                    }
                },
                Err(e) => {
                    ||| (forall|ids: Seq<Seq<char>>| !is_topological_order(graph@, ids))
                        && e.is_validation("dependency_graph"@, "Circular dependency detected in project"@)
                        && final(self).order() == old(self).order()
                    ||| is_topological_order(graph@, final(self).order())
                        && (run_dates(graph@, final(self).settings(), final(self).order(), final(self).order().len() as int)
                            matches Err((f, m)) && e.is_validation(f, m))
                },
            },
    {
        if !self.config.cache_enabled {
            self.cache.clear();
        }
        match graph.validate() {
            Err(e) => { return Err(e); },
            Ok(()) => {},
        }
        let sorted = match self.topological_sort(graph) {
            Err(e) => { return Err(e); },
            Ok(s) => s,
        };
        let ghost t = views(sorted@);
        let mut order_copy: Vec<String> = Vec::new();
        let mut i: usize = 0;
        while i < sorted.len()
            invariant
                0 <= i <= sorted.len(),
                views(order_copy@) == views(sorted@).take(i as int),
            decreases sorted.len() - i,
        {
            let ghost oc0 = order_copy@;
            order_copy.push(sorted[i].clone());
            proof {
                assert(views(order_copy@) =~= views(oc0).push(sorted@[i as int]@));
                assert(views(sorted@).take(i + 1) =~= views(sorted@).take(i as int).push(sorted@[i as int]@));
            }
            i = i + 1;
        }
        assert(views(sorted@).take(sorted.len() as int) =~= views(sorted@));
        self.calculation_order = order_copy;
        proof { graph.lemma_wf(); }
        let ghost g = graph@;
        let ghost c = self.config;
        let mut results: Vec<CalculationResult> = Vec::new();
        let mut board: Vec<StatusEntry> = Vec::new();
        assert(rows_of(results@) =~= Seq::<DateRow>::empty());
        let mut i: usize = 0;
        while i < sorted.len()
            invariant
                self.wf(),
                c == old(self).settings(),
                graph.wf(),
                g == graph@,
                g.wf(),
                c == self.settings(),
                t == views(sorted@),
                t == self.order(),
                is_topological_order(g, t),
                0 <= i <= sorted.len(),
                results_wf(results@),
                run_dates(g, c, t, i as int) == Ok::<Seq<DateRow>, (Seq<char>, Seq<char>)>(rows_of(results@)),
                results@.len() == i,
                forall|j: int| 0 <= j < i ==> {
                    let res = #[trigger] results@[j];
                    &&& res.task_id@ == t[j]
                    &&& res.calculation_order == j
                    &&& res.dependencies_satisfied
                    &&& res.free_float is None
                    &&& res.total_float is None
                    &&& !res.is_critical
                },
            decreases sorted.len() - i,
        {
            let ghost rows = rows_of(results@);
            proof {
                let ti = t[i as int];
                assert(g.has_node(ti));
                let deps = g.dependents_of(ti);
                assert forall|k: int| 0 <= k < deps.len() implies lookup(rows, (#[trigger] deps[k]).predecessor_id) is Some by {
                    lemma_dependents_edge(g, ti, g.nodes.len() as int, k);
                    let p = deps[k].predecessor_id;
                    assert(t.contains(g.nodes[g.index_of(p)].id));
                    let q = choose|q: int| 0 <= q < t.len() && t[q] == g.nodes[g.index_of(p)].id;
                    assert(t[q] == p);
                    assert(g.edge(t[q], t[i as int]));
                    assert(q < i);
                    assert(rows[q].id == results@[q].task_id@);
                    lemma_lookup_some(rows, p, q);
                }
            }
            let outcome = self.calculate_task_dates(sorted[i].as_str(), graph, &results, &mut board, i);
            match outcome {
                Err(e) => {
                    proof {
                        lemma_run_err_stays(g, c, t, i + 1, t.len() as int);
                    }
                    return Err(e);
                },
                Ok(None) => {
                    proof { assert(false); }
                },
                Ok(Some(res)) => {
                    let ghost before = results@;
                    results.push(res);
                    proof {
                        assert(rows_of(results@) =~= rows.push(row_of(results@[i as int])));
                        assert forall|j: int| 0 <= j < i + 1 implies {
                            let res = #[trigger] results@[j];
                            &&& res.task_id@ == t[j]
                            &&& res.calculation_order == j
                            &&& res.dependencies_satisfied
                            &&& res.free_float is None
                            &&& res.total_float is None
                            &&& !res.is_critical
                        } by {
                            if j < i {
                                assert(results@[j] == before[j]);
                            }
                        }
                        assert forall|j: int| 0 <= j < results@.len() implies {
                            &&& (#[trigger] results@[j]).calculated_start_date matches Some(d) ==> d.wf()
                            &&& results@[j].calculated_end_date matches Some(d) ==> d.wf()
                        } by {
                            if j < i {
                                assert(results@[j] == before[j]);
                            } else {
                                assert(seq![results@[j]][0] == results@[j]);
                            }
                        }
                    }
                },
            }
            i = i + 1;
        }
        let ghost unfloated = results@;
        match self.calculate_floats_and_critical_path(&mut results, graph) {
            Err(e) => { return Err(e); },
            Ok(()) => {},
        }
        proof {
            assert forall|j: int| 0 <= j < results@.len() implies {
                let res = #[trigger] results@[j];
                &&& res.task_id@ == t[j]
                &&& res.calculation_order == j
                &&& res.dependencies_satisfied
                &&& res.free_float is None
                &&& match total_float_of(g, rows_of(results@), c, row_of(res)) {
                    Some(x) => opt_days(res.total_float) == Some(x) && res.is_critical == (x == 0),
                    None => res.total_float is None && !res.is_critical,
                }
            } by {
                let o = unfloated[j];
                assert(row_of(results@[j]) == rows_of(results@)[j]);
                assert(row_of(o) == rows_of(unfloated)[j]);
            }
        }
        Ok(results)
    }

    /// A node met for the first time at position `i` is not among the tasks that were
    /// collected from the nodes before it.
    proof fn lemma_fresh_id(g: GraphModel, r0: Seq<String>, p: int, i: int, t: Seq<char>)
        requires
            g.wf(),
            0 <= p < r0.len(),
            0 <= i < g.nodes.len(),
            g.nodes[i].id != t,
            r0[p]@ != t,
            forall|x: Seq<char>| x != t ==> (views(r0).contains(x) <==>
                exists|j: int| 0 <= j < i && #[trigger] g.nodes[j].id == x && g.reaches(t, x)),
        ensures
            r0[p]@ != g.nodes[i].id,
    {
        let xi = g.nodes[i].id;
        if r0[p]@ == xi {
            assert(views(r0)[p] == xi);
            assert(views(r0).contains(xi));
            let j = choose|j: int| 0 <= j < i && #[trigger] g.nodes[j].id == xi && g.reaches(t, xi);
            assert(g.nodes[j].id == g.nodes[i].id);
        }
    }

    /// The tasks that a change of `task_id` affects: the task itself and every task
    /// that a chain of dependencies leads to from it.
    pub fn find_affected_tasks(&self, task_id: &str, graph: &AdvancedDependencyGraph) -> (r: Vec<String>)
        requires
            graph.wf(),
        ensures
            views(r@).contains(task_id@),
            forall|x: Seq<char>| x != task_id@ ==> (views(r@).contains(x) <==> graph@.has_node(x) && graph@.reaches(task_id@, x)),
            forall|p: int, q: int| 0 <= p < r@.len() && 0 <= q < r@.len() && p != q ==> #[trigger] r@[p]@ != #[trigger] r@[q]@,
    {
        proof { graph.lemma_wf(); }
        let ghost g = graph@;
        let mut r: Vec<String> = Vec::new();
        r.push(String::from_str(task_id));
        let n = graph.node_count();
        let mut i: usize = 0;
        while i < n
            invariant
                graph.wf(),
                g == graph@,
                g.wf(),
                n == g.nodes.len(),
                0 <= i <= n,
                r@.len() >= 1,
                r@[0]@ == task_id@,
                forall|x: Seq<char>| x != task_id@ ==> (views(r@).contains(x) <==>
                    exists|j: int| 0 <= j < i && #[trigger] g.nodes[j].id == x && g.reaches(task_id@, x)),
                forall|p: int, q: int| 0 <= p < r@.len() && 0 <= q < r@.len() && p != q ==> #[trigger] r@[p]@ != #[trigger] r@[q]@,
            decreases n - i,
        {
            let node = graph.node_at(i);
            let ghost r0 = r@;
            if !str_eq(node.id.as_str(), task_id) && graph.is_predecessor(task_id, node.id.as_str()) {
                r.push(node.id.clone());
                proof {
                    assert(views(r@) =~= views(r0).push(g.nodes[i as int].id));
                    assert forall|p: int, q: int| 0 <= p < r@.len() && 0 <= q < r@.len() && p != q implies #[trigger] r@[p]@ != #[trigger] r@[q]@ by {
                        if q == r0.len() && p == 0 {
                            assert(r@[p] == r0[0]);
                        } else if p == r0.len() && q == 0 {
                            assert(r@[q] == r0[0]);
                        } else if q == r0.len() && p >= 1 {
                            assert(r0[p] == r@[p]);
                            Self::lemma_fresh_id(g, r0, p, i as int, task_id@);
                        } else if p == r0.len() && q >= 1 {
                            assert(r0[q] == r@[q]);
                            Self::lemma_fresh_id(g, r0, q, i as int, task_id@);
                        } else if p < r0.len() && q < r0.len() {
                            assert(r@[p] == r0[p] && r@[q] == r0[q]);
                        }
                    }
                    assert forall|x: Seq<char>| x != task_id@ implies (views(r@).contains(x) <==>
                        exists|j: int| 0 <= j < i + 1 && #[trigger] g.nodes[j].id == x && g.reaches(task_id@, x)) by {
                        let xi = g.nodes[i as int].id;
                        assert(g.reaches(task_id@, xi));
                        if views(r@).contains(x) {
                            let p = choose|p: int| 0 <= p < views(r@).len() && views(r@)[p] == x;
                            if p < r0.len() {
                                assert(views(r0)[p] == x);
                                assert(views(r0).contains(x));
                                let j = choose|j: int| 0 <= j < i && #[trigger] g.nodes[j].id == x && g.reaches(task_id@, x);
                                assert(0 <= j < i + 1 && g.nodes[j].id == x && g.reaches(task_id@, x));
                            } else {
                                assert(x == xi);
                                assert(0 <= i < i + 1 && g.nodes[i as int].id == x && g.reaches(task_id@, x));
                            }
                        }
                        if exists|j: int| 0 <= j < i + 1 && #[trigger] g.nodes[j].id == x && g.reaches(task_id@, x) {
                            let j = choose|j: int| 0 <= j < i + 1 && #[trigger] g.nodes[j].id == x && g.reaches(task_id@, x);
                            if j == i as int {
                                assert(views(r@)[r0.len() as int] == x);
                            } else {
                                assert(exists|j2: int| 0 <= j2 < i && #[trigger] g.nodes[j2].id == x && g.reaches(task_id@, x));
                                assert(views(r0).contains(x));
                                let p = choose|p: int| 0 <= p < views(r0).len() && views(r0)[p] == x;
                                assert(views(r@)[p] == x);
                            }
                        }
                    }
                }
            } else {
                proof {
                    assert forall|x: Seq<char>| x != task_id@ implies (views(r@).contains(x) <==>
                        exists|j: int| 0 <= j < i + 1 && #[trigger] g.nodes[j].id == x && g.reaches(task_id@, x)) by {
                        if exists|j: int| 0 <= j < i + 1 && #[trigger] g.nodes[j].id == x && g.reaches(task_id@, x) {
                            let j = choose|j: int| 0 <= j < i + 1 && #[trigger] g.nodes[j].id == x && g.reaches(task_id@, x);
                            if j == i as int {
                                assert(false);
                            }
                        }
                    }
                }
            }
            i = i + 1;
        }
        proof {
            assert(views(r@)[0] == task_id@);
            assert forall|x: Seq<char>| x != task_id@ implies (views(r@).contains(x) <==> g.has_node(x) && g.reaches(task_id@, x)) by {
                if g.has_node(x) && g.reaches(task_id@, x) {
                    let j = choose|j: int| 0 <= j < g.nodes.len() && #[trigger] g.nodes[j].id == x;
                }
            }
        }
        r
    }

    /// Recalculates the project after a change of one task.
    pub fn recalculate_affected_tasks(&mut self, modified_task_id: &str, graph: &AdvancedDependencyGraph)
        -> (r: Result<Vec<CalculationResult>, DomainError>)
        requires
            old(self).wf(),
            graph.wf(),
        ensures
            final(self).wf(),
            final(self).settings() == old(self).settings(),
            match r {
                Ok(results) => {
                    let order = final(self).order();
                    &&& is_topological_order(graph@, order)
                    &&& run_dates(graph@, final(self).settings(), order, order.len() as int) == Ok::<Seq<DateRow>, (Seq<char>, Seq<char>)>(rows_of(results@))
                    &&& results@.len() == order.len()
                },
                Err(e) => {
                    ||| (forall|ids: Seq<Seq<char>>| !is_topological_order(graph@, ids))
                        && e.is_validation("dependency_graph"@, "Circular dependency detected in project"@)
                    ||| is_topological_order(graph@, final(self).order())
                        && (run_dates(graph@, final(self).settings(), final(self).order(), final(self).order().len() as int)
                            matches Err((f, m)) && e.is_validation(f, m))
                },
            },
    {
        let affected = self.find_affected_tasks(modified_task_id, graph);
        let mut k: usize = 0;
        while k < affected.len()
            invariant
                self.wf(),
                self.settings() == old(self).settings(),
                0 <= k <= affected.len(),
            decreases affected.len() - k,
        {
            match find_result(&self.cache, affected[k].as_str()) {
                Some(i) => { self.cache.remove(i); },
                None => {},
            }
            k = k + 1;
        }
        self.calculate_project_dates(graph)
    }
}

} // verus!
