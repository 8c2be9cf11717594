//! Reachability over adjacency lists: what a path is, what follows from
//! one, and a breadth-first search that finds all a module can reach.

use vstd::prelude::*;
use crate::graph::{ModuleId, lists_of, with_member};

verus! {

/// Every edge end names a position of the list.
pub open spec fn adj_wf(adj: Seq<Seq<ModuleId>>) -> bool {
    forall|i: int, k: int|
        0 <= i < adj.len() && 0 <= k < adj[i].len() ==> (#[trigger] adj[i][k]).0 < adj.len()
}

/// There is an edge from `a` to `b`.
pub open spec fn step(adj: Seq<Seq<ModuleId>>, a: ModuleId, b: ModuleId) -> bool {
    a.0 < adj.len() && b.0 < adj.len() && adj[a.0 as int].contains(b)
}

/// `p` walks along edges, from its first module to its last.
pub open spec fn is_path(adj: Seq<Seq<ModuleId>>, p: Seq<ModuleId>) -> bool {
    &&& p.len() > 0
    &&& p[0].0 < adj.len()
    &&& forall|i: int| 0 <= i < p.len() - 1 ==> step(adj, #[trigger] p[i], p[i + 1])
}

/// `p` is a path from `a` to `b`.
pub open spec fn path_between(
    adj: Seq<Seq<ModuleId>>,
    p: Seq<ModuleId>,
    a: ModuleId,
    b: ModuleId,
) -> bool {
    is_path(adj, p) && p[0] == a && p.last() == b
}

/// `b` can be reached from `a` along edges; every module reaches itself.
pub open spec fn reaches(adj: Seq<Seq<ModuleId>>, a: ModuleId, b: ModuleId) -> bool {
    exists|p: Seq<ModuleId>| path_between(adj, p, a, b)
}

/// Every module reaches itself.
pub proof fn lemma_reaches_self(adj: Seq<Seq<ModuleId>>, a: ModuleId)
    requires
        a.0 < adj.len(),
    ensures
        reaches(adj, a, a),
{
    assert(path_between(adj, seq![a], a, a));
}

/// A path can be extended by one edge.
pub proof fn lemma_reaches_step(adj: Seq<Seq<ModuleId>>, a: ModuleId, b: ModuleId, c: ModuleId)
    requires
        reaches(adj, a, b),
        step(adj, b, c),
    ensures
        reaches(adj, a, c),
{
    let p = choose|p: Seq<ModuleId>| path_between(adj, p, a, b);
    let q = p.push(c);
    assert forall|i: int| 0 <= i < q.len() - 1 implies step(adj, #[trigger] q[i], q[i + 1]) by {
        if i < p.len() - 1 {
            assert(step(adj, p[i], p[i + 1]));
        }
    }
    assert(path_between(adj, q, a, c));
}

/// The two ends of a path are modules of the graph.
pub proof fn lemma_reaches_valid(adj: Seq<Seq<ModuleId>>, a: ModuleId, b: ModuleId)
    requires
        reaches(adj, a, b),
    ensures
        a.0 < adj.len(),
        b.0 < adj.len(),
{
    let p = choose|p: Seq<ModuleId>| path_between(adj, p, a, b);
    if p.len() > 1 {
        assert(step(adj, p[p.len() - 2], p[p.len() - 2 + 1]));
    }
}

/// A set that holds `a` and, with each module, all that it has an edge to,
/// holds all that `a` reaches.
pub proof fn lemma_reaches_closed(
    adj: Seq<Seq<ModuleId>>,
    s: Set<ModuleId>,
    a: ModuleId,
    b: ModuleId,
)
    requires
        s.contains(a),
        forall|u: ModuleId, v: ModuleId| s.contains(u) && #[trigger] step(adj, u, v) ==> s.contains(v),
        reaches(adj, a, b),
    ensures
        s.contains(b),
{
    let p = choose|p: Seq<ModuleId>| path_between(adj, p, a, b);
    lemma_path_in_closed(adj, s, p, p.len() - 1);
}

proof fn lemma_path_in_closed(adj: Seq<Seq<ModuleId>>, s: Set<ModuleId>, p: Seq<ModuleId>, k: int)
    requires
        is_path(adj, p),
        s.contains(p[0]),
        forall|u: ModuleId, v: ModuleId| s.contains(u) && #[trigger] step(adj, u, v) ==> s.contains(v),
        0 <= k < p.len(),
    ensures
        s.contains(p[k]),
    decreases k,
{
    if k > 0 {
        lemma_path_in_closed(adj, s, p, k - 1);
        assert(step(adj, p[k - 1], p[k - 1 + 1]));
    }
}

/// `b` can be reached from `a` along edges without entering a module of
/// `avoid`: there is a path from `a` to `b` none of whose modules is in
/// `avoid`.
pub open spec fn reaches_avoiding(
    adj: Seq<Seq<ModuleId>>,
    avoid: Set<ModuleId>,
    a: ModuleId,
    b: ModuleId,
) -> bool {
    exists|p: Seq<ModuleId>| path_between(adj, p, a, b) && path_avoids(p, avoid)
}

/// No module of the path is in `avoid`.
pub open spec fn path_avoids(p: Seq<ModuleId>, avoid: Set<ModuleId>) -> bool {
    forall|k: int| 0 <= k < p.len() ==> !avoid.contains(#[trigger] p[k])
}

/// A module outside `avoid` reaches itself.
pub proof fn lemma_avoiding_self(adj: Seq<Seq<ModuleId>>, avoid: Set<ModuleId>, a: ModuleId)
    requires
        a.0 < adj.len(),
        !avoid.contains(a),
    ensures
        reaches_avoiding(adj, avoid, a, a),
{
    let p = seq![a];
    assert(path_between(adj, p, a, a) && path_avoids(p, avoid));
}

/// A path that avoids `avoid` can be extended by an edge to a module
/// outside `avoid`.
pub proof fn lemma_avoiding_step(
    adj: Seq<Seq<ModuleId>>,
    avoid: Set<ModuleId>,
    a: ModuleId,
    b: ModuleId,
    c: ModuleId,
)
    requires
        reaches_avoiding(adj, avoid, a, b),
        step(adj, b, c),
        !avoid.contains(c),
    ensures
        reaches_avoiding(adj, avoid, a, c),
{
    let p = choose|p: Seq<ModuleId>| path_between(adj, p, a, b) && path_avoids(p, avoid);
    let q = p.push(c);
    assert forall|i: int| 0 <= i < q.len() - 1 implies step(adj, #[trigger] q[i], q[i + 1]) by {
        if i < p.len() - 1 {
            assert(step(adj, p[i], p[i + 1]));
        }
    }
    assert forall|k: int| 0 <= k < q.len() implies !avoid.contains(#[trigger] q[k]) by {
        if k < p.len() {
            assert(q[k] == p[k]);
        }
    }
    assert(path_between(adj, q, a, c) && path_avoids(q, avoid));
}

/// What is reached without entering `avoid` is reached, and is not in
/// `avoid`.
pub proof fn lemma_avoiding_reaches(
    adj: Seq<Seq<ModuleId>>,
    avoid: Set<ModuleId>,
    a: ModuleId,
    b: ModuleId,
)
    requires
        reaches_avoiding(adj, avoid, a, b),
    ensures
        reaches(adj, a, b),
        !avoid.contains(b),
        !avoid.contains(a),
{
    let p = choose|p: Seq<ModuleId>| path_between(adj, p, a, b) && path_avoids(p, avoid);
    assert(!avoid.contains(p[p.len() - 1]));
    assert(!avoid.contains(p[0]));
}

/// A set that holds `a` and, with each module, all that it has an edge to
/// outside `avoid`, holds all that `a` reaches without entering `avoid`.
pub proof fn lemma_avoiding_closed(
    adj: Seq<Seq<ModuleId>>,
    avoid: Set<ModuleId>,
    s: Set<ModuleId>,
    a: ModuleId,
    b: ModuleId,
)
    requires
        s.contains(a),
        forall|u: ModuleId, v: ModuleId|
            s.contains(u) && #[trigger] step(adj, u, v) && !avoid.contains(v) ==> s.contains(v),
        reaches_avoiding(adj, avoid, a, b),
    ensures
        s.contains(b),
{
    let p = choose|p: Seq<ModuleId>| path_between(adj, p, a, b) && path_avoids(p, avoid);
    lemma_avoiding_path_in(adj, avoid, s, p, p.len() - 1);
}

proof fn lemma_avoiding_path_in(
    adj: Seq<Seq<ModuleId>>,
    avoid: Set<ModuleId>,
    s: Set<ModuleId>,
    p: Seq<ModuleId>,
    k: int,
)
    requires
        is_path(adj, p),
        path_avoids(p, avoid),
        s.contains(p[0]),
        forall|u: ModuleId, v: ModuleId|
            s.contains(u) && #[trigger] step(adj, u, v) && !avoid.contains(v) ==> s.contains(v),
        0 <= k < p.len(),
    ensures
        s.contains(p[k]),
    decreases k,
{
    if k > 0 {
        lemma_avoiding_path_in(adj, avoid, s, p, k - 1);
        assert(step(adj, p[k - 1], p[k - 1 + 1]));
        assert(!avoid.contains(p[k]));
    }
}

/// The number of positions that are not marked.
pub open spec fn unmarked(marks: Seq<bool>) -> nat
    decreases marks.len(),
{
    if marks.len() == 0 {
        0
    } else {
        unmarked(marks.drop_last()) + if marks.last() {
            0nat
        } else {
            1nat
        }
    }
}

/// Marking a position that was not marked leaves one fewer unmarked.
pub proof fn lemma_unmarked_mark(marks: Seq<bool>, i: int)
    requires
        0 <= i < marks.len(),
        !marks[i],
    ensures
        unmarked(marks.update(i, true)) + 1 == unmarked(marks),
    decreases marks.len(),
{
    let after = marks.update(i, true);
    if i == marks.len() - 1 {
        assert(after.drop_last() =~= marks.drop_last());
    } else {
        assert(after.drop_last() =~= marks.drop_last().update(i, true));
        lemma_unmarked_mark(marks.drop_last(), i);
    }
}

/// Where marks are only added, no more positions are unmarked than before.
pub proof fn lemma_unmarked_grows(before: Seq<bool>, after: Seq<bool>)
    requires
        before.len() == after.len(),
        forall|i: int| 0 <= i < before.len() && before[i] ==> after[i],
    ensures
        unmarked(after) <= unmarked(before),
    decreases before.len(),
{
    if before.len() > 0 {
        lemma_unmarked_grows(before.drop_last(), after.drop_last());
    }
}

/// `list` with each of the first `upto` of `more` put at its end in turn,
/// unless the list holds it by then.
pub open spec fn with_all(list: Seq<ModuleId>, more: Seq<ModuleId>, upto: int) -> Seq<ModuleId>
    decreases upto,
{
    if upto <= 0 {
        list
    } else {
        with_member(with_all(list, more, upto - 1), more[upto - 1])
    }
}

/// A breadth-first search, after `steps` more modules of `order` were
/// looked at, from position `head` on: looking at a module puts the
/// modules that it has edges to at the end of the order, in the order of
/// its edges, unless the order holds them.
pub open spec fn search(adj: Seq<Seq<ModuleId>>, order: Seq<ModuleId>, head: int, steps: nat) -> Seq<
    ModuleId,
>
    decreases steps,
{
    if steps == 0 || head < 0 || head >= order.len() || order[head].0 >= adj.len() {
        order
    } else {
        let edges = adj[order[head].0 as int];
        search(adj, with_all(order, edges, edges.len() as int), head + 1, (steps - 1) as nat)
    }
}

/// The modules that `start` reaches, in the order in which a
/// breadth-first search meets them.
pub open spec fn search_order(adj: Seq<Seq<ModuleId>>, start: ModuleId) -> Seq<ModuleId> {
    search(adj, seq![start], 0, adj.len())
}

/// Where nothing is marked, every position is unmarked.
pub proof fn lemma_unmarked_all(marks: Seq<bool>)
    requires
        forall|i: int| 0 <= i < marks.len() ==> !marks[i],
    ensures
        unmarked(marks) == marks.len(),
    decreases marks.len(),
{
    if marks.len() > 0 {
        lemma_unmarked_all(marks.drop_last());
    }
}

/// All modules that `start` reaches along the edges of `adj`, each once,
/// in the order in which a breadth-first search meets them.
pub fn reachable_from(adj: &Vec<Vec<ModuleId>>, start: ModuleId) -> (order: Vec<ModuleId>)
    requires
        adj_wf(lists_of(adj@)),
        start.0 < adj.len(),
    ensures
        order@ == search_order(lists_of(adj@), start),
        order@.no_duplicates(),
        order@.len() > 0,
        order@[0] == start,
        forall|v: ModuleId| order@.contains(v) <==> reaches(lists_of(adj@), start, v),
{
    let ghost g = lists_of(adj@);
    let n = adj.len();
    let mut marks: Vec<bool> = vec![false; n];
    let mut order: Vec<ModuleId> = Vec::new();
    proof {
        lemma_unmarked_all(marks@);
        lemma_unmarked_mark(marks@, start.0 as int);
    }
    marks[start.0] = true;
    order.push(start);
    assert(order@ =~= seq![start]);
    proof {
        lemma_reaches_self(g, start);
        assert forall|v: ModuleId| v.0 < n implies (marks@[v.0 as int] <==> order@.contains(v)) by {
            if v == start {
                assert(order@[0] == v);
            }
        }
    }
    let mut head: usize = 0;
    while head < order.len()
        invariant
            g == lists_of(adj@),
            adj_wf(g),
            n == adj.len(),
            marks.len() == n,
            head <= order.len(),
            order@.len() > 0,
            order@[0] == start,
            order@.no_duplicates(),
            forall|k: int| 0 <= k < order.len() ==> (#[trigger] order@[k]).0 < n && reaches(g, start, order@[k]),
            forall|v: ModuleId| v.0 < n ==> (marks@[v.0 as int] <==> order@.contains(v)),
            forall|k: int, b: ModuleId| 0 <= k < head && #[trigger] step(g, order@[k], b) ==> marks@[b.0 as int],
            order.len() + unmarked(marks@) == n,
            search(g, order@, head as int, (n - head) as nat) == search_order(g, start),
        decreases 2 * unmarked(marks@) + (order.len() - head),
    {
        let node = order[head];
        let deps = &adj[node.0];
        let ghost marks_before = marks@;
        let ghost len_before = order.len();
        let ghost order_at_entry = order@;
        assert(with_all(order_at_entry, g[node.0 as int], 0) == order_at_entry);
        let mut j: usize = 0;
        while j < deps.len()
            invariant
                g == lists_of(adj@),
                adj_wf(g),
                n == adj.len(),
                marks.len() == n,
                head < order.len(),
                node == order@[head as int],
                node.0 < n,
                deps@ == g[node.0 as int],
                j <= deps.len(),
                order@.len() > 0,
                order@[0] == start,
                order@.no_duplicates(),
                forall|k: int| 0 <= k < order.len() ==> (#[trigger] order@[k]).0 < n && reaches(g, start, order@[k]),
                forall|v: ModuleId| v.0 < n ==> (marks@[v.0 as int] <==> order@.contains(v)),
                forall|k: int, b: ModuleId| 0 <= k < head && #[trigger] step(g, order@[k], b) ==> marks@[b.0 as int],
                forall|i: int| 0 <= i < j ==> marks@[deps@[i].0 as int],
                2 * unmarked(marks@) + order.len() <= 2 * unmarked(marks_before) + len_before,
                order.len() + unmarked(marks@) == n,
                order@ == with_all(order_at_entry, deps@, j as int),
            decreases deps.len() - j,
        {
            let dep = deps[j];
            assert(dep.0 < n) by {
                assert(g[node.0 as int][j as int] == dep);
            }
            assert(marks@[dep.0 as int] <==> order@.contains(dep));
            if !marks[dep.0] {
                proof {
                    lemma_unmarked_mark(marks@, dep.0 as int);
                    assert(step(g, node, dep));
                    lemma_reaches_step(g, start, node, dep);
                }
                let ghost order_before = order@;
                assert(!order_before.contains(dep));
                marks[dep.0] = true;
                order.push(dep);
                proof {
                    assert forall|a: int, b: int|
                        0 <= a < order@.len() && 0 <= b < order@.len() && a != b implies order@[a]
                        != order@[b] by {
                        if a < order_before.len() && b < order_before.len() {
                        } else if a < order_before.len() {
                            assert(order_before[a] != dep);
                        } else {
                            assert(order_before[b] != dep);
                        }
                    }
                    assert forall|v: ModuleId| v.0 < n implies (marks@[v.0 as int]
                        <==> order@.contains(v)) by {
                        if v == dep {
                            assert(order@.last() == dep);
                        } else {
                            if order_before.contains(v) {
                                let k = choose|k: int| 0 <= k < order_before.len() && order_before[k] == v;
                                assert(order@[k] == v);
                            }
                        }
                    }
                }
            }
            j += 1;
        }
        proof {
            assert forall|b: ModuleId| #[trigger] step(g, node, b) implies marks@[b.0 as int] by {
                let i = choose|i: int| 0 <= i < deps@.len() && deps@[i] == b;
                assert(marks@[deps@[i].0 as int]);
            }
        }
        head += 1;
    }
    proof {
        let s = Set::new(|v: ModuleId| order@.contains(v));
        assert forall|v: ModuleId| reaches(g, start, v) implies order@.contains(v) by {
            assert(s.contains(start));
            assert forall|u: ModuleId, w: ModuleId| s.contains(u) && #[trigger] step(g, u, w) implies s.contains(w) by {
                let k = choose|k: int| 0 <= k < order@.len() && order@[k] == u;
                assert(marks@[w.0 as int]);
            }
            lemma_reaches_closed(g, s, start, v);
        }
    }
    order
}

} // verus!
