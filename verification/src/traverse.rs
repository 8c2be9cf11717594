//! The two traversals of the graph: the order in which the modules of a
//! bundle are written, and the entry points that a change reaches.

use vstd::prelude::*;
use crate::graph::{GraphView, ModuleGraph, ModuleId, edge_list_wf, lists_of};
use crate::reach::{
    adj_wf,
    reachable_from,
    reaches,
    search_order,
    step,
    unmarked,
    lemma_reaches_closed,
    lemma_reaches_self,
    lemma_reaches_step,
    lemma_reaches_valid,
    lemma_unmarked_grows,
    lemma_unmarked_mark,
};

verus! {

/// The state of a depth-first walk: the modules that were entered, and
/// those that were left, in the order in which they were left.
pub struct Walk {
    pub seen: Set<ModuleId>,
    pub out: Seq<ModuleId>,
}

/// The walk after `node` was visited: nothing changes where `node` was
/// entered before; else `node` is entered, the modules it imports are
/// visited in the order in which the edges were added, and `node` is left.
/// `depth` bounds how deep the walk goes; a depth of the number of modules
/// is never reached.
pub open spec fn walk_node(adj: Seq<Seq<ModuleId>>, depth: nat, node: ModuleId, walk: Walk) -> Walk
    decreases depth, 0nat,
{
    if depth == 0 || walk.seen.contains(node) || node.0 >= adj.len() {
        walk
    } else {
        let inner = walk_children(
            adj,
            (depth - 1) as nat,
            node,
            0,
            Walk { seen: walk.seen.insert(node), out: walk.out },
        );
        Walk { seen: inner.seen, out: inner.out.push(node) }
    }
}

/// The walk after the imports of `node` were visited, from the `from`-th
/// on.
pub open spec fn walk_children(
    adj: Seq<Seq<ModuleId>>,
    depth: nat,
    node: ModuleId,
    from: int,
    walk: Walk,
) -> Walk
    decreases depth, 1 + (if node.0 < adj.len() && 0 <= from < adj[node.0 as int].len() {
        adj[node.0 as int].len() - from
    } else {
        0
    }),
{
    if from < 0 || node.0 >= adj.len() || from >= adj[node.0 as int].len() {
        walk
    } else {
        walk_children(
            adj,
            depth,
            node,
            from + 1,
            walk_node(adj, depth, adj[node.0 as int][from], walk),
        )
    }
}

/// The modules that `root` reaches, in the order in which a depth-first
/// walk leaves them: every module after the modules it imports, as far as
/// they were not entered before, and the imports of a module in the order
/// in which its edges were added.
pub open spec fn post_order(adj: Seq<Seq<ModuleId>>, root: ModuleId) -> Seq<ModuleId> {
    walk_node(adj, adj.len(), root, Walk { seen: Set::empty(), out: Seq::empty() }).out
}

/// The modules that are marked.
pub open spec fn marked(marks: Seq<bool>) -> Set<ModuleId> {
    Set::new(|v: ModuleId| v.0 < marks.len() && marks[v.0 as int])
}

/// The walk that has entered the marked modules and left `out`.
pub open spec fn walk_of(marks: Seq<bool>, out: Seq<ModuleId>) -> Walk {
    Walk { seen: marked(marks), out }
}

/// No more positions are unmarked than there are positions.
proof fn lemma_unmarked_bound(marks: Seq<bool>)
    ensures
        unmarked(marks) <= marks.len(),
    decreases marks.len(),
{
    if marks.len() > 0 {
        lemma_unmarked_bound(marks.drop_last());
    }
}

/// `order` lists all that `root` reaches, each module once and `root` last,
/// and every module after those of its imports that do not lead back to it.
pub open spec fn post_order_of(adj: Seq<Seq<ModuleId>>, root: ModuleId, order: Seq<ModuleId>) -> bool {
    &&& order.no_duplicates()
    &&& forall|v: ModuleId| order.contains(v) <==> reaches(adj, root, v)
    &&& order.len() > 0
    &&& order.last() == root
    &&& forall|i: int, j: int|
        0 <= i < order.len() && 0 <= j < order.len() && #[trigger] step(adj, order[i], order[j])
            && !reaches(adj, order[j], order[i]) ==> j < i
}

impl GraphView {
    /// `v` is an entry point that a change of `changed` reaches: a module
    /// that nothing imports and that imports `changed`, directly or not, or
    /// is `changed` itself.
    pub open spec fn affected_root(self, changed: ModuleId, v: ModuleId) -> bool {
        reaches(self.incoming, changed, v) && self.incoming[v.0 as int].len() == 0
    }

    /// Those of the first `upto` modules of `order` that nothing imports, in
    /// their order.
    pub open spec fn entries_among(self, order: Seq<ModuleId>, upto: int) -> Seq<ModuleId>
        decreases upto,
    {
        if upto <= 0 {
            Seq::empty()
        } else {
            let rest = self.entries_among(order, upto - 1);
            if self.incoming[order[upto - 1].0 as int].len() == 0 {
                rest.push(order[upto - 1])
            } else {
                rest
            }
        }
    }

    /// What `find_affected_roots` returns: the modules that nothing
    /// imports, among those that a breadth-first search along the importers
    /// of `changed` meets, in the order of the search; `changed` alone where
    /// there is none; nothing for an id that names no module.
    pub open spec fn affected_roots(self, changed: ModuleId) -> Seq<ModuleId> {
        if !self.valid(changed) {
            Seq::empty()
        } else {
            let order = search_order(self.incoming, changed);
            let found = self.entries_among(order, order.len() as int);
            if found.len() == 0 {
                seq![changed]
            } else {
                found
            }
        }
    }

    /// What holds of the roots that `find_affected_roots` returns: they are
    /// the entry points that a change reaches, each once; `changed` alone
    /// where there is none; nothing for an id that names no module.
    pub open spec fn affected_roots_are(self, changed: ModuleId, roots: Seq<ModuleId>) -> bool {
        if !self.valid(changed) {
            roots.len() == 0
        } else if exists|v: ModuleId| self.affected_root(changed, v) {
            &&& roots.no_duplicates()
            &&& forall|v: ModuleId| roots.contains(v) <==> self.affected_root(changed, v)
        } else {
            roots == seq![changed]
        }
    }
}

/// In a well-formed graph every edge end names a module.
pub proof fn lemma_graph_adj_wf(g: GraphView)
    requires
        g.wf(),
    ensures
        adj_wf(g.outgoing),
        adj_wf(g.incoming),
{
    assert forall|i: int, k: int| 0 <= i < g.outgoing.len() && 0 <= k < g.outgoing[i].len() implies (
    #[trigger] g.outgoing[i][k]).0 < g.outgoing.len() by {
        assert(edge_list_wf(g.outgoing[i], i, g.len()));
    }
    assert forall|i: int, k: int| 0 <= i < g.incoming.len() && 0 <= k < g.incoming[i].len() implies (
    #[trigger] g.incoming[i][k]).0 < g.incoming.len() by {
        assert(edge_list_wf(g.incoming[i], i, g.len()));
    }
}

/// What holds while a depth-first search runs: `out` holds the finished
/// modules, `stack` those entered and not yet finished.
spec fn dfs_inv(
    adj: Seq<Seq<ModuleId>>,
    root: ModuleId,
    marks: Seq<bool>,
    out: Seq<ModuleId>,
    stack: Seq<ModuleId>,
) -> bool {
    &&& marks.len() == adj.len()
    &&& out.no_duplicates()
    &&& forall|k: int| 0 <= k < out.len() ==> (#[trigger] out[k]).0 < adj.len()
    &&& forall|k: int|
        0 <= k < stack.len() ==> (#[trigger] stack[k]).0 < adj.len() && !out.contains(stack[k])
    &&& forall|v: ModuleId|
        v.0 < adj.len() ==> (#[trigger] marks[v.0 as int] <==> out.contains(v) || stack.contains(v))
    &&& forall|v: ModuleId| v.0 < adj.len() && #[trigger] marks[v.0 as int] ==> reaches(adj, root, v)
    &&& forall|k: int, b: ModuleId|
        0 <= k < out.len() && #[trigger] step(adj, out[k], b) ==> marks[b.0 as int] && (reaches(
            adj,
            b,
            out[k],
        ) || earlier(out, k, b))
}

/// `b` stands in `out` before position `k`.
spec fn earlier(out: Seq<ModuleId>, k: int, b: ModuleId) -> bool {
    exists|j: int| 0 <= j < k && j < out.len() && out[j] == b
}

impl ModuleGraph {
    /// Visits what `node` reaches and is not marked yet, and appends each
    /// module to `result` once all that it imports has been visited.
    fn dfs_post_order(
        &self,
        node: ModuleId,
        visited: &mut Vec<bool>,
        result: &mut Vec<ModuleId>,
        Ghost(root): Ghost<ModuleId>,
        Ghost(stack): Ghost<Seq<ModuleId>>,
        Ghost(depth): Ghost<nat>,
    )
        requires
            self.wf(),
            node.0 < self@.len(),
            unmarked(old(visited)@) <= depth,
            dfs_inv(self@.outgoing, root, old(visited)@, old(result)@, stack),
            reaches(self@.outgoing, root, node),
            forall|k: int| 0 <= k < stack.len() ==> reaches(self@.outgoing, #[trigger] stack[k], node),
        ensures
            dfs_inv(self@.outgoing, root, final(visited)@, final(result)@, stack),
            final(visited)@[node.0 as int],
            forall|i: int| 0 <= i < old(visited)@.len() && old(visited)@[i] ==> final(visited)@[i],
            !old(visited)@[node.0 as int] ==> final(result)@.len() > 0 && final(result)@.last()
                == node,
            walk_of(final(visited)@, final(result)@) == walk_node(
                self@.outgoing,
                depth,
                node,
                walk_of(old(visited)@, old(result)@),
            ),
        decreases unmarked(old(visited)@),
    {
        let ghost adj = self@.outgoing;
        let ghost start = Walk { seen: marked(visited@), out: result@ };
        if visited[node.0] {
            assert(start.seen.contains(node));
            return ;
        }
        proof {
            lemma_unmarked_mark(visited@, node.0 as int);
            lemma_graph_adj_wf(self@);
            assert(!start.seen.contains(node));
        }
        visited[node.0] = true;
        let ghost entered = Walk { seen: start.seen.insert(node), out: start.out };
        assert(marked(visited@) =~= entered.seen);
        let ghost inner = stack.push(node);
        proof {
            assert forall|v: ModuleId| v.0 < adj.len() implies (#[trigger] visited@[v.0 as int]
                <==> result@.contains(v) || inner.contains(v)) by {
                if v == node {
                    assert(inner.last() == node);
                } else {
                    if stack.contains(v) {
                        let k = choose|k: int| 0 <= k < stack.len() && stack[k] == v;
                        assert(inner[k] == v);
                    }
                }
            }
            assert(!old(visited)@[node.0 as int]);
            assert(!result@.contains(node));
        }
        let lists = self.outgoing_lists();
        let deps = &lists[node.0];
        let mut i: usize = 0;
        while i < deps.len()
            invariant
                self.wf(),
                adj == self@.outgoing,
                adj_wf(adj),
                node.0 < self@.len(),
                inner == stack.push(node),
                deps@ == adj[node.0 as int],
                i <= deps.len(),
                dfs_inv(adj, root, visited@, result@, inner),
                reaches(adj, root, node),
                forall|k: int| 0 <= k < stack.len() ==> reaches(adj, #[trigger] stack[k], node),
                forall|k: int| 0 <= k < i ==> visited@[deps@[k].0 as int],
                forall|k: int| 0 <= k < old(visited)@.len() && old(visited)@[k] ==> visited@[k],
                visited@[node.0 as int],
                unmarked(visited@) < unmarked(old(visited)@),
                visited@.len() == old(visited)@.len(),
                depth >= 1,
                unmarked(old(visited)@) <= depth,
                walk_children(adj, (depth - 1) as nat, node, 0, entered) == walk_children(
                    adj,
                    (depth - 1) as nat,
                    node,
                    i as int,
                    walk_of(visited@, result@),
                ),
            decreases deps.len() - i,
        {
            let dep = deps[i];
            let ghost before = visited@;
            proof {
                assert(adj[node.0 as int][i as int] == dep);
                assert(step(adj, node, dep));
                lemma_reaches_step(adj, root, node, dep);
                assert forall|k: int| 0 <= k < inner.len() implies reaches(
                    adj,
                    #[trigger] inner[k],
                    dep,
                ) by {
                    if k < stack.len() {
                        lemma_reaches_step(adj, stack[k], node, dep);
                    } else {
                        lemma_reaches_self(adj, node);
                        lemma_reaches_step(adj, node, node, dep);
                    }
                }
            }
            self.dfs_post_order(
                dep,
                visited,
                result,
                Ghost(root),
                Ghost(inner),
                Ghost((depth - 1) as nat),
            );
            proof {
                lemma_unmarked_grows(before, visited@);
            }
            i += 1;
        }
        let ghost out = result@;
        let ghost after_children = Walk { seen: marked(visited@), out: result@ };
        assert(walk_children(adj, (depth - 1) as nat, node, deps.len() as int, after_children)
            == after_children);
        result.push(node);
        proof {
            let done = result@;
            lemma_reaches_self(adj, node);
            assert(!out.contains(node)) by {
                assert(inner[inner.len() - 1] == node);
            }
            assert(done.no_duplicates());
            assert forall|k: int| 0 <= k < stack.len() implies (#[trigger] stack[k]).0 < adj.len()
                && !done.contains(stack[k]) by {
                assert(inner[k] == stack[k]);
                assert(old(visited)@[stack[k].0 as int]) by {
                    assert(stack.contains(stack[k]));
                }
            }
            assert forall|v: ModuleId| v.0 < adj.len() implies (#[trigger] visited@[v.0 as int]
                <==> done.contains(v) || stack.contains(v)) by {
                if v == node {
                    assert(done.last() == node);
                } else {
                    if out.contains(v) {
                        let k = choose|k: int| 0 <= k < out.len() && out[k] == v;
                        assert(done[k] == v);
                    }
                    if inner.contains(v) {
                        let k = choose|k: int| 0 <= k < inner.len() && inner[k] == v;
                        assert(stack[k] == v);
                    }
                    if stack.contains(v) {
                        let k = choose|k: int| 0 <= k < stack.len() && stack[k] == v;
                        assert(inner[k] == v);
                    }
                }
            }
            assert forall|k: int, b: ModuleId|
                0 <= k < done.len() && #[trigger] step(adj, done[k], b) implies visited@[b.0 as int]
                && (reaches(adj, b, done[k]) || earlier(done, k, b)) by {
                if k < out.len() {
                    assert(step(adj, out[k], b));
                    if earlier(out, k, b) {
                        let j = choose|j: int| 0 <= j < k && j < out.len() && out[j] == b;
                        assert(done[j] == b);
                    }
                } else {
                    let d = choose|d: int| 0 <= d < deps@.len() && deps@[d] == b;
                    assert(visited@[deps@[d].0 as int]);
                    if out.contains(b) {
                        let j = choose|j: int| 0 <= j < out.len() && out[j] == b;
                        assert(done[j] == b);
                        assert(earlier(done, k, b));
                    } else {
                        assert(inner.contains(b));
                        let s = choose|s: int| 0 <= s < inner.len() && inner[s] == b;
                        if s < stack.len() {
                            assert(reaches(adj, stack[s], node));
                        }
                    }
                }
            }
        }
    }

    /// The modules that `root` reaches, in the order in which a bundle holds
    /// them: each module once, after the modules it imports, `root` last.
    /// Imports that lead back to the importing module cannot all come first;
    /// every other import does. For an id that names no module, the id alone.
    pub fn linearize(&self, root: ModuleId) -> (order: Vec<ModuleId>)
        requires
            self.wf(),
        ensures
            self@.valid(root) ==> order@ == post_order(self@.outgoing, root),
            self@.valid(root) ==> post_order_of(self@.outgoing, root, order@),
            !self@.valid(root) ==> order@ == seq![root],
    {
        let mut order: Vec<ModuleId> = Vec::new();
        if root.0 >= self.len() {
            order.push(root);
            return order;
        }
        let ghost adj = self@.outgoing;
        let mut visited: Vec<bool> = vec![false; self.len()];
        proof {
            lemma_reaches_self(adj, root);
        }
        proof {
            lemma_unmarked_bound(visited@);
            assert(marked(visited@) =~= Set::<ModuleId>::empty());
        }
        self.dfs_post_order(
            root,
            &mut visited,
            &mut order,
            Ghost(root),
            Ghost(Seq::empty()),
            Ghost(adj.len()),
        );
        proof {
            let out = order@;
            let s = Set::new(|v: ModuleId| out.contains(v));
            assert forall|v: ModuleId| out.contains(v) implies reaches(adj, root, v) by {
                let k = choose|k: int| 0 <= k < out.len() && out[k] == v;
                assert(out[k].0 < adj.len());
                assert(visited@[v.0 as int]);
            }
            assert forall|v: ModuleId| reaches(adj, root, v) implies out.contains(v) by {
                assert forall|u: ModuleId, w: ModuleId| s.contains(u) && #[trigger] step(
                    adj,
                    u,
                    w,
                ) implies s.contains(w) by {
                    let k = choose|k: int| 0 <= k < out.len() && out[k] == u;
                    assert(visited@[w.0 as int]);
                }
                lemma_reaches_closed(adj, s, root, v);
            }
            assert forall|i: int, j: int|
                0 <= i < out.len() && 0 <= j < out.len() && #[trigger] step(adj, out[i], out[j])
                    && !reaches(adj, out[j], out[i]) implies j < i by {
                assert(earlier(out, i, out[j]));
            }
        }
        order
    }

    /// The entry points that a change of `changed` reaches: the modules
    /// that nothing imports, among `changed` and all that import it,
    /// directly or through others, each once, in the order in which a
    /// breadth-first search along the importers meets them. Where there is
    /// no such module, because the importers close a cycle, `changed`
    /// itself stands for them. For an id that names no module, nothing.
    pub fn find_affected_roots(&self, changed: ModuleId) -> (roots: Vec<ModuleId>)
        requires
            self.wf(),
        ensures
            roots@ == self@.affected_roots(changed),
            self@.affected_roots_are(changed, roots@),
    {
        let mut roots: Vec<ModuleId> = Vec::new();
        if changed.0 >= self.len() {
            return roots;
        }
        let lists = self.incoming_lists();
        let ghost adj = self@.incoming;
        proof {
            lemma_graph_adj_wf(self@);
        }
        let closure = reachable_from(lists, changed);
        let mut k: usize = 0;
        while k < closure.len()
            invariant
                k <= closure.len(),
                adj == lists_of(lists@),
                adj == self@.incoming,
                roots@ == self@.entries_among(closure@, k as int),
                closure@.no_duplicates(),
                forall|v: ModuleId| closure@.contains(v) <==> reaches(adj, changed, v),
                roots@.no_duplicates(),
                forall|i: int|
                    0 <= i < roots.len() ==> exists|j: int|
                        0 <= j < k && closure@[j] == #[trigger] roots@[i],
                forall|v: ModuleId|
                    roots@.contains(v) <==> self@.affected_root(changed, v) && exists|j: int|
                        0 <= j < k && closure@[j] == v,
            decreases closure.len() - k,
        {
            let v = closure[k];
            proof {
                assert(closure@.contains(v));
                lemma_reaches_valid(adj, changed, v);
            }
            let ghost before = roots@;
            if lists[v.0].len() == 0 {
                assert(!before.contains(v)) by {
                    if before.contains(v) {
                        let i = choose|i: int| 0 <= i < before.len() && before[i] == v;
                        let j = choose|j: int| 0 <= j < k && closure@[j] == before[i];
                        assert(closure@[j] == closure@[k as int]);
                    }
                }
                roots.push(v);
                proof {
                    assert forall|i: int| 0 <= i < roots.len() implies exists|j: int|
                        0 <= j < k + 1 && closure@[j] == #[trigger] roots@[i] by {
                        if i < before.len() {
                            let j = choose|j: int| 0 <= j < k && closure@[j] == before[i];
                            assert(closure@[j] == roots@[i]);
                        } else {
                            assert(closure@[k as int] == roots@[i]);
                        }
                    }
                    assert forall|w: ModuleId|
                        roots@.contains(w) <==> self@.affected_root(changed, w) && exists|j: int|
                            0 <= j < k + 1 && closure@[j] == w by {
                        if roots@.contains(w) {
                            let i = choose|i: int| 0 <= i < roots@.len() && roots@[i] == w;
                            if i < before.len() {
                                assert(before.contains(w));
                                let j = choose|j: int| 0 <= j < k && closure@[j] == w;
                                assert(0 <= j < k + 1 && closure@[j] == w);
                            } else {
                                assert(closure@[k as int] == w);
                            }
                        }
                        if self@.affected_root(changed, w) && exists|j: int|
                            0 <= j < k + 1 && closure@[j] == w {
                            let j = choose|j: int| 0 <= j < k + 1 && closure@[j] == w;
                            if j < k {
                                assert(before.contains(w));
                                let i = choose|i: int| 0 <= i < before.len() && before[i] == w;
                                assert(roots@[i] == w);
                            } else {
                                assert(roots@.last() == w);
                            }
                        }
                    }
                }
            } else {
                proof {
                    assert forall|w: ModuleId|
                        roots@.contains(w) <==> self@.affected_root(changed, w) && exists|j: int|
                            0 <= j < k + 1 && closure@[j] == w by {
                        if self@.affected_root(changed, w) && exists|j: int|
                            0 <= j < k + 1 && closure@[j] == w {
                            let j = choose|j: int| 0 <= j < k + 1 && closure@[j] == w;
                            assert(j < k);
                        }
                        if roots@.contains(w) {
                            let j = choose|j: int| 0 <= j < k && closure@[j] == w;
                            assert(0 <= j < k + 1 && closure@[j] == w);
                        }
                    }
                }
            }
            k += 1;
        }
        proof {
            assert forall|v: ModuleId| roots@.contains(v) <==> self@.affected_root(changed, v) by {
                if self@.affected_root(changed, v) {
                    assert(closure@.contains(v));
                    let j = choose|j: int| 0 <= j < closure@.len() && closure@[j] == v;
                    assert(0 <= j < k && closure@[j] == v);
                }
            }
        }
        if roots.len() == 0 {
            proof {
                assert forall|v: ModuleId| !self@.affected_root(changed, v) by {
                    if self@.affected_root(changed, v) {
                        assert(roots@.contains(v));
                    }
                }
            }
            roots.push(changed);
            assert(roots@ =~= seq![changed]);
        } else {
            proof {
                assert(roots@.contains(roots@[0]));
                assert(self@.affected_root(changed, roots@[0]));
            }
        }
        roots
    }
}

} // verus!
