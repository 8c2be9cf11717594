//! A linked graph: one whose import tables lead into the graph and whose
//! edges cover its import sites. Linking the imports of a module keeps a
//! graph linked, and in a linked graph every live module has a place in
//! the partition.

use vstd::prelude::*;
use crate::bundler::{link_sites, linked_graph};
use crate::graph::{
    GraphView,
    ImportInfoView,
    ModuleId,
    lemma_with_edge_wf,
    lemma_with_member_other,
    lemma_with_module_at_wf,
    lemma_with_module_wf,
};
use crate::laws::sites_have_edges;
use crate::liveness::edge_target;

verus! {

/// Every path that an import table gives is the path of a module.
pub open spec fn tables_lead_in(g: GraphView) -> bool {
    forall|m: ModuleId, source: Seq<char>|
        g.valid(m) && #[trigger] g.modules[m.0 as int].imports.dom().contains(source)
            ==> g.find_path(g.modules[m.0 as int].imports[source]) is Some
}

/// The graph is linked: its import tables lead into the graph, and it has
/// an edge for every import site that leads to another module.
pub open spec fn is_linked(g: GraphView) -> bool {
    tables_lead_in(g) && sites_have_edges(g)
}

/// In a well-formed graph a path is found at the one module that has it.
pub proof fn lemma_find_path(g: GraphView, path: Seq<char>, i: int)
    requires
        g.wf(),
        0 <= i < g.modules.len(),
        g.modules[i].path == path,
    ensures
        g.find_path(path) == Some(ModuleId(i as usize)),
{
    let c = choose|c: int| 0 <= c < g.modules.len() && g.modules[c].path == path;
    assert(g.modules[c].path == g.modules[i].path);
}

/// The index of the module that is found under `path`.
pub open spec fn found_index(g: GraphView, path: Seq<char>) -> int {
    let found = g.find_path(path)->0;
    found.0 as int
}

/// What is found names a module with the path that was looked for.
pub proof fn lemma_found(g: GraphView, path: Seq<char>)
    requires
        g.wf(),
        g.find_path(path) is Some,
    ensures
        g.valid(g.find_path(path)->0),
        g.modules[found_index(g, path)].path == path,
{
    let c = choose|c: int| 0 <= c < g.modules.len() && g.modules[c].path == path;
}

/// Two graphs whose modules have the same paths find the same modules.
pub proof fn lemma_same_paths_same_finds(g: GraphView, h: GraphView, path: Seq<char>)
    requires
        g.wf(),
        h.wf(),
        g.modules.len() == h.modules.len(),
        forall|i: int| 0 <= i < g.modules.len() ==> (#[trigger] h.modules[i]).path == g.modules[i].path,
    ensures
        h.find_path(path) == g.find_path(path),
{
    if g.find_path(path) is Some {
        lemma_found(g, path);
        let t = g.find_path(path)->0;
        assert(h.modules[t.0 as int].path == path);
        lemma_find_path(h, path, t.0 as int);
    } else if h.find_path(path) is Some {
        lemma_found(h, path);
        let t = h.find_path(path)->0;
        assert(h.modules[t.0 as int].path == g.modules[t.0 as int].path);
    }
}

/// A graph with one more module finds what it found before.
pub proof fn lemma_more_modules_same_finds(
    g: GraphView,
    path: Seq<char>,
    source: Seq<char>,
    known: Seq<char>,
)
    requires
        g.wf(),
        g.modules.len() < usize::MAX,
        g.find_path(path) is None,
        g.find_path(known) is Some,
    ensures
        g.with_module(path, source).find_path(known) == g.find_path(known),
{
    let h = g.with_module(path, source);
    lemma_with_module_wf(g, path, source);
    lemma_found(g, known);
    let t = g.find_path(known)->0;
    assert(h.modules[t.0 as int] == g.modules[t.0 as int]);
    lemma_find_path(h, known, t.0 as int);
}

/// What holds while the import sites of module `id` are linked, after the
/// first `k` of them.
spec fn link_inv(
    g: GraphView,
    id: ModuleId,
    sites: Seq<ImportInfoView>,
    targets: Seq<Option<Seq<char>>>,
    k: int,
) -> bool {
    let state = link_sites(g, id, sites, targets, k);
    let h = state.graph;
    &&& h.wf()
    &&& g.modules.len() <= h.modules.len() <= g.modules.len() + k
    &&& forall|i: int| 0 <= i < g.modules.len() ==> #[trigger] h.modules[i] == g.modules[i]
    &&& forall|i: int|
        g.modules.len() <= i < h.modules.len() ==> (#[trigger] h.modules[i]).imports
            == Map::<Seq<char>, Seq<char>>::empty() && h.modules[i].import_info.len() == 0
    &&& forall|m: ModuleId, t: ModuleId|
        g.valid(m) && #[trigger] g.outgoing[m.0 as int].contains(t) ==> h.outgoing[m.0 as int].contains(
            t,
        )
    &&& forall|path: Seq<char>|
        (#[trigger] g.find_path(path)) is Some ==> h.find_path(path) == g.find_path(path)
    &&& forall|source: Seq<char>| #[trigger]
        state.imports.dom().contains(source) ==> leads_to_edge(h, id, state.imports[source])
}

/// `path` is the path of a module that `id` has an edge to, or of `id`
/// itself.
spec fn leads_to_edge(h: GraphView, id: ModuleId, path: Seq<char>) -> bool {
    h.find_path(path) is Some && (h.find_path(path)->0 == id || h.outgoing[id.0 as int].contains(
        h.find_path(path)->0,
    ))
}

proof fn lemma_link_inv(
    g: GraphView,
    id: ModuleId,
    sites: Seq<ImportInfoView>,
    targets: Seq<Option<Seq<char>>>,
    k: int,
)
    requires
        g.wf(),
        g.valid(id),
        0 <= k <= sites.len(),
        sites.len() == targets.len(),
        g.modules.len() + sites.len() <= usize::MAX,
    ensures
        link_inv(g, id, sites, targets, k),
    decreases k,
{
    if k > 0 {
        lemma_link_inv(g, id, sites, targets, k - 1);
        let before = link_sites(g, id, sites, targets, k - 1);
        let after = link_sites(g, id, sites, targets, k);
        let h = before.graph;
        match targets[k - 1] {
            None => {},
            Some(path) => {
                let (h1, t) = h.add_module(path, Seq::empty());
                if h.find_path(path) is None {
                    lemma_with_module_wf(h, path, Seq::empty());
                    lemma_find_path(h1, path, h.modules.len() as int);
                } else {
                    lemma_found(h, path);
                }
                assert(h1.wf());
                assert(h1.valid(t) && h1.valid(id));
                assert(h1.find_path(path) == Some(t)) by {
                    if h.find_path(path) is Some {
                    }
                }
                let h2 = after.graph;
                if h1.edge_verdict(id, t) is Ok {
                    lemma_with_edge_wf(h1, id, t, sites[k - 1].is_dynamic);
                    lemma_with_member_other(h1.outgoing[id.0 as int], t, t);
                }
                assert(h2.wf());
                assert(h2.modules == h1.modules);
                assert forall|p: Seq<char>| h2.find_path(p) == h1.find_path(p) by {
                    lemma_same_paths_same_finds(h1, h2, p);
                }
                assert forall|p: Seq<char>| (#[trigger] h.find_path(p)) is Some implies h2.find_path(
                    p,
                ) == h.find_path(p) by {
                    if h.find_path(path) is None {
                        lemma_more_modules_same_finds(h, path, Seq::empty(), p);
                    }
                }
                assert forall|m: ModuleId, x: ModuleId|
                    h1.valid(m) && #[trigger] h1.outgoing[m.0 as int].contains(
                        x,
                    ) implies h2.outgoing[m.0 as int].contains(x) by {
                    if h1.edge_verdict(id, t) is Ok && m == id {
                        lemma_with_member_other(h1.outgoing[id.0 as int], t, x);
                    }
                }
                assert forall|m: ModuleId, x: ModuleId|
                    g.valid(m) && #[trigger] g.outgoing[m.0 as int].contains(
                        x,
                    ) implies h2.outgoing[m.0 as int].contains(x) by {
                    assert(h.outgoing[m.0 as int].contains(x));
                    assert(h1.outgoing[m.0 as int] == h.outgoing[m.0 as int]);
                    assert(h1.outgoing[m.0 as int].contains(x));
                }
                assert forall|p: Seq<char>| (#[trigger] g.find_path(p)) is Some implies h2.find_path(
                    p,
                ) == g.find_path(p) by {
                    assert(h.find_path(p) == g.find_path(p));
                }
                assert forall|source: Seq<char>| #[trigger]
                    after.imports.dom().contains(source) implies leads_to_edge(
                    h2,
                    id,
                    after.imports[source],
                ) by {
                    if source == sites[k - 1].source {
                        assert(h2.find_path(path) == Some(t));
                    } else {
                        assert(before.imports.dom().contains(source));
                        let p = before.imports[source];
                        assert(leads_to_edge(h, id, p));
                        assert(h2.find_path(p) == h.find_path(p));
                        let x = h.find_path(p)->0;
                        if x != id {
                            assert(h1.outgoing[id.0 as int] == h.outgoing[id.0 as int]);
                            assert(h1.outgoing[id.0 as int].contains(x));
                        }
                    }
                }
                assert forall|i: int| 0 <= i < g.modules.len() implies #[trigger] h2.modules[i]
                    == g.modules[i] by {
                    assert(h.modules[i] == g.modules[i]);
                }
                assert forall|i: int| g.modules.len() <= i < h2.modules.len() implies (
                #[trigger] h2.modules[i]).imports == Map::<Seq<char>, Seq<char>>::empty()
                    && h2.modules[i].import_info.len() == 0 by {
                    if i < h.modules.len() {
                        assert(h.modules[i].imports == Map::<Seq<char>, Seq<char>>::empty());
                    }
                }
            },
        }
    }
}

/// Linking the import sites of a module keeps a linked graph linked, and
/// well-formed, and takes no module out of it.
pub proof fn law_linking_keeps_graph_linked(
    g: GraphView,
    id: ModuleId,
    sites: Seq<ImportInfoView>,
    targets: Seq<Option<Seq<char>>>,
)
    requires
        g.wf(),
        g.valid(id),
        is_linked(g),
        sites.len() == targets.len(),
        g.modules.len() + sites.len() <= usize::MAX,
    ensures
        linked_graph(g, id, sites, targets).wf(),
        is_linked(linked_graph(g, id, sites, targets)),
        linked_graph(g, id, sites, targets).modules.len() >= g.modules.len(),
{
    lemma_link_inv(g, id, sites, targets, sites.len() as int);
    let done = link_sites(g, id, sites, targets, sites.len() as int);
    let h = done.graph;
    let with_table = h.set_imports(id, done.imports);
    let out = linked_graph(g, id, sites, targets);
    assert(h.valid(id));
    lemma_with_module_at_wf(h, id, with_table.modules[id.0 as int]);
    lemma_with_module_at_wf(with_table, id, out.modules[id.0 as int]);
    assert(out.outgoing == h.outgoing);
    assert forall|p: Seq<char>| out.find_path(p) == h.find_path(p) by {
        lemma_same_paths_same_finds(h, out, p);
    }
    assert forall|m: ModuleId, source: Seq<char>|
        out.valid(m) && #[trigger] out.modules[m.0 as int].imports.dom().contains(
            source,
        ) implies out.find_path(out.modules[m.0 as int].imports[source]) is Some by {
        if m == id {
            assert(leads_to_edge(h, id, done.imports[source]));
        } else if m.0 < g.modules.len() {
            assert(h.modules[m.0 as int] == g.modules[m.0 as int]);
            assert(g.modules[m.0 as int].imports.dom().contains(source));
            let p = g.modules[m.0 as int].imports[source];
            assert(g.find_path(p) is Some);
            assert(h.find_path(p) == g.find_path(p));
        } else {
            assert(h.modules[m.0 as int].imports == Map::<Seq<char>, Seq<char>>::empty());
        }
    }
    assert forall|m: ModuleId, k: int|
        out.valid(m) && 0 <= k < out.modules[m.0 as int].import_info.len() && (
        #[trigger] edge_target(out, m.0 as int, k)) is Some && edge_target(out, m.0 as int, k)->0
            != m implies out.outgoing[m.0 as int].contains(edge_target(out, m.0 as int, k)->0) by {
        let t = edge_target(out, m.0 as int, k)->0;
        let site = out.modules[m.0 as int].import_info[k];
        let p = out.modules[m.0 as int].imports[site.source];
        if m == id {
            assert(done.imports.dom().contains(site.source));
            assert(leads_to_edge(h, id, p));
        } else if m.0 < g.modules.len() {
            assert(h.modules[m.0 as int] == g.modules[m.0 as int]);
            assert(g.modules[m.0 as int].imports.dom().contains(site.source));
            assert(g.find_path(p) is Some);
            assert(h.find_path(p) == g.find_path(p));
            assert(edge_target(g, m.0 as int, k) == Some(t));
            assert(g.valid(m));
            assert(g.outgoing[m.0 as int].contains(t));
        } else {
            assert(h.modules[m.0 as int].import_info.len() == 0);
        }
    }
}

/// A graph whose modules have neither import sites nor import tables is
/// linked: so the empty graph, and a graph of fresh modules.
pub proof fn law_unanalyzed_graph_is_linked(g: GraphView)
    requires
        forall|i: int|
            0 <= i < g.modules.len() ==> (#[trigger] g.modules[i]).import_info.len() == 0
                && g.modules[i].imports == Map::<Seq<char>, Seq<char>>::empty(),
    ensures
        is_linked(g),
{
}

/// A change that leaves the paths, the import tables, the import sites and
/// the edges as they are leaves a linked graph linked: so the changes of
/// source, version, exports, host path and outputs.
pub proof fn law_attributes_keep_graph_linked(g: GraphView, h: GraphView)
    requires
        g.wf(),
        h.wf(),
        is_linked(g),
        h.modules.len() == g.modules.len(),
        h.outgoing == g.outgoing,
        forall|i: int|
            0 <= i < g.modules.len() ==> {
                &&& (#[trigger] h.modules[i]).path == g.modules[i].path
                &&& h.modules[i].imports == g.modules[i].imports
                &&& h.modules[i].import_info == g.modules[i].import_info
            },
    ensures
        is_linked(h),
{
    assert forall|p: Seq<char>| h.find_path(p) == g.find_path(p) by {
        lemma_same_paths_same_finds(g, h, p);
    }
    assert forall|m: ModuleId, source: Seq<char>|
        h.valid(m) && #[trigger] h.modules[m.0 as int].imports.dom().contains(
            source,
        ) implies h.find_path(h.modules[m.0 as int].imports[source]) is Some by {
        assert(h.modules[m.0 as int].imports == g.modules[m.0 as int].imports);
        assert(g.modules[m.0 as int].imports.dom().contains(source));
    }
    assert forall|m: ModuleId, k: int|
        h.valid(m) && 0 <= k < h.modules[m.0 as int].import_info.len() && (
        #[trigger] edge_target(h, m.0 as int, k)) is Some && edge_target(h, m.0 as int, k)->0
            != m implies h.outgoing[m.0 as int].contains(edge_target(h, m.0 as int, k)->0) by {
        assert(h.modules[m.0 as int].imports == g.modules[m.0 as int].imports);
        assert(h.modules[m.0 as int].import_info == g.modules[m.0 as int].import_info);
        assert(edge_target(h, m.0 as int, k) == edge_target(g, m.0 as int, k));
        assert(g.valid(m));
    }
}

/// Adding a module keeps a linked graph linked.
pub proof fn law_new_module_keeps_graph_linked(g: GraphView, path: Seq<char>, source: Seq<char>)
    requires
        g.wf(),
        g.modules.len() < usize::MAX,
        is_linked(g),
    ensures
        is_linked(g.add_module(path, source).0),
{
    if g.find_path(path) is None {
        let h = g.with_module(path, source);
        lemma_with_module_wf(g, path, source);
        assert forall|m: ModuleId, s: Seq<char>|
            h.valid(m) && #[trigger] h.modules[m.0 as int].imports.dom().contains(
                s,
            ) implies h.find_path(h.modules[m.0 as int].imports[s]) is Some by {
            if m.0 < g.modules.len() {
                assert(h.modules[m.0 as int] == g.modules[m.0 as int]);
                assert(g.modules[m.0 as int].imports.dom().contains(s));
                lemma_more_modules_same_finds(g, path, source, g.modules[m.0 as int].imports[s]);
            }
        }
        assert forall|m: ModuleId, k: int|
            h.valid(m) && 0 <= k < h.modules[m.0 as int].import_info.len() && (
            #[trigger] edge_target(h, m.0 as int, k)) is Some && edge_target(h, m.0 as int, k)->0
                != m implies h.outgoing[m.0 as int].contains(edge_target(h, m.0 as int, k)->0) by {
            if m.0 < g.modules.len() {
                assert(h.modules[m.0 as int] == g.modules[m.0 as int]);
                let site = g.modules[m.0 as int].import_info[k];
                assert(g.modules[m.0 as int].imports.dom().contains(site.source));
                let p = g.modules[m.0 as int].imports[site.source];
                assert(g.find_path(p) is Some);
                lemma_more_modules_same_finds(g, path, source, p);
                assert(edge_target(h, m.0 as int, k) == edge_target(g, m.0 as int, k));
                assert(g.valid(m));
                assert(h.outgoing[m.0 as int] == g.outgoing[m.0 as int]);
            }
        }
    }
}

} // verus!
