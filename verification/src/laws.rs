//! What holds of every graph, whatever was done to it.

use vstd::prelude::*;
use crate::graph::{ModuleId, GraphView, lemma_with_member_other, lemma_with_module_wf};
use crate::liveness::{edge_target, import_adj, live, lemma_import_adj_wf, lemma_targets_contain};
use crate::partition::{
    Chunk,
    Partition,
    chunk_fits,
    chunk_lines,
    chunk_map_of,
    lemma_chunks_apart,
    map_lines,
    taken_before,
};
use crate::reach::{step, is_path, path_between, reaches, lemma_reaches_closed, lemma_reaches_self, lemma_reaches_step};

verus! {

/// The graph after the source of module `id` was replaced by each of
/// `sources` in turn.
pub open spec fn after_updates(g: GraphView, id: ModuleId, sources: Seq<Seq<char>>) -> GraphView
    decreases sources.len(),
{
    if sources.len() == 0 {
        g
    } else {
        after_updates(g, id, sources.drop_last()).update_source(id, sources.last())
    }
}

/// The version of a module counts the updates of its source: after `k`
/// updates it is the version it had before, plus `k`. The versions of the
/// other modules stay as they are.
pub proof fn law_version_counts_updates(g: GraphView, id: ModuleId, sources: Seq<Seq<char>>)
    requires
        g.valid(id),
    ensures
        after_updates(g, id, sources).len() == g.len(),
        after_updates(g, id, sources).version(id) == g.version(id) + sources.len(),
        forall|other: ModuleId|
            g.valid(other) && other != id ==> after_updates(g, id, sources).version(other)
                == g.version(other),
    decreases sources.len(),
{
    if sources.len() > 0 {
        law_version_counts_updates(g, id, sources.drop_last());
    }
}

/// A module that was just added starts at version 1.
pub proof fn law_fresh_module_version(g: GraphView, path: Seq<char>, source: Seq<char>)
    requires
        g.len() < usize::MAX,
        g.find_path(path) is None,
    ensures
        g.add_module(path, source).0.version(g.add_module(path, source).1) == 1,
{
}

/// The two edge indexes mirror each other: `a` lists `b` among its imports
/// exactly if `b` lists `a` among its importers, and neither list holds the
/// other module more than once.
pub proof fn law_edges_mirror(g: GraphView, a: ModuleId, b: ModuleId)
    requires
        g.wf(),
        g.valid(a),
        g.valid(b),
    ensures
        g.outgoing[a.0 as int].contains(b) <==> g.incoming[b.0 as int].contains(a),
        forall|i: int, j: int|
            0 <= i < g.outgoing[a.0 as int].len() && 0 <= j < g.outgoing[a.0 as int].len()
                && g.outgoing[a.0 as int][i] == b && g.outgoing[a.0 as int][j] == b ==> i == j,
        forall|i: int, j: int|
            0 <= i < g.incoming[b.0 as int].len() && 0 <= j < g.incoming[b.0 as int].len()
                && g.incoming[b.0 as int][i] == a && g.incoming[b.0 as int][j] == a ==> i == j,
        !g.outgoing[a.0 as int].contains(a),
{
    assert(g.has_edge(a, b) <==> g.has_back_edge(b, a));
    assert(crate::graph::edge_list_wf(g.outgoing[a.0 as int], a.0 as int, g.len()));
    assert(crate::graph::edge_list_wf(g.incoming[b.0 as int], b.0 as int, g.len()));
    if g.outgoing[a.0 as int].contains(a) {
        let k = choose|k: int| 0 <= k < g.outgoing[a.0 as int].len() && g.outgoing[a.0 as int][k] == a;
        assert(g.outgoing[a.0 as int][k].0 != a.0);
    }
}

/// A module that was added is found again under its path, with the id that
/// `add_module` gave.
pub proof fn law_added_module_is_found(g: GraphView, path: Seq<char>, source: Seq<char>)
    requires
        g.wf(),
        g.len() < usize::MAX,
    ensures
        g.add_module(path, source).0.wf(),
        g.add_module(path, source).0.find_path(path) == Some(g.add_module(path, source).1),
        g.add_module(path, source).0.valid(g.add_module(path, source).1),
        g.add_module(path, source).0.modules[g.add_module(path, source).1.0 as int].path == path,
{
    let (h, id) = g.add_module(path, source);
    if g.find_path(path) is None {
        lemma_with_module_wf(g, path, source);
        assert(h.modules[g.len() as int].path == path);
        let c = choose|i: int| 0 <= i < h.modules.len() && h.modules[i].path == path;
        assert(h.modules[c].path == h.modules[g.len() as int].path);
    }
}

/// Adding an edge a second time changes nothing: the edge is held once, in
/// both indexes.
pub proof fn law_edge_added_once(g: GraphView, from: ModuleId, to: ModuleId, is_dynamic: bool)
    requires
        g.wf(),
        g.valid(from),
        g.valid(to),
        from != to,
    ensures
        g.with_edge(from, to, is_dynamic).with_edge(from, to, is_dynamic) == g.with_edge(
            from,
            to,
            is_dynamic,
        ),
        g.with_edge(from, to, is_dynamic).outgoing[from.0 as int].contains(to),
        g.with_edge(from, to, is_dynamic).incoming[to.0 as int].contains(from),
        g.with_edge(from, to, is_dynamic).outgoing[from.0 as int].no_duplicates(),
        g.with_edge(from, to, is_dynamic).incoming[to.0 as int].no_duplicates(),
{
    let h = g.with_edge(from, to, is_dynamic);
    let hh = h.with_edge(from, to, is_dynamic);
    lemma_with_member_other(g.outgoing[from.0 as int], to, to);
    lemma_with_member_other(g.incoming[to.0 as int], from, from);
    lemma_with_member_other(g.sync_deps[from.0 as int], to, to);
    lemma_with_member_other(g.async_deps[from.0 as int], to, to);
    assert(crate::graph::edge_list_wf(g.outgoing[from.0 as int], from.0 as int, g.len()));
    assert(crate::graph::edge_list_wf(g.incoming[to.0 as int], to.0 as int, g.len()));
    assert(hh.outgoing =~= h.outgoing);
    assert(hh.incoming =~= h.incoming);
    assert(hh.sync_deps =~= h.sync_deps);
    assert(hh.async_deps =~= h.async_deps);
}

/// A walk along the importers, read backwards, is a walk along the imports.
proof fn lemma_path_reversed(g: GraphView, p: Seq<ModuleId>)
    requires
        g.wf(),
    ensures
        is_path(g.incoming, p) ==> is_path(g.outgoing, p.reverse()),
        is_path(g.outgoing, p) ==> is_path(g.incoming, p.reverse()),
{
    let r = p.reverse();
    if is_path(g.incoming, p) {
        if p.len() > 1 {
            assert(step(g.incoming, p[p.len() - 2], p[p.len() - 2 + 1]));
        }
        assert forall|i: int| 0 <= i < r.len() - 1 implies step(g.outgoing, #[trigger] r[i], r[i + 1]) by {
            let k = p.len() - 2 - i;
            assert(step(g.incoming, p[k], p[k + 1]));
            assert(g.has_back_edge(p[k], p[k + 1]));
            assert(g.has_edge(p[k + 1], p[k]));
        }
    }
    if is_path(g.outgoing, p) {
        if p.len() > 1 {
            assert(step(g.outgoing, p[p.len() - 2], p[p.len() - 2 + 1]));
        }
        assert forall|i: int| 0 <= i < r.len() - 1 implies step(g.incoming, #[trigger] r[i], r[i + 1]) by {
            let k = p.len() - 2 - i;
            assert(step(g.outgoing, p[k], p[k + 1]));
            assert(g.has_edge(p[k], p[k + 1]));
            assert(g.has_back_edge(p[k + 1], p[k]));
        }
    }
}

/// Walking up the importers from `changed` arrives at exactly the modules
/// that reach `changed` through their imports.
pub proof fn law_importers_are_dependents(g: GraphView, changed: ModuleId, v: ModuleId)
    requires
        g.wf(),
    ensures
        reaches(g.incoming, changed, v) <==> reaches(g.outgoing, v, changed),
{
    if reaches(g.incoming, changed, v) {
        let p = choose|p: Seq<ModuleId>| path_between(g.incoming, p, changed, v);
        lemma_path_reversed(g, p);
        assert(path_between(g.outgoing, p.reverse(), v, changed));
    }
    if reaches(g.outgoing, v, changed) {
        let p = choose|p: Seq<ModuleId>| path_between(g.outgoing, p, v, changed);
        lemma_path_reversed(g, p);
        assert(path_between(g.incoming, p.reverse(), changed, v));
    }
}

/// Every import site that leads to another module has an edge in the
/// graph: the graph knows all that the import sites say.
pub open spec fn sites_have_edges(g: GraphView) -> bool {
    forall|m: ModuleId, k: int|
        g.valid(m) && 0 <= k < g.modules[m.0 as int].import_info.len() && (#[trigger] edge_target(
            g,
            m.0 as int,
            k,
        )) is Some && edge_target(g, m.0 as int, k)->0 != m ==> g.outgoing[m.0 as int].contains(
            edge_target(g, m.0 as int, k)->0,
        )
}

/// Where the graph has an edge for every import site, every live module
/// is reached along the edges of the graph.
pub proof fn law_live_modules_are_reached(g: GraphView, entry: ModuleId, v: ModuleId)
    requires
        g.wf(),
        g.valid(entry),
        sites_have_edges(g),
        live(g, entry, v),
    ensures
        reaches(g.outgoing, entry, v),
{
    lemma_import_adj_wf(g);
    lemma_reaches_self(g.outgoing, entry);
    let reached = Set::new(|w: ModuleId| reaches(g.outgoing, entry, w));
    assert forall|u: ModuleId, w: ModuleId| reached.contains(u) && #[trigger] step(
        import_adj(g),
        u,
        w,
    ) implies reached.contains(w) by {
        lemma_targets_contain(
            g,
            u.0 as int,
            g.modules[u.0 as int].import_info.len() as int,
            false,
            w,
        );
        let k = choose|k: int|
            0 <= k < g.modules[u.0 as int].import_info.len() && #[trigger] edge_target(
                g,
                u.0 as int,
                k,
            ) == Some(w);
        if w != u {
            assert(g.outgoing[u.0 as int].contains(w));
            assert(step(g.outgoing, u, w));
            lemma_reaches_step(g.outgoing, entry, u, w);
        }
    }
    lemma_reaches_closed(import_adj(g), reached, entry, v);
}

/// The module `v` has exactly one place in the partition: one chunk took
/// it and no other; it is in the vendor list where it is vendor code, and
/// in the file of its chunk where it is not.
pub open spec fn has_one_place(g: GraphView, parts: Partition, v: ModuleId) -> bool {
    &&& exists|i: int| 0 <= i < parts.chunks.len() && (#[trigger] parts.chunks[i]).members@.contains(v)
    &&& forall|i: int, j: int|
        0 <= i < parts.chunks.len() && 0 <= j < parts.chunks.len() && (
        #[trigger] parts.chunks[i]).members@.contains(v) && (
        #[trigger] parts.chunks[j]).members@.contains(v) ==> i == j
    &&& forall|i: int|
        0 <= i < parts.chunks.len() && (#[trigger] parts.chunks[i]).members@.contains(v) ==> (
        parts.chunks[i].modules@.contains(v) <==> !parts.vendor@.contains(v))
    &&& parts.vendor@.contains(v) <==> g.modules[v.0 as int].is_vendor
}

/// Every live module has exactly one place in the partition. This holds
/// where the graph has an edge for every import site.
pub proof fn law_live_module_has_one_place(g: GraphView, entry: ModuleId, parts: Partition, v: ModuleId)
    requires
        g.wf(),
        g.valid(entry),
        sites_have_edges(g),
        parts.is_partition_of(g, entry),
        live(g, entry, v),
    ensures
        has_one_place(g, parts, v),
{
    let chunks = parts.chunks@;
    law_live_modules_are_reached(g, entry, v);
    crate::reach::lemma_reaches_valid(g.outgoing, entry, v);
    assert(taken_before(chunks, chunks.len() as int).contains(v));
    let at = choose|j: int|
        0 <= j < chunks.len() && j < chunks.len() && (#[trigger] chunks[j]).members@.contains(v);
    assert(chunks[at].members@.contains(v));
    assert forall|i: int, j: int|
        0 <= i < parts.chunks.len() && 0 <= j < parts.chunks.len() && (
        #[trigger] parts.chunks[i]).members@.contains(v) && (
        #[trigger] parts.chunks[j]).members@.contains(v) implies i == j by {
        if i < j {
            assert(chunk_fits(g, chunks, j));
            lemma_chunks_apart(g, chunks, i, j, v);
        }
        if j < i {
            assert(chunk_fits(g, chunks, i));
            lemma_chunks_apart(g, chunks, j, i, v);
        }
    }
    assert forall|i: int|
        0 <= i < parts.chunks.len() && (#[trigger] parts.chunks[i]).members@.contains(v) implies (
    parts.chunks[i].modules@.contains(v) <==> !parts.vendor@.contains(v)) by {
        assert(chunk_fits(g, chunks, i));
    }
}

/// Every line of the lines of a chunk names a module of the chunk and the
/// address of the chunk.
proof fn lemma_chunk_lines(g: GraphView, chunk: Chunk, upto: int, k: int)
    requires
        0 <= k < chunk_lines(g, chunk, upto).len(),
        upto <= chunk.modules.len(),
    ensures
        chunk_lines(g, chunk, upto).len() == upto,
        chunk_lines(g, chunk, upto)[k] == (
            g.modules[chunk.modules[k].0 as int].path,
            "/assets/"@ + chunk.name@,
        ),
    decreases upto,
{
    if upto > 0 {
        lemma_chunk_lines_len(g, chunk, upto - 1);
        if k < upto - 1 {
            lemma_chunk_lines(g, chunk, upto - 1, k);
        }
    }
}

/// A chunk gives one line for each of its modules.
proof fn lemma_chunk_lines_len(g: GraphView, chunk: Chunk, upto: int)
    requires
        0 <= upto,
    ensures
        chunk_lines(g, chunk, upto).len() == upto,
    decreases upto,
{
    if upto > 0 {
        lemma_chunk_lines_len(g, chunk, upto - 1);
    }
}

/// Every line of a chunk map leads to a chunk of the list that is not the
/// entry chunk, and names one of its modules.
proof fn lemma_chunk_map_line(g: GraphView, chunks: Seq<Chunk>, upto: int, k: int)
    requires
        0 <= upto <= chunks.len(),
        0 <= k < chunk_map_of(g, chunks, upto).len(),
    ensures
        exists|i: int, j: int|
            0 <= i < upto && 0 <= j < chunks[i].modules.len() && !chunks[i].is_entry
                && #[trigger] chunk_line(g, chunks, i, j) == chunk_map_of(g, chunks, upto)[k],
    decreases upto,
{
    if upto > 0 {
        let rest = chunk_map_of(g, chunks, upto - 1);
        let chunk = chunks[upto - 1];
        if chunk.is_entry || k < rest.len() {
            lemma_chunk_map_line(g, chunks, upto - 1, k);
            let (i, j) = choose|i: int, j: int|
                0 <= i < upto - 1 && 0 <= j < chunks[i].modules.len() && !chunks[i].is_entry
                    && #[trigger] chunk_line(g, chunks, i, j) == rest[k];
            assert(0 <= i < upto && chunk_line(g, chunks, i, j) == chunk_map_of(g, chunks, upto)[k]);
        } else {
            let j = k - rest.len();
            lemma_chunk_lines_len(g, chunk, chunk.modules.len() as int);
            lemma_chunk_lines(g, chunk, chunk.modules.len() as int, j);
            assert(chunk_line(g, chunks, upto - 1, j) == chunk_map_of(g, chunks, upto)[k]);
        }
    }
}

/// The line of the chunk map for the `j`-th module of the `i`-th chunk:
/// the path of the module, and the address of the chunk.
pub open spec fn chunk_line(g: GraphView, chunks: Seq<Chunk>, i: int, j: int) -> (Seq<char>, Seq<char>) {
    (g.modules[chunks[i].modules[j].0 as int].path, "/assets/"@ + chunks[i].name@)
}

/// Every line of the chunk map of a partition leads to a chunk that the
/// partition holds: it tells the path of one of the modules of a chunk
/// other than the entry chunk, and the address under which the file of
/// that chunk is written.
pub proof fn law_chunk_map_leads_to_chunks(g: GraphView, entry: ModuleId, parts: Partition, k: int)
    requires
        parts.is_partition_of(g, entry),
        0 <= k < parts.chunk_map.len(),
    ensures
        exists|i: int, j: int|
            0 < i < parts.chunks.len() && 0 <= j < parts.chunks[i].modules.len()
                && #[trigger] chunk_line(g, parts.chunks@, i, j) == (
                parts.chunk_map[k].0@,
                parts.chunk_map[k].1@,
            ),
{
    let lines = map_lines(parts.chunk_map@);
    assert(lines[k] == (parts.chunk_map[k].0@, parts.chunk_map[k].1@));
    lemma_chunk_map_line(g, parts.chunks@, parts.chunks.len() as int, k);
    let (i, j) = choose|i: int, j: int|
        0 <= i < parts.chunks.len() && 0 <= j < parts.chunks@[i].modules.len()
            && !parts.chunks@[i].is_entry && #[trigger] chunk_line(g, parts.chunks@, i, j)
            == lines[k];
    assert(chunk_fits(g, parts.chunks@, i));
}

} // verus!
