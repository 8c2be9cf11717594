//! The chunk partitioner: which module goes into which file of a bundle.

use vstd::prelude::*;
use vstd::string::StringExecFns;
use crate::graph::{GraphView, ModuleGraph, ModuleId, edge_list_wf, lists_of};
use crate::reach::{
    reaches,
    reaches_avoiding,
    step,
    unmarked,
    lemma_avoiding_closed,
    lemma_avoiding_reaches,
    lemma_avoiding_self,
    lemma_avoiding_step,
    lemma_reaches_closed,
    lemma_reaches_self,
    lemma_reaches_step,
    lemma_unmarked_all,
    lemma_unmarked_mark,
};
use crate::text::{chars_of, push_char};

verus! {

/// A path with each `/` turned into `-`.
pub open spec fn dashed(path: Seq<char>) -> Seq<char> {
    path.map_values(|c: char| if c == '/' { '-' } else { c })
}

/// The number of `-` at the beginning of a text.
pub open spec fn leading_dashes(text: Seq<char>) -> nat
    decreases text.len(),
{
    if text.len() > 0 && text[0] == '-' {
        1 + leading_dashes(text.drop_first())
    } else {
        0
    }
}

/// The slug of a path: each `/` turned into `-`, and the `-` at the
/// beginning taken off.
pub open spec fn slug(path: Seq<char>) -> Seq<char> {
    dashed(path).skip(leading_dashes(dashed(path)) as int)
}

/// The file name of the chunk that is loaded when the module at `path` is
/// imported dynamically.
pub open spec fn chunk_name(path: Seq<char>) -> Seq<char> {
    "chunk-"@ + slug(path) + ".js"@
}

/// The number of leading dashes is the first position that holds no dash.
proof fn lemma_leading_dashes(text: Seq<char>, k: int)
    requires
        0 <= k <= text.len(),
        forall|i: int| 0 <= i < k ==> text[i] == '-',
        k == text.len() || text[k] != '-',
    ensures
        leading_dashes(text) == k,
    decreases k,
{
    if k > 0 {
        lemma_leading_dashes(text.drop_first(), k - 1);
    }
}

/// The file name of the chunk for the module at `path`.
pub fn chunk_file_name(path: &str) -> (name: String)
    ensures
        name@ == chunk_name(path@),
{
    let chars = chars_of(path);
    let mut k: usize = 0;
    while k < chars.len() && (chars[k] == '/' || chars[k] == '-')
        invariant
            k <= chars.len(),
            chars@ == path@,
            forall|i: int| 0 <= i < k ==> dashed(path@)[i] == '-',
        decreases chars.len() - k,
    {
        k += 1;
    }
    proof {
        lemma_leading_dashes(dashed(path@), k as int);
    }
    let mut name = String::from_str("chunk-");
    let mut i: usize = k;
    while i < chars.len()
        invariant
            k <= i <= chars.len(),
            chars@ == path@,
            name@ == "chunk-"@ + dashed(path@).subrange(k as int, i as int),
        decreases chars.len() - i,
    {
        let c = if chars[i] == '/' {
            '-'
        } else {
            chars[i]
        };
        push_char(&mut name, c);
        assert(name@ =~= "chunk-"@ + dashed(path@).subrange(k as int, i + 1));
        i += 1;
    }
    name.append(".js");
    assert(dashed(path@).subrange(k as int, chars.len() as int) =~= slug(path@));
    name
}

/// One file of a bundle.
#[derive(Clone, Debug)]
pub struct Chunk {
    /// The file name: `main.js` for the entry chunk, `chunk-<slug>.js` else.
    pub name: String,
    /// The module that the chunk was grown from: the entry, or the target
    /// of a dynamic import.
    pub root: ModuleId,
    /// All modules that the chunk took, vendor code among them, each once,
    /// in the order in which a breadth-first search along static imports
    /// met them. The root comes first.
    pub members: Vec<ModuleId>,
    /// The members that are not vendor code, in the order of the members:
    /// the modules that the file of the chunk holds.
    pub modules: Vec<ModuleId>,
    /// Whether this is the chunk that starts the application.
    pub is_entry: bool,
}

/// What the partitioner gives.
#[derive(Clone, Debug)]
pub struct Partition {
    /// The chunks, the entry chunk first, the others in the order in which
    /// their roots were met.
    pub chunks: Vec<Chunk>,
    /// The vendor modules of all chunks, each once, chunk by chunk.
    pub vendor: Vec<ModuleId>,
    /// For each module of a chunk other than the entry chunk: its path, and
    /// the address of the chunk.
    pub chunk_map: Vec<(String, String)>,
}

/// The lines of the chunk map that one chunk gives: for each of its
/// modules the path and the address of the chunk.
pub open spec fn chunk_lines(g: GraphView, chunk: Chunk, upto: int) -> Seq<(Seq<char>, Seq<char>)>
    decreases upto,
{
    if upto <= 0 {
        Seq::empty()
    } else {
        chunk_lines(g, chunk, upto - 1).push(
            (g.modules[chunk.modules[upto - 1].0 as int].path, "/assets/"@ + chunk.name@),
        )
    }
}

/// The chunk map of the first `upto` chunks: the lines of each chunk that
/// is not the entry chunk.
pub open spec fn chunk_map_of(g: GraphView, chunks: Seq<Chunk>, upto: int) -> Seq<
    (Seq<char>, Seq<char>),
>
    decreases upto,
{
    if upto <= 0 {
        Seq::empty()
    } else {
        let rest = chunk_map_of(g, chunks, upto - 1);
        let chunk = chunks[upto - 1];
        if chunk.is_entry {
            rest
        } else {
            rest + chunk_lines(g, chunk, chunk.modules.len() as int)
        }
    }
}

/// The texts of a chunk map.
pub open spec fn map_lines(lines: Seq<(String, String)>) -> Seq<(Seq<char>, Seq<char>)> {
    lines.map_values(|l: (String, String)| (l.0@, l.1@))
}

/// The modules that the first `upto` chunks took.
pub open spec fn taken_before(chunks: Seq<Chunk>, upto: int) -> Set<ModuleId> {
    Set::new(
        |v: ModuleId|
            exists|j: int| 0 <= j < upto && j < chunks.len() && (#[trigger] chunks[j]).members@.contains(v),
    )
}

/// `list` with each of the first `upto` of `more` put at its end in turn,
/// unless `barred` or the list holds it by then.
pub open spec fn gathered(
    list: Seq<ModuleId>,
    barred: Seq<ModuleId>,
    more: Seq<ModuleId>,
    upto: int,
) -> Seq<ModuleId>
    decreases upto,
{
    if upto <= 0 {
        list
    } else {
        let before = gathered(list, barred, more, upto - 1);
        let v = more[upto - 1];
        if barred.contains(v) || before.contains(v) {
            before
        } else {
            before.push(v)
        }
    }
}

/// The growth of one chunk, after `steps` more of its `members` were
/// looked at, from position `at` on. Looking at a member puts the targets
/// of its static imports at the end of the members, in the order of the
/// imports, unless an earlier chunk (`earlier`) or this one holds them;
/// then it puts the targets of its dynamic imports at the end of `roots`,
/// unless a chunk or the roots hold them. The result is the members and
/// the roots at the end.
pub open spec fn grown(
    g: GraphView,
    earlier: Seq<ModuleId>,
    members: Seq<ModuleId>,
    roots: Seq<ModuleId>,
    at: int,
    steps: nat,
) -> (Seq<ModuleId>, Seq<ModuleId>)
    decreases steps,
{
    if steps == 0 || at < 0 || at >= members.len() || !g.valid(members[at]) {
        (members, roots)
    } else {
        let statics = g.sync_deps[members[at].0 as int];
        let dynamics = g.async_deps[members[at].0 as int];
        let more = gathered(members, earlier, statics, statics.len() as int);
        let noted = gathered(roots, earlier + more, dynamics, dynamics.len() as int);
        grown(g, earlier, more, noted, at + 1, (steps - 1) as nat)
    }
}

/// The members of the chunks that are made of the `roots` from position
/// `at` on, in `steps` steps, behind the chunks made so far, whose members
/// are `lists` and, one list behind the other, `earlier`. A root that a
/// chunk holds by then makes no chunk; any other root grows one, and the
/// roots that this notes are looked at in their turn.
pub open spec fn planned(
    g: GraphView,
    lists: Seq<Seq<ModuleId>>,
    earlier: Seq<ModuleId>,
    roots: Seq<ModuleId>,
    at: int,
    steps: nat,
) -> Seq<Seq<ModuleId>>
    decreases steps,
{
    if steps == 0 || at < 0 || at >= roots.len() {
        lists
    } else if earlier.contains(roots[at]) {
        planned(g, lists, earlier, roots, at + 1, (steps - 1) as nat)
    } else {
        let chunk = grown(g, earlier, seq![roots[at]], roots, 0, g.len());
        planned(g, lists.push(chunk.0), earlier + chunk.0, chunk.1, at + 1, (steps - 1) as nat)
    }
}

/// The members of the chunks of the modules that `entry` reaches: the
/// chunks in the order in which their roots were noted, the members of
/// each in the order in which a breadth-first search along static imports
/// meets them.
pub open spec fn plan(g: GraphView, entry: ModuleId) -> Seq<Seq<ModuleId>> {
    planned(g, Seq::empty(), Seq::empty(), seq![entry], 0, g.len())
}

/// The members of each of a list of chunks.
pub open spec fn member_lists(chunks: Seq<Chunk>) -> Seq<Seq<ModuleId>> {
    chunks.map_values(|c: Chunk| c.members@)
}

/// Those of the first `upto` of `members` that are vendor code
/// (`vendor`) or that are not (`!vendor`), in their order.
pub open spec fn sorted_out(g: GraphView, members: Seq<ModuleId>, vendor: bool, upto: int) -> Seq<
    ModuleId,
>
    decreases upto,
{
    if upto <= 0 {
        Seq::empty()
    } else {
        let before = sorted_out(g, members, vendor, upto - 1);
        let v = members[upto - 1];
        if g.modules[v.0 as int].is_vendor == vendor {
            before.push(v)
        } else {
            before
        }
    }
}

/// The vendor modules of the first `upto` chunks, chunk by chunk.
pub open spec fn vendor_of(g: GraphView, chunks: Seq<Chunk>, upto: int) -> Seq<ModuleId>
    decreases upto,
{
    if upto <= 0 {
        Seq::empty()
    } else {
        vendor_of(g, chunks, upto - 1) + sorted_out(
            g,
            chunks[upto - 1].members@,
            true,
            chunks[upto - 1].members.len() as int,
        )
    }
}

/// The `i`-th chunk is what the partitioner makes of its root: the entry
/// chunk is the first, named `main.js`; every other chunk is named by the
/// slug of its root, which one of the modules of the chunks before it
/// imports dynamically. The chunk took its root and all that the root
/// reaches along static imports without entering a module of the chunks
/// before it; and the file of the chunk holds those of them that are not
/// vendor code.
pub open spec fn chunk_fits(g: GraphView, chunks: Seq<Chunk>, i: int) -> bool {
    let chunk = chunks[i];
    &&& chunk.is_entry == (i == 0)
    &&& g.valid(chunk.root)
    &&& chunk.name@ == if i == 0 {
        "main.js"@
    } else {
        chunk_name(g.modules[chunk.root.0 as int].path)
    }
    &&& i > 0 ==> exists|u: ModuleId|
        taken_before(chunks, i).contains(u) && #[trigger] step(g.async_deps, u, chunk.root)
    &&& chunk.members.len() > 0
    &&& chunk.members[0] == chunk.root
    &&& chunk.members@.no_duplicates()
    &&& forall|v: ModuleId|
        #![trigger chunk.members@.contains(v)]
        #![trigger reaches_avoiding(g.sync_deps, taken_before(chunks, i), chunk.root, v)]
        chunk.members@.contains(v) <==> reaches_avoiding(
            g.sync_deps,
            taken_before(chunks, i),
            chunk.root,
            v,
        )
    &&& chunk.modules@.no_duplicates()
    &&& forall|v: ModuleId|
        #![trigger chunk.modules@.contains(v)]
        #![trigger chunk.members@.contains(v)]
        chunk.modules@.contains(v) <==> chunk.members@.contains(v)
            && !g.modules[v.0 as int].is_vendor
}

impl Partition {
    /// The partition is the one of the modules that `entry` reaches in `g`:
    /// the first chunk grows from the entry, every chunk is what the
    /// partitioner makes of its root, the chunks together took exactly the
    /// modules that the entry reaches, the vendor list holds the vendor
    /// modules among them, and the chunk map tells where the modules of the
    /// chunks other than the entry chunk are. The order of the chunks and
    /// of their members is that of `plan`.
    pub open spec fn is_partition_of(&self, g: GraphView, entry: ModuleId) -> bool {
        let chunks = self.chunks@;
        &&& chunks.len() > 0
        &&& chunks[0].root == entry
        &&& forall|i: int| 0 <= i < chunks.len() ==> #[trigger] chunk_fits(g, chunks, i)
        &&& self.vendor@.no_duplicates()
        &&& forall|v: ModuleId|
            #![trigger self.vendor@.contains(v)]
            #![trigger taken_before(chunks, chunks.len() as int).contains(v)]
            self.vendor@.contains(v) <==> g.valid(v) && g.modules[v.0 as int].is_vendor
                && taken_before(chunks, chunks.len() as int).contains(v)
        &&& forall|v: ModuleId|
            #![trigger reaches(g.outgoing, entry, v)]
            #![trigger taken_before(chunks, chunks.len() as int).contains(v)]
            reaches(g.outgoing, entry, v) <==> taken_before(chunks, chunks.len() as int).contains(v)
        &&& map_lines(self.chunk_map@) == chunk_map_of(g, chunks, chunks.len() as int)
        &&& member_lists(chunks) == plan(g, entry)
        &&& forall|i: int|
            0 <= i < chunks.len() ==> (#[trigger] chunks[i]).modules@ == sorted_out(
                g,
                chunks[i].members@,
                false,
                chunks[i].members.len() as int,
            )
        &&& self.vendor@ == vendor_of(g, chunks, chunks.len() as int)
    }
}

/// All modules of a chunk of a partition name modules of the graph.
pub proof fn lemma_chunk_modules_valid(g: GraphView, chunks: Seq<Chunk>, i: int)
    requires
        g.wf(),
        0 <= i < chunks.len(),
        chunk_fits(g, chunks, i),
    ensures
        forall|k: int| 0 <= k < chunks[i].members.len() ==> g.valid(#[trigger] chunks[i].members[k]),
        forall|k: int| 0 <= k < chunks[i].modules.len() ==> g.valid(#[trigger] chunks[i].modules[k]),
        forall|k: int|
            0 <= k < chunks[i].modules.len() ==> !g.modules[(
            #[trigger] chunks[i].modules[k]).0 as int].is_vendor,
{
    let chunk = chunks[i];
    assert forall|k: int| 0 <= k < chunk.members.len() implies g.valid(#[trigger] chunk.members[k]) by {
        assert(chunk.members@.contains(chunk.members[k]));
        lemma_avoiding_reaches(g.sync_deps, taken_before(chunks, i), chunk.root, chunk.members[k]);
        crate::reach::lemma_reaches_valid(g.sync_deps, chunk.root, chunk.members[k]);
    }
    assert forall|k: int| 0 <= k < chunk.modules.len() implies g.valid(#[trigger] chunk.modules[k])
        && !g.modules[chunk.modules[k].0 as int].is_vendor by {
        assert(chunk.modules@.contains(chunk.modules[k]));
        assert(chunk.members@.contains(chunk.modules[k]));
        let at = choose|at: int| 0 <= at < chunk.members@.len() && chunk.members@[at] == chunk.modules[k];
        assert(g.valid(chunk.members[at]));
    }
}

/// No module is taken by two chunks of a partition.
pub proof fn lemma_chunks_apart(g: GraphView, chunks: Seq<Chunk>, i: int, j: int, v: ModuleId)
    requires
        0 <= i < j < chunks.len(),
        chunk_fits(g, chunks, j),
        chunks[i].members@.contains(v),
    ensures
        !chunks[j].members@.contains(v),
{
    assert(taken_before(chunks, j).contains(v));
    if chunks[j].members@.contains(v) {
        lemma_avoiding_reaches(g.sync_deps, taken_before(chunks, j), chunks[j].root, v);
    }
}

/// What holds while chunks are grown. `placed` are the modules that have a
/// chunk, `pending` those of them whose imports were not looked at yet.
spec fn part_inv(
    g: GraphView,
    entry: ModuleId,
    assigned: Seq<bool>,
    queued: Seq<bool>,
    roots: Seq<ModuleId>,
    placed: Seq<ModuleId>,
    pending: Seq<ModuleId>,
) -> bool {
    &&& assigned.len() == g.len()
    &&& queued.len() == g.len()
    &&& placed.no_duplicates()
    &&& forall|v: ModuleId| g.valid(v) ==> (#[trigger] assigned[v.0 as int] <==> placed.contains(v))
    &&& forall|k: int|
        0 <= k < placed.len() ==> g.valid(#[trigger] placed[k]) && reaches(
            g.outgoing,
            entry,
            placed[k],
        )
    &&& forall|k: int|
        0 <= k < roots.len() ==> g.valid(#[trigger] roots[k]) && reaches(
            g.outgoing,
            entry,
            roots[k],
        )
    &&& forall|v: ModuleId| g.valid(v) ==> (#[trigger] queued[v.0 as int] <==> roots.contains(v))
    &&& forall|v: ModuleId, d: ModuleId|
        placed.contains(v) && !pending.contains(v) && #[trigger] step(g.sync_deps, v, d)
            ==> assigned[d.0 as int]
    &&& forall|v: ModuleId, a: ModuleId|
        placed.contains(v) && !pending.contains(v) && #[trigger] step(g.async_deps, v, a)
            ==> assigned[a.0 as int] || queued[a.0 as int]
    &&& forall|k: int| 1 <= k < roots.len() ==> found_by(g, placed, #[trigger] roots[k])
}

/// `root` is the target of a dynamic import of one of the modules `placed`.
spec fn found_by(g: GraphView, placed: Seq<ModuleId>, root: ModuleId) -> bool {
    exists|u: ModuleId| placed.contains(u) && #[trigger] step(g.async_deps, u, root)
}

/// What was found by some modules is found by more modules.
proof fn lemma_found_by_more(g: GraphView, fewer: Seq<ModuleId>, more: Seq<ModuleId>, root: ModuleId)
    requires
        found_by(g, fewer, root),
        forall|v: ModuleId| fewer.contains(v) ==> more.contains(v),
    ensures
        found_by(g, more, root),
{
    let u = choose|u: ModuleId| fewer.contains(u) && #[trigger] step(g.async_deps, u, root);
    assert(more.contains(u) && step(g.async_deps, u, root));
}

/// An edge of either kind is an edge of the graph.
proof fn lemma_kind_is_edge(g: GraphView, v: ModuleId, d: ModuleId)
    requires
        g.wf(),
        step(g.sync_deps, v, d) || step(g.async_deps, v, d),
    ensures
        step(g.outgoing, v, d),
{
    assert(g.outgoing[v.0 as int].contains(d) <==> (g.sync_deps[v.0 as int].contains(d)
        || g.async_deps[v.0 as int].contains(d)));
}

/// Appending to a list without repeats a module that it does not hold
/// leaves a list without repeats.
proof fn lemma_push_fresh(list: Seq<ModuleId>, v: ModuleId)
    requires
        list.no_duplicates(),
        !list.contains(v),
    ensures
        list.push(v).no_duplicates(),
        forall|w: ModuleId| list.push(v).contains(w) <==> list.contains(w) || w == v,
{
    let next = list.push(v);
    assert forall|w: ModuleId| next.contains(w) <==> list.contains(w) || w == v by {
        if next.contains(w) {
            let k = choose|k: int| 0 <= k < next.len() && next[k] == w;
            if k < list.len() {
                assert(list[k] == w);
            }
        }
        if list.contains(w) {
            let k = choose|k: int| 0 <= k < list.len() && list[k] == w;
            assert(next[k] == w);
        }
        if w == v {
            assert(next[list.len() as int] == w);
        }
    }
    assert forall|a: int, b: int| 0 <= a < next.len() && 0 <= b < next.len() && a != b implies next[a]
        != next[b] by {
        if a < list.len() && b < list.len() {
        } else if a < list.len() {
            assert(list.contains(list[a]));
        } else {
            assert(list.contains(list[b]));
        }
    }
}

/// Grows one chunk from `root`: takes `root` and all that it reaches
/// along static imports and that has no chunk yet, in the order of a
/// breadth-first search, and notes the targets of the dynamic imports of
/// what it takes as roots of later chunks.
fn grow_chunk(
    graph: &ModuleGraph,
    root: ModuleId,
    assigned: &mut Vec<bool>,
    queued: &mut Vec<bool>,
    roots: &mut Vec<ModuleId>,
    Ghost(entry): Ghost<ModuleId>,
    Ghost(placed): Ghost<Seq<ModuleId>>,
) -> (members: Vec<ModuleId>)
    requires
        graph.wf(),
        graph@.valid(root),
        part_inv(
            graph@,
            entry,
            old(assigned)@,
            old(queued)@,
            old(roots)@,
            placed,
            Seq::<ModuleId>::empty(),
        ),
        !old(assigned)@[root.0 as int],
        reaches(graph@.outgoing, entry, root),
        unmarked(old(assigned)@) + placed.len() == graph@.len(),
        unmarked(old(queued)@) + old(roots).len() == graph@.len(),
    ensures
        (members@, final(roots)@) == grown(graph@, placed, seq![root], old(roots)@, 0, graph@.len()),
        unmarked(final(assigned)@) + placed.len() + members.len() == graph@.len(),
        unmarked(final(queued)@) + final(roots).len() == graph@.len(),
        part_inv(
            graph@,
            entry,
            final(assigned)@,
            final(queued)@,
            final(roots)@,
            placed + members@,
            Seq::<ModuleId>::empty(),
        ),
        members@.len() > 0,
        members@[0] == root,
        members@.no_duplicates(),
        forall|k: int| 0 <= k < members.len() ==> reaches(graph@.sync_deps, root, #[trigger] members[k]),
        forall|v: ModuleId|
            members@.contains(v) <==> reaches_avoiding(graph@.sync_deps, placed.to_set(), root, v),
        final(roots).len() >= old(roots).len(),
        forall|k: int| 0 <= k < old(roots).len() ==> final(roots)[k] == old(roots)[k],
        forall|i: int| 0 <= i < old(assigned).len() && old(assigned)[i] ==> final(assigned)[i],
        2 * unmarked(final(queued)@) + final(roots).len() <= 2 * unmarked(old(queued)@) + old(
            roots,
        ).len(),
{
    let ghost g = graph@;
    let sync_lists = graph.sync_lists();
    let async_lists = graph.async_lists();
    let mut members: Vec<ModuleId> = Vec::new();
    let ghost avoid = placed.to_set();
    proof {
        lemma_unmarked_mark(assigned@, root.0 as int);
        lemma_push_fresh(placed, root);
        lemma_reaches_self(g.sync_deps, root);
        assert(placed + seq![root] =~= placed.push(root));
        assert(!placed.contains(root));
        lemma_avoiding_self(g.sync_deps, avoid, root);
    }
    assigned[root.0] = true;
    members.push(root);
    assert(members@ =~= seq![root]);
    assert(members@.subrange(0, 1) =~= seq![root]);
    proof {
        assert forall|k: int| 1 <= k < roots.len() implies found_by(
            g,
            placed + members@,
            #[trigger] roots[k],
        ) by {
            assert forall|v: ModuleId| placed.contains(v) implies (placed + members@).contains(v) by {
                let q = choose|q: int| 0 <= q < placed.len() && placed[q] == v;
                assert((placed + members@)[q] == v);
            }
            lemma_found_by_more(g, placed, placed + members@, roots[k]);
        }
    }
    let mut idx: usize = 0;
    while idx < members.len()
        invariant
            graph.wf(),
            g == graph@,
            g.valid(root),
            lists_of(sync_lists@) == g.sync_deps,
            lists_of(async_lists@) == g.async_deps,
            idx <= members.len(),
            members@.len() > 0,
            members@[0] == root,
            part_inv(
                g,
                entry,
                assigned@,
                queued@,
                roots@,
                placed + members@,
                members@.subrange(idx as int, members.len() as int),
            ),
            forall|k: int| 0 <= k < members.len() ==> reaches(g.sync_deps, root, #[trigger] members[k]),
            avoid == placed.to_set(),
            forall|k: int|
                0 <= k < members.len() ==> reaches_avoiding(
                    g.sync_deps,
                    avoid,
                    root,
                    #[trigger] members[k],
                ),
            roots.len() >= old(roots).len(),
            forall|k: int| 0 <= k < old(roots).len() ==> roots[k] == old(roots)[k],
            old(assigned).len() == g.len(),
            forall|i: int| 0 <= i < old(assigned).len() && old(assigned)[i] ==> assigned[i],
            2 * unmarked(queued@) + roots.len() <= 2 * unmarked(old(queued)@) + old(roots).len(),
            unmarked(assigned@) + placed.len() + members.len() == g.len(),
            unmarked(queued@) + roots.len() == g.len(),
            grown(g, placed, members@, roots@, idx as int, (g.len() - idx) as nat) == grown(
                g,
                placed,
                seq![root],
                old(roots)@,
                0,
                g.len(),
            ),
        decreases 2 * unmarked(assigned@) + (members.len() - idx),
    {
        let m = members[idx];
        proof {
            assert((placed + members@)[placed.len() + idx] == m);
            assert((placed + members@).contains(m));
        }
        let deps = &sync_lists[m.0];
        assert(deps@ == g.sync_deps[m.0 as int]);
        let ghost marks_at_entry = assigned@;
        let ghost len_at_entry = members.len();
        let ghost members_at_entry = members@;
        let ghost roots_at_entry = roots@;
        let mut j: usize = 0;
        while j < deps.len()
            invariant
                graph.wf(),
                g == graph@,
                g.valid(root),
                g.valid(m),
                deps@ == g.sync_deps[m.0 as int],
                j <= deps.len(),
                idx < members.len(),
                m == members@[idx as int],
                members@.len() > 0,
                members@[0] == root,
                members.len() >= len_at_entry,
                (placed + members@).contains(m),
                part_inv(
                    g,
                    entry,
                    assigned@,
                    queued@,
                    roots@,
                    placed + members@,
                    members@.subrange(idx as int, members.len() as int),
                ),
                forall|k: int|
                    0 <= k < members.len() ==> reaches(g.sync_deps, root, #[trigger] members[k]),
                avoid == placed.to_set(),
                forall|k: int|
                    0 <= k < members.len() ==> reaches_avoiding(
                        g.sync_deps,
                        avoid,
                        root,
                        #[trigger] members[k],
                    ),
                forall|k: int| 0 <= k < j ==> assigned@[deps@[k].0 as int],
                old(assigned).len() == g.len(),
                forall|i: int| 0 <= i < old(assigned).len() && old(assigned)[i] ==> assigned[i],
                2 * unmarked(assigned@) + members.len() <= 2 * unmarked(marks_at_entry)
                    + len_at_entry,
                unmarked(assigned@) + placed.len() + members.len() == g.len(),
                members@ == gathered(members_at_entry, placed, deps@, j as int),
            decreases deps.len() - j,
        {
            let d = deps[j];
            proof {
                lemma_concat_contains(placed, members@);
                assert(edge_list_wf(g.sync_deps[m.0 as int], m.0 as int, g.len()));
                assert(g.sync_deps[m.0 as int][j as int] == d);
                assert(step(g.sync_deps, m, d));
                lemma_kind_is_edge(g, m, d);
            }
            if !assigned[d.0] {
                let ghost all = placed + members@;
                let ghost pending = members@.subrange(idx as int, members.len() as int);
                proof {
                    lemma_unmarked_mark(assigned@, d.0 as int);
                    lemma_push_fresh(all, d);
                    let at = choose|at: int| 0 <= at < all.len() && all[at] == m;
                    lemma_reaches_step(g.outgoing, entry, m, d);
                    lemma_reaches_step(g.sync_deps, root, m, d);
                    assert(!placed.contains(d)) by {
                        if placed.contains(d) {
                            let q = choose|q: int| 0 <= q < placed.len() && placed[q] == d;
                            assert(all[q] == d);
                        }
                    }
                    assert(reaches_avoiding(g.sync_deps, avoid, root, members[idx as int]));
                    lemma_avoiding_step(g.sync_deps, avoid, root, m, d);
                }
                assigned[d.0] = true;
                members.push(d);
                proof {
                    let all_now = placed + members@;
                    let pending_now = members@.subrange(idx as int, members.len() as int);
                    assert(all_now =~= all.push(d));
                    assert(pending_now =~= pending.push(d));
                    assert forall|v: ModuleId| !pending_now.contains(v) implies !pending.contains(
                        v,
                    ) by {
                        if pending.contains(v) {
                            let k = choose|k: int| 0 <= k < pending.len() && pending[k] == v;
                            assert(pending_now[k] == v);
                        }
                    }
                    assert(pending_now[pending.len() as int] == d);
                    assert(pending_now.contains(d));
                    assert forall|k: int| 1 <= k < roots.len() implies found_by(
                        g,
                        all_now,
                        #[trigger] roots[k],
                    ) by {
                        lemma_found_by_more(g, all, all_now, roots[k]);
                    }
                    assert forall|v: ModuleId, x: ModuleId|
                        all_now.contains(v) && !pending_now.contains(v) && #[trigger] step(
                            g.sync_deps,
                            v,
                            x,
                        ) implies assigned@[x.0 as int] by {
                        assert(all.contains(v));
                        assert(!pending.contains(v));
                    }
                    assert forall|v: ModuleId, x: ModuleId|
                        all_now.contains(v) && !pending_now.contains(v) && #[trigger] step(
                            g.async_deps,
                            v,
                            x,
                        ) implies assigned@[x.0 as int] || queued@[x.0 as int] by {
                        assert(all.contains(v));
                        assert(!pending.contains(v));
                    }
                    assert(part_inv(g, entry, assigned@, queued@, roots@, all_now, pending_now));
                }
            }
            j += 1;
        }
        let adeps = &async_lists[m.0];
        assert(adeps@ == g.async_deps[m.0 as int]);
        let mut a: usize = 0;
        while a < adeps.len()
            invariant
                graph.wf(),
                g == graph@,
                g.valid(m),
                adeps@ == g.async_deps[m.0 as int],
                a <= adeps.len(),
                idx < members.len(),
                m == members@[idx as int],
                (placed + members@).contains(m),
                part_inv(
                    g,
                    entry,
                    assigned@,
                    queued@,
                    roots@,
                    placed + members@,
                    members@.subrange(idx as int, members.len() as int),
                ),
                forall|k: int|
                    0 <= k < a ==> assigned@[adeps@[k].0 as int] || queued@[adeps@[k].0 as int],
                roots.len() >= old(roots).len(),
                forall|k: int| 0 <= k < old(roots).len() ==> roots[k] == old(roots)[k],
                2 * unmarked(queued@) + roots.len() <= 2 * unmarked(old(queued)@) + old(roots).len(),
                unmarked(queued@) + roots.len() == g.len(),
                roots@ == gathered(roots_at_entry, placed + members@, adeps@, a as int),
            decreases adeps.len() - a,
        {
            let t = adeps[a];
            proof {
                assert(edge_list_wf(g.async_deps[m.0 as int], m.0 as int, g.len()));
                assert(g.async_deps[m.0 as int][a as int] == t);
                assert(step(g.async_deps, m, t));
                lemma_kind_is_edge(g, m, t);
            }
            if !assigned[t.0] && !queued[t.0] {
                let ghost roots_before = roots@;
                proof {
                    lemma_unmarked_mark(queued@, t.0 as int);
                    let all = placed + members@;
                    let at = choose|at: int| 0 <= at < all.len() && all[at] == m;
                    lemma_reaches_step(g.outgoing, entry, m, t);
                }
                queued[t.0] = true;
                roots.push(t);
                proof {
                    assert forall|v: ModuleId| g.valid(v) implies (#[trigger] queued@[v.0 as int]
                        <==> roots@.contains(v)) by {
                        if roots@.contains(v) {
                            let k = choose|k: int| 0 <= k < roots@.len() && roots@[k] == v;
                            if k < roots_before.len() {
                                assert(roots_before[k] == v);
                                assert(roots_before.contains(v));
                            }
                        }
                        if roots_before.contains(v) {
                            let k = choose|k: int|
                                0 <= k < roots_before.len() && roots_before[k] == v;
                            assert(roots@[k] == v);
                        }
                        if v == t {
                            assert(roots@[roots_before.len() as int] == v);
                        }
                    }
                    assert forall|k: int| 1 <= k < roots.len() implies found_by(
                        g,
                        placed + members@,
                        #[trigger] roots[k],
                    ) by {
                        if k < roots_before.len() {
                            assert(roots@[k] == roots_before[k]);
                        } else {
                            assert((placed + members@).contains(m) && step(g.async_deps, m, t));
                        }
                    }
                    assert(part_inv(
                        g,
                        entry,
                        assigned@,
                        queued@,
                        roots@,
                        placed + members@,
                        members@.subrange(idx as int, members.len() as int),
                    ));
                }
            }
            a += 1;
        }
        proof {
            let all = placed + members@;
            let pending = members@.subrange(idx as int, members.len() as int);
            let rest = members@.subrange(idx + 1, members.len() as int);
            assert(marks_at_entry.len() == assigned@.len());
            assert forall|v: ModuleId| all.contains(v) && !rest.contains(v) implies v == m
                || !pending.contains(v) by {
                if pending.contains(v) && v != m {
                    let k = choose|k: int| 0 <= k < pending.len() && pending[k] == v;
                    assert(rest[k - 1] == v);
                }
            }
            assert forall|v: ModuleId, d: ModuleId|
                all.contains(v) && !rest.contains(v) && #[trigger] step(
                    g.sync_deps,
                    v,
                    d,
                ) implies assigned@[d.0 as int] by {
                if v == m {
                    let k = choose|k: int| 0 <= k < deps@.len() && deps@[k] == d;
                    assert(assigned@[deps@[k].0 as int]);
                }
            }
            assert forall|v: ModuleId, t: ModuleId|
                all.contains(v) && !rest.contains(v) && #[trigger] step(
                    g.async_deps,
                    v,
                    t,
                ) implies assigned@[t.0 as int] || queued@[t.0 as int] by {
                if v == m {
                    let k = choose|k: int| 0 <= k < adeps@.len() && adeps@[k] == t;
                    assert(assigned@[adeps@[k].0 as int] || queued@[adeps@[k].0 as int]);
                }
            }
            assert(part_inv(g, entry, assigned@, queued@, roots@, all, rest));
            assert(grown(g, placed, members_at_entry, roots_at_entry, idx as int, (g.len() - idx) as nat)
                == grown(g, placed, members@, roots@, idx + 1, (g.len() - idx - 1) as nat));
        }
        idx += 1;
    }
    proof {
        assert(members@.subrange(members.len() as int, members.len() as int) =~= Seq::<
            ModuleId,
        >::empty());
        let all = placed + members@;
        assert forall|a: int, b: int|
            0 <= a < members.len() && 0 <= b < members.len() && a != b implies members[a]
            != members[b] by {
            assert(all[placed.len() + a] == members[a]);
            assert(all[placed.len() + b] == members[b]);
        }
        let taken = members@.to_set();
        assert(taken.contains(members@[0]));
        assert forall|u: ModuleId, w: ModuleId|
            taken.contains(u) && #[trigger] step(g.sync_deps, u, w) && !avoid.contains(
                w,
            ) implies taken.contains(w) by {
            let k = choose|k: int| 0 <= k < members@.len() && members@[k] == u;
            assert(all[placed.len() + k] == u);
            assert(all.contains(u));
            assert(assigned@[w.0 as int]);
            assert(all.contains(w));
            let q = choose|q: int| 0 <= q < all.len() && all[q] == w;
            if q < placed.len() {
                assert(placed[q] == w);
                assert(placed.contains(w));
            } else {
                assert(members@[q - placed.len()] == w);
            }
        }
        assert forall|v: ModuleId|
            members@.contains(v) <==> reaches_avoiding(g.sync_deps, avoid, root, v) by {
            if reaches_avoiding(g.sync_deps, avoid, root, v) {
                lemma_avoiding_closed(g.sync_deps, avoid, taken, root, v);
            }
            if members@.contains(v) {
                let k = choose|k: int| 0 <= k < members@.len() && members@[k] == v;
                assert(reaches_avoiding(g.sync_deps, avoid, root, members[k]));
            }
        }
    }
    members
}

/// Parts the members of a chunk: those that are vendor code go to the
/// vendor list, the others are returned, both in their order.
fn split_members(graph: &ModuleGraph, members: &Vec<ModuleId>, vendor: &mut Vec<ModuleId>) -> (app:
    Vec<ModuleId>)
    requires
        members@.no_duplicates(),
        forall|k: int| 0 <= k < members.len() ==> graph@.valid(#[trigger] members[k]),
        old(vendor)@.no_duplicates(),
        forall|k: int| 0 <= k < members.len() ==> !old(vendor)@.contains(#[trigger] members[k]),
    ensures
        app@ == sorted_out(graph@, members@, false, members.len() as int),
        final(vendor)@ == old(vendor)@ + sorted_out(graph@, members@, true, members.len() as int),
        app@.no_duplicates(),
        forall|v: ModuleId|
            #![trigger app@.contains(v)]
            #![trigger members@.contains(v)]
            app@.contains(v) <==> members@.contains(v) && !graph@.modules[v.0 as int].is_vendor,
        final(vendor)@.no_duplicates(),
        forall|v: ModuleId|
            #![trigger final(vendor)@.contains(v)]
            #![trigger members@.contains(v)]
            final(vendor)@.contains(v) <==> old(vendor)@.contains(v) || (members@.contains(v)
                && graph@.modules[v.0 as int].is_vendor),
{
    let mut app: Vec<ModuleId> = Vec::new();
    let mut k: usize = 0;
    assert(vendor@ =~= old(vendor)@ + sorted_out(graph@, members@, true, 0));
    while k < members.len()
        invariant
            k <= members.len(),
            app@ == sorted_out(graph@, members@, false, k as int),
            vendor@ == old(vendor)@ + sorted_out(graph@, members@, true, k as int),
            members@.no_duplicates(),
            forall|i: int| 0 <= i < members.len() ==> graph@.valid(#[trigger] members[i]),
            forall|i: int| 0 <= i < members.len() ==> !old(vendor)@.contains(#[trigger] members[i]),
            app@.no_duplicates(),
            vendor@.no_duplicates(),
            forall|v: ModuleId|
                app@.contains(v) <==> members@.take(k as int).contains(v)
                    && !graph@.modules[v.0 as int].is_vendor,
            forall|v: ModuleId|
                vendor@.contains(v) <==> old(vendor)@.contains(v) || (members@.take(
                    k as int,
                ).contains(v) && graph@.modules[v.0 as int].is_vendor),
        decreases members.len() - k,
    {
        let v = members[k];
        let ghost head = members@.take(k as int);
        let ghost next = members@.take(k + 1);
        proof {
            assert(next =~= head.push(v));
            assert(!head.contains(v)) by {
                if head.contains(v) {
                    let i = choose|i: int| 0 <= i < head.len() && head[i] == v;
                    assert(members@[i] == members@[k as int]);
                }
            }
            lemma_push_fresh(head, v);
        }
        let is_vendor = match graph.module(v) {
            Some(module) => module.is_vendor,
            None => false,
        };
        assert(is_vendor == graph@.modules[v.0 as int].is_vendor);
        let ghost app_before = app@;
        let ghost vendor_now = vendor@;
        assert(!app_before.contains(v));
        assert(!vendor_now.contains(v)) by {
            assert(!old(vendor)@.contains(members[k as int]));
        }
        if is_vendor {
            proof {
                lemma_push_fresh(vendor@, v);
            }
            vendor.push(v);
            assert(vendor@ =~= old(vendor)@ + sorted_out(graph@, members@, true, k + 1));
        } else {
            proof {
                lemma_push_fresh(app@, v);
            }
            app.push(v);
        }
        proof {
            assert forall|w: ModuleId|
                app@.contains(w) <==> next.contains(w) && !graph@.modules[w.0 as int].is_vendor by {
                assert(next.contains(w) <==> head.contains(w) || w == v);
                assert(app_before.contains(w) <==> head.contains(w)
                    && !graph@.modules[w.0 as int].is_vendor);
            }
            assert forall|w: ModuleId|
                vendor@.contains(w) <==> old(vendor)@.contains(w) || (next.contains(w)
                    && graph@.modules[w.0 as int].is_vendor) by {
                assert(next.contains(w) <==> head.contains(w) || w == v);
                assert(vendor_now.contains(w) <==> old(vendor)@.contains(w) || (head.contains(w)
                    && graph@.modules[w.0 as int].is_vendor));
            }
        }
        k += 1;
    }
    assert(members@.take(members.len() as int) =~= members@);
    app
}

/// Appends to the chunk map the lines of one chunk.
fn push_chunk_lines(graph: &ModuleGraph, lines: &mut Vec<(String, String)>, chunk: &Chunk)
    requires
        forall|k: int| 0 <= k < chunk.modules.len() ==> graph@.valid(#[trigger] chunk.modules[k]),
    ensures
        map_lines(final(lines)@) == map_lines(old(lines)@) + chunk_lines(
            graph@,
            *chunk,
            chunk.modules.len() as int,
        ),
{
    let ghost start = map_lines(lines@);
    let mut k: usize = 0;
    assert(start + chunk_lines(graph@, *chunk, 0) =~= start);
    while k < chunk.modules.len()
        invariant
            k <= chunk.modules.len(),
            forall|i: int| 0 <= i < chunk.modules.len() ==> graph@.valid(#[trigger] chunk.modules[i]),
            map_lines(lines@) == start + chunk_lines(graph@, *chunk, k as int),
        decreases chunk.modules.len() - k,
    {
        let ghost before = map_lines(lines@);
        match graph.module(chunk.modules[k]) {
            Some(module) => {
                let mut address = String::from_str("/assets/");
                address.append(chunk.name.as_str());
                lines.push((module.path.clone(), address));
                assert(map_lines(lines@) =~= before.push(
                    (
                        graph@.modules[chunk.modules[k as int].0 as int].path,
                        "/assets/"@ + chunk.name@,
                    ),
                ));
            },
            None => {},
        }
        assert(map_lines(lines@) =~= start + chunk_lines(graph@, *chunk, k + 1));
        k += 1;
    }
}

/// The chunk map of a list of chunks does not change when a chunk is put
/// at the end of the list.
proof fn lemma_chunk_map_prefix(g: GraphView, chunks: Seq<Chunk>, more: Chunk, upto: int)
    requires
        0 <= upto <= chunks.len(),
    ensures
        chunk_map_of(g, chunks.push(more), upto) == chunk_map_of(g, chunks, upto),
    decreases upto,
{
    if upto > 0 {
        lemma_chunk_map_prefix(g, chunks, more, upto - 1);
        assert(chunks.push(more)[upto - 1] == chunks[upto - 1]);
    }
}

/// The vendor modules of a list of chunks do not change when a chunk is
/// put at the end of the list.
proof fn lemma_vendor_prefix(g: GraphView, chunks: Seq<Chunk>, more: Chunk, upto: int)
    requires
        0 <= upto <= chunks.len(),
    ensures
        vendor_of(g, chunks.push(more), upto) == vendor_of(g, chunks, upto),
    decreases upto,
{
    if upto > 0 {
        lemma_vendor_prefix(g, chunks, more, upto - 1);
        assert(chunks.push(more)[upto - 1] == chunks[upto - 1]);
    }
}

/// What holds of the chunks made so far: `placed` are the modules that
/// the chunks took.
spec fn chunks_inv(
    g: GraphView,
    entry: ModuleId,
    chunks: Seq<Chunk>,
    vendor: Seq<ModuleId>,
    placed: Seq<ModuleId>,
) -> bool {
    &&& forall|i: int| 0 <= i < chunks.len() ==> #[trigger] chunk_fits(g, chunks, i)
    &&& forall|v: ModuleId|
        #![trigger placed.contains(v)]
        #![trigger taken_before(chunks, chunks.len() as int).contains(v)]
        placed.contains(v) <==> taken_before(chunks, chunks.len() as int).contains(v)
    &&& vendor.no_duplicates()
    &&& forall|v: ModuleId|
        #![trigger vendor.contains(v)]
        #![trigger placed.contains(v)]
        vendor.contains(v) <==> g.valid(v) && g.modules[v.0 as int].is_vendor && placed.contains(v)
}

/// A list holds what one of its parts holds.
proof fn lemma_concat_contains(front: Seq<ModuleId>, back: Seq<ModuleId>)
    ensures
        forall|v: ModuleId|
            (front + back).contains(v) <==> front.contains(v) || back.contains(v),
{
    let all = front + back;
    assert forall|v: ModuleId| all.contains(v) <==> front.contains(v) || back.contains(v) by {
        if all.contains(v) {
            let p = choose|p: int| 0 <= p < all.len() && all[p] == v;
            if p < front.len() {
                assert(front[p] == v);
            } else {
                assert(back[p - front.len()] == v);
            }
        }
        if front.contains(v) {
            let p = choose|p: int| 0 <= p < front.len() && front[p] == v;
            assert(all[p] == v);
        }
        if back.contains(v) {
            let p = choose|p: int| 0 <= p < back.len() && back[p] == v;
            assert(all[front.len() + p] == v);
        }
    }
}

/// A new chunk, made of modules that no chunk had taken, keeps what holds
/// of the chunks.
proof fn lemma_place_chunk(
    g: GraphView,
    entry: ModuleId,
    chunks: Seq<Chunk>,
    vendor: Seq<ModuleId>,
    placed: Seq<ModuleId>,
    chunk: Chunk,
    vendor_after: Seq<ModuleId>,
)
    requires
        chunks_inv(g, entry, chunks, vendor, placed),
        chunk.is_entry == (chunks.len() == 0),
        g.valid(chunk.root),
        chunk.name@ == if chunks.len() == 0 {
            "main.js"@
        } else {
            chunk_name(g.modules[chunk.root.0 as int].path)
        },
        chunks.len() > 0 ==> found_by(g, placed, chunk.root),
        chunk.members.len() > 0,
        chunk.members[0] == chunk.root,
        chunk.members@.no_duplicates(),
        forall|k: int| 0 <= k < chunk.members.len() ==> g.valid(#[trigger] chunk.members[k]),
        forall|v: ModuleId|
            #![trigger chunk.members@.contains(v)]
            #![trigger reaches_avoiding(g.sync_deps, placed.to_set(), chunk.root, v)]
            chunk.members@.contains(v) <==> reaches_avoiding(
                g.sync_deps,
                placed.to_set(),
                chunk.root,
                v,
            ),
        chunk.modules@.no_duplicates(),
        forall|v: ModuleId|
            #![trigger chunk.modules@.contains(v)]
            #![trigger chunk.members@.contains(v)]
            chunk.modules@.contains(v) <==> chunk.members@.contains(v)
                && !g.modules[v.0 as int].is_vendor,
        vendor_after.no_duplicates(),
        forall|v: ModuleId|
            #![trigger vendor_after.contains(v)]
            #![trigger chunk.members@.contains(v)]
            vendor_after.contains(v) <==> vendor.contains(v) || (chunk.members@.contains(v)
                && g.modules[v.0 as int].is_vendor),
    ensures
        chunks_inv(g, entry, chunks.push(chunk), vendor_after, placed + chunk.members@),
{
    let n = chunks.len() as int;
    let all = placed + chunk.members@;
    let next = chunks.push(chunk);
    lemma_concat_contains(placed, chunk.members@);
    assert(taken_before(next, n) =~= placed.to_set()) by {
        assert forall|v: ModuleId| taken_before(next, n).contains(v) <==> placed.contains(v) by {
            if taken_before(next, n).contains(v) {
                let j = choose|j: int|
                    0 <= j < n && j < next.len() && (#[trigger] next[j]).members@.contains(v);
                assert(next[j] == chunks[j]);
                assert(taken_before(chunks, n).contains(v));
            }
            if placed.contains(v) {
                assert(taken_before(chunks, n).contains(v));
                let j = choose|j: int|
                    0 <= j < n && j < chunks.len() && (#[trigger] chunks[j]).members@.contains(v);
                assert(next[j] == chunks[j]);
            }
        }
    }
    assert forall|i: int| 0 <= i < next.len() implies #[trigger] chunk_fits(g, next, i) by {
        if i < n {
            assert(chunk_fits(g, chunks, i));
            assert(next[i] == chunks[i]);
            assert(taken_before(next, i) =~= taken_before(chunks, i)) by {
                assert forall|v: ModuleId|
                    taken_before(next, i).contains(v) <==> taken_before(chunks, i).contains(v) by {
                    if taken_before(next, i).contains(v) {
                        let j = choose|j: int|
                            0 <= j < i && j < next.len() && (#[trigger] next[j]).members@.contains(v);
                        assert(next[j] == chunks[j]);
                    }
                    if taken_before(chunks, i).contains(v) {
                        let j = choose|j: int|
                            0 <= j < i && j < chunks.len() && (
                            #[trigger] chunks[j]).members@.contains(v);
                        assert(next[j] == chunks[j]);
                    }
                }
            }
        } else {
            assert(next[i] == chunk);
            if n > 0 {
                let u = choose|u: ModuleId|
                    placed.contains(u) && #[trigger] step(g.async_deps, u, chunk.root);
                assert(taken_before(next, n).contains(u) && step(g.async_deps, u, chunk.root));
            }
        }
    }
    assert forall|v: ModuleId|
        #![trigger all.contains(v)]
        #![trigger taken_before(next, next.len() as int).contains(v)]
        all.contains(v) <==> taken_before(next, next.len() as int).contains(v) by {
        if taken_before(next, n + 1).contains(v) {
            let j = choose|j: int|
                0 <= j < n + 1 && j < next.len() && (#[trigger] next[j]).members@.contains(v);
            if j < n {
                assert(next[j] == chunks[j]);
                assert(taken_before(chunks, n).contains(v));
            }
        }
        if placed.contains(v) {
            assert(taken_before(chunks, n).contains(v));
            let j = choose|j: int|
                0 <= j < n && j < chunks.len() && (#[trigger] chunks[j]).members@.contains(v);
            assert(next[j] == chunks[j]);
            assert(taken_before(next, n + 1).contains(v));
        }
        if chunk.members@.contains(v) {
            assert(next[n] == chunk);
            assert(taken_before(next, n + 1).contains(v));
        }
    }
    assert forall|v: ModuleId|
        #![trigger vendor_after.contains(v)]
        #![trigger all.contains(v)]
        vendor_after.contains(v) <==> g.valid(v) && g.modules[v.0 as int].is_vendor && all.contains(
            v,
        ) by {
        if chunk.members@.contains(v) {
            let k = choose|k: int| 0 <= k < chunk.members@.len() && chunk.members@[k] == v;
            assert(g.valid(chunk.members[k]));
        }
    }
}

/// Parts the modules that `entry` reaches into chunks. The entry chunk,
/// `main.js`, takes the entry and what it reaches along static imports.
/// The target of a dynamic import starts a chunk of its own, named by the
/// slug of its path, which takes what the target reaches along static
/// imports without entering a module of an earlier chunk: the first chunk
/// to reach a module keeps it. Vendor modules are taken out of the files
/// of their chunks into one list. The chunk map tells the loader where to
/// fetch each module that is not in the entry chunk.
pub fn partition(graph: &ModuleGraph, entry: ModuleId) -> (parts: Partition)
    requires
        graph.wf(),
        graph@.valid(entry),
    ensures
        parts.is_partition_of(graph@, entry),
{
    let ghost g = graph@;
    let n = graph.len();
    let mut assigned: Vec<bool> = vec![false; n];
    let mut queued: Vec<bool> = vec![false; n];
    let mut roots: Vec<ModuleId> = Vec::new();
    let mut chunks: Vec<Chunk> = Vec::new();
    let mut vendor: Vec<ModuleId> = Vec::new();
    let mut chunk_map: Vec<(String, String)> = Vec::new();
    let ghost mut placed: Seq<ModuleId> = Seq::empty();
    proof {
        lemma_unmarked_all(assigned@);
        lemma_unmarked_all(queued@);
        lemma_unmarked_mark(queued@, entry.0 as int);
    }
    queued[entry.0] = true;
    roots.push(entry);
    proof {
        lemma_reaches_self(g.outgoing, entry);
        assert(member_lists(chunks@) =~= Seq::<Seq<ModuleId>>::empty());
        assert(roots@ =~= seq![entry]);
        assert forall|v: ModuleId| g.valid(v) implies (#[trigger] queued@[v.0 as int]
            <==> roots@.contains(v)) by {
            if v == entry {
                assert(roots@[0] == v);
            }
        }
        assert(map_lines(chunk_map@) =~= Seq::<(Seq<char>, Seq<char>)>::empty());
    }
    let mut head: usize = 0;
    while head < roots.len()
        invariant
            graph.wf(),
            g == graph@,
            n == g.len(),
            g.valid(entry),
            head <= roots.len(),
            roots.len() > 0,
            roots[0] == entry,
            part_inv(g, entry, assigned@, queued@, roots@, placed, Seq::<ModuleId>::empty()),
            chunks_inv(g, entry, chunks@, vendor@, placed),
            forall|k: int| 0 <= k < head ==> assigned@[(#[trigger] roots[k]).0 as int],
            head == 0 ==> chunks.len() == 0 && placed.len() == 0,
            head > 0 ==> chunks.len() > 0 && chunks[0].root == entry,
            map_lines(chunk_map@) == chunk_map_of(g, chunks@, chunks.len() as int),
            unmarked(assigned@) + placed.len() == n,
            unmarked(queued@) + roots.len() == n,
            planned(g, member_lists(chunks@), placed, roots@, head as int, (n - head) as nat) == plan(
                g,
                entry,
            ),
            forall|i: int|
                0 <= i < chunks.len() ==> (#[trigger] chunks[i]).modules@ == sorted_out(
                    g,
                    chunks[i].members@,
                    false,
                    chunks[i].members.len() as int,
                ),
            vendor@ == vendor_of(g, chunks@, chunks.len() as int),
        decreases 2 * unmarked(queued@) + (roots.len() - head),
    {
        let root = roots[head];
        let ghost lists = member_lists(chunks@);
        let ghost roots_before = roots@;
        if !assigned[root.0] {
            proof {
                if head > 0 {
                    assert(found_by(g, placed, roots[head as int]));
                }
            }
            let members = grow_chunk(
                graph,
                root,
                &mut assigned,
                &mut queued,
                &mut roots,
                Ghost(entry),
                Ghost(placed),
            );
            let ghost all = placed + members@;
            proof {
                lemma_concat_contains(placed, members@);
                assert forall|k: int| 0 <= k < members.len() implies g.valid(#[trigger] members[k])
                    && !vendor@.contains(members[k]) by {
                    assert(all[placed.len() + k] == members[k]);
                    assert(members@.contains(members[k]));
                    lemma_avoiding_reaches(g.sync_deps, placed.to_set(), root, members[k]);
                }
            }
            let ghost vendor_before = vendor@;
            let app = split_members(graph, &members, &mut vendor);
            let is_entry = head == 0;
            let name = if is_entry {
                String::from_str("main.js")
            } else {
                match graph.module(root) {
                    Some(module) => chunk_file_name(module.path.as_str()),
                    None => String::new(),
                }
            };
            let chunk = Chunk { name, root, members, modules: app, is_entry };
            let ghost chunks_before = chunks@;
            proof {
                lemma_place_chunk(g, entry, chunks_before, vendor_before, placed, chunk, vendor@);
                assert(chunks_before.push(chunk)[chunks_before.len() as int] == chunk);
                lemma_chunk_modules_valid(
                    g,
                    chunks_before.push(chunk),
                    chunks_before.len() as int,
                );
            }
            if !is_entry {
                push_chunk_lines(graph, &mut chunk_map, &chunk);
            }
            chunks.push(chunk);
            proof {
                lemma_chunk_map_prefix(g, chunks_before, chunk, chunks_before.len() as int);
                lemma_vendor_prefix(g, chunks_before, chunk, chunks_before.len() as int);
                assert(chunks@ =~= chunks_before.push(chunk));
                assert(member_lists(chunks@) =~= lists.push(chunk.members@));
                assert(planned(g, lists, placed, roots_before, head as int, (n - head) as nat)
                    == planned(
                    g,
                    lists.push(chunk.members@),
                    all,
                    roots@,
                    head + 1,
                    (n - head - 1) as nat,
                ));
                assert(map_lines(chunk_map@) =~= chunk_map_of(g, chunks@, chunks.len() as int));
                assert(all[placed.len() as int] == root);
                assert(all.contains(root));
                placed = all;
            }
        }
        head += 1;
    }
    proof {
        let set = Set::new(|v: ModuleId| placed.contains(v));
        assert(assigned@[roots[0].0 as int]);
        assert(set.contains(entry));
        assert forall|u: ModuleId, w: ModuleId| set.contains(u) && #[trigger] step(
            g.outgoing,
            u,
            w,
        ) implies set.contains(w) by {
            assert(g.outgoing[u.0 as int].contains(w) <==> (g.sync_deps[u.0 as int].contains(w)
                || g.async_deps[u.0 as int].contains(w)));
            if g.sync_deps[u.0 as int].contains(w) {
                assert(step(g.sync_deps, u, w));
            } else {
                assert(step(g.async_deps, u, w));
                if !assigned@[w.0 as int] {
                    assert(roots@.contains(w));
                    let k = choose|k: int| 0 <= k < roots@.len() && roots@[k] == w;
                    assert(assigned@[roots[k].0 as int]);
                }
            }
        }
        assert forall|v: ModuleId|
            #![trigger reaches(g.outgoing, entry, v)]
            #![trigger taken_before(chunks@, chunks.len() as int).contains(v)]
            reaches(g.outgoing, entry, v) <==> taken_before(chunks@, chunks.len() as int).contains(
                v,
            ) by {
            if reaches(g.outgoing, entry, v) {
                lemma_reaches_closed(g.outgoing, set, entry, v);
                assert(placed.contains(v));
            }
            if taken_before(chunks@, chunks.len() as int).contains(v) {
                assert(placed.contains(v));
                let q = choose|q: int| 0 <= q < placed.len() && placed[q] == v;
            }
        }
        assert forall|v: ModuleId|
            #![trigger vendor@.contains(v)]
            #![trigger taken_before(chunks@, chunks.len() as int).contains(v)]
            vendor@.contains(v) <==> g.valid(v) && g.modules[v.0 as int].is_vendor && taken_before(
                chunks@,
                chunks.len() as int,
            ).contains(v) by {
            assert(placed.contains(v) <==> taken_before(chunks@, chunks.len() as int).contains(v));
        }
    }
    Partition { chunks, vendor, chunk_map }
}

} // verus!
