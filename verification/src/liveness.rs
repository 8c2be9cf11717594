//! Liveness: which modules a bundle needs, and which of their exports are
//! used by what imports them.

use vstd::prelude::*;
use crate::graph::{GraphView, ImportKind, ModuleGraph, ModuleId, lists_of};
use crate::names::NameSet;
use crate::reach::{
    adj_wf,
    reaches,
    reachable_from,
    search_order,
    step,
    lemma_reaches_self,
    lemma_reaches_step,
    lemma_reaches_valid,
};

verus! {

/// The module that the `k`-th import site of module `m` leads to: the one
/// whose path the module's import table gives for the specifier.
pub open spec fn edge_target(g: GraphView, m: int, k: int) -> Option<ModuleId> {
    let module = g.modules[m];
    let site = module.import_info[k];
    if module.imports.dom().contains(site.source) {
        g.find_path(module.imports[site.source])
    } else {
        None
    }
}

/// Whether an import site of this kind names what it takes.
pub open spec fn names_its_imports(kind: ImportKind) -> bool {
    kind == ImportKind::StaticNamed || kind == ImportKind::StaticDefault || kind
        == ImportKind::ReExportNamed
}

/// The targets of the first `upto` import sites of module `m`, those that
/// `only_stars` lets through: all, or the sites `export * from`.
pub open spec fn targets(g: GraphView, m: int, upto: int, only_stars: bool) -> Seq<ModuleId>
    decreases upto,
{
    if upto <= 0 {
        Seq::empty()
    } else {
        let rest = targets(g, m, upto - 1, only_stars);
        let takes = !only_stars || g.modules[m].import_info[upto - 1].kind
            == ImportKind::ReExportStar;
        match edge_target(g, m, upto - 1) {
            Some(t) => if takes {
                rest.push(t)
            } else {
                rest
            },
            None => rest,
        }
    }
}

/// For each module, the modules that its import sites lead to.
pub open spec fn import_adj(g: GraphView) -> Seq<Seq<ModuleId>> {
    Seq::new(g.len(), |m: int| targets(g, m, g.modules[m].import_info.len() as int, false))
}

/// For each module, the modules that it re-exports everything from.
pub open spec fn star_adj(g: GraphView) -> Seq<Seq<ModuleId>> {
    Seq::new(g.len(), |m: int| targets(g, m, g.modules[m].import_info.len() as int, true))
}

/// The `k`-th import site of module `m` leads to `t` and uses `name` of it:
/// it names `name`, or it takes everything and `t` exports `name`.
pub open spec fn site_uses(g: GraphView, m: int, k: int, t: ModuleId, name: Seq<char>) -> bool {
    let site = g.modules[m].import_info[k];
    &&& 0 <= k < g.modules[m].import_info.len()
    &&& edge_target(g, m, k) == Some(t)
    &&& g.valid(t)
    &&& ((names_its_imports(site.kind) && site.specifiers.contains(name)) || (site.is_star
        && g.modules[t.0 as int].exports.contains(name)))
}

/// Module `m` is live: the entry reaches it along import sites.
pub open spec fn live(g: GraphView, entry: ModuleId, m: ModuleId) -> bool {
    reaches(import_adj(g), entry, m)
}

/// An import site of a live module uses `name` of module `t`.
pub open spec fn asked(g: GraphView, entry: ModuleId, t: ModuleId, name: Seq<char>) -> bool {
    exists|m: ModuleId, k: int| live(g, entry, m) && #[trigger] site_uses(g, m.0 as int, k, t, name)
}

/// `name` counts as used of module `c`: it is asked of `c`, or of a module
/// that hands the question on to `c` through `export * from`, directly or
/// through others.
pub open spec fn used_of(g: GraphView, entry: ModuleId, c: ModuleId, name: Seq<char>) -> bool {
    exists|b: ModuleId| #[trigger] reaches(star_adj(g), b, c) && asked(g, entry, b, name)
}

/// What the liveness closure gives.
#[derive(Clone, Debug)]
pub struct Liveness {
    /// The live modules, each once, in the order in which a breadth-first
    /// search along the import sites meets them.
    pub live: Vec<ModuleId>,
    /// For each module of the graph, the names of it that are used.
    pub used_exports: Vec<NameSet>,
}

impl Liveness {
    /// The result is the liveness closure of `g` from `entry`.
    pub open spec fn is_closure_of(&self, g: GraphView, entry: ModuleId) -> bool {
        &&& self.live@ == search_order(import_adj(g), entry)
        &&& self.live@.no_duplicates()
        &&& forall|m: ModuleId| self.live@.contains(m) <==> live(g, entry, m)
        &&& self.used_exports.len() == g.len()
        &&& forall|c: ModuleId, name: Seq<char>|
            g.valid(c) ==> (#[trigger] self.used_exports[c.0 as int]@.contains(name) <==> used_of(
                g,
                entry,
                c,
                name,
            ))
    }
}

/// Every target of an import site names a module.
pub proof fn lemma_targets_valid(g: GraphView, m: int, upto: int, only_stars: bool)
    requires
        g.wf(),
    ensures
        forall|i: int|
            0 <= i < targets(g, m, upto, only_stars).len() ==> g.valid(
                #[trigger] targets(g, m, upto, only_stars)[i],
            ),
    decreases upto,
{
    if upto > 0 {
        lemma_targets_valid(g, m, upto - 1, only_stars);
        let rest = targets(g, m, upto - 1, only_stars);
        let all = targets(g, m, upto, only_stars);
        assert forall|i: int| 0 <= i < all.len() implies g.valid(#[trigger] all[i]) by {
            if i < rest.len() {
                assert(all[i] == rest[i]);
            } else {
                let t = edge_target(g, m, upto - 1)->0;
                assert(all[i] == t);
                let path = g.modules[m].imports[g.modules[m].import_info[upto - 1].source];
                let c = choose|c: int| 0 <= c < g.modules.len() && g.modules[c].path == path;
                assert(t == ModuleId(c as usize));
            }
        }
    }
}

/// The adjacency lists of the import sites hold only modules of the graph.
pub proof fn lemma_import_adj_wf(g: GraphView)
    requires
        g.wf(),
    ensures
        adj_wf(import_adj(g)),
        adj_wf(star_adj(g)),
        import_adj(g).len() == g.len(),
        star_adj(g).len() == g.len(),
{
    assert forall|i: int, k: int|
        0 <= i < import_adj(g).len() && 0 <= k < import_adj(g)[i].len() implies (
    #[trigger] import_adj(g)[i][k]).0 < import_adj(g).len() by {
        lemma_targets_valid(g, i, g.modules[i].import_info.len() as int, false);
    }
    assert forall|i: int, k: int|
        0 <= i < star_adj(g).len() && 0 <= k < star_adj(g)[i].len() implies (
    #[trigger] star_adj(g)[i][k]).0 < star_adj(g).len() by {
        lemma_targets_valid(g, i, g.modules[i].import_info.len() as int, true);
    }
}

/// A target list holds `t` exactly if one of the sites it was made from
/// leads to `t` and was let through.
pub proof fn lemma_targets_contain(g: GraphView, m: int, upto: int, only_stars: bool, t: ModuleId)
    ensures
        targets(g, m, upto, only_stars).contains(t) <==> exists|k: int|
            0 <= k < upto && #[trigger] edge_target(g, m, k) == Some(t) && (!only_stars
                || g.modules[m].import_info[k].kind == ImportKind::ReExportStar),
    decreases upto,
{
    if upto > 0 {
        lemma_targets_contain(g, m, upto - 1, only_stars, t);
        let rest = targets(g, m, upto - 1, only_stars);
        let all = targets(g, m, upto, only_stars);
        let takes = !only_stars || g.modules[m].import_info[upto - 1].kind
            == ImportKind::ReExportStar;
        if all.contains(t) {
            let i = choose|i: int| 0 <= i < all.len() && all[i] == t;
            if i < rest.len() {
                assert(rest[i] == t);
                assert(rest.contains(t));
                let k = choose|k: int|
                    0 <= k < upto - 1 && #[trigger] edge_target(g, m, k) == Some(t) && (
                    !only_stars || g.modules[m].import_info[k].kind == ImportKind::ReExportStar);
                assert(0 <= k < upto);
            } else {
                assert(edge_target(g, m, upto - 1) == Some(t) && takes);
            }
        }
        if exists|k: int|
            0 <= k < upto && #[trigger] edge_target(g, m, k) == Some(t) && (!only_stars
                || g.modules[m].import_info[k].kind == ImportKind::ReExportStar) {
            let k = choose|k: int|
                0 <= k < upto && #[trigger] edge_target(g, m, k) == Some(t) && (!only_stars
                    || g.modules[m].import_info[k].kind == ImportKind::ReExportStar);
            if k < upto - 1 {
                assert(rest.contains(t));
                let i = choose|i: int| 0 <= i < rest.len() && rest[i] == t;
                assert(all[i] == t);
            } else {
                assert(all.last() == t);
            }
        }
    }
}

/// The sets held by a list of name sets.
pub open spec fn sets_of(sets: Seq<NameSet>) -> Seq<Set<Seq<char>>> {
    sets.map_values(|s: NameSet| s@)
}

fn site_target(graph: &ModuleGraph, m: usize, k: usize) -> (target: Option<ModuleId>)
    requires
        graph.wf(),
        m < graph@.len(),
        k < graph@.modules[m as int].import_info.len(),
    ensures
        target == edge_target(graph@, m as int, k as int),
{
    match graph.module(ModuleId(m)) {
        Some(module) => {
            assert(module@.import_info[k as int] == module.import_info[k as int]@);
            match module.imports.get(module.import_info[k].source.as_str()) {
                Some(path) => graph.find_by_path(path.as_str()),
                None => None,
            }
        },
        None => None,
    }
}

fn site_count(graph: &ModuleGraph, m: usize) -> (count: usize)
    requires
        m < graph@.len(),
    ensures
        count == graph@.modules[m as int].import_info.len(),
{
    match graph.module(ModuleId(m)) {
        Some(module) => module.import_info.len(),
        None => 0,
    }
}

fn site_is_star_export(graph: &ModuleGraph, m: usize, k: usize) -> (star: bool)
    requires
        m < graph@.len(),
        k < graph@.modules[m as int].import_info.len(),
    ensures
        star == (graph@.modules[m as int].import_info[k as int].kind == ImportKind::ReExportStar),
{
    match graph.module(ModuleId(m)) {
        Some(module) => {
            assert(module@.import_info[k as int] == module.import_info[k as int]@);
            match module.import_info[k].kind {
                ImportKind::ReExportStar => true,
                _ => false,
            }
        },
        None => false,
    }
}

fn targets_of(graph: &ModuleGraph, m: usize, only_stars: bool) -> (list: Vec<ModuleId>)
    requires
        graph.wf(),
        m < graph@.len(),
    ensures
        list@ == targets(
            graph@,
            m as int,
            graph@.modules[m as int].import_info.len() as int,
            only_stars,
        ),
{
    let mut list: Vec<ModuleId> = Vec::new();
    let count = site_count(graph, m);
    let mut k: usize = 0;
    while k < count
        invariant
            graph.wf(),
            m < graph@.len(),
            count == graph@.modules[m as int].import_info.len(),
            k <= count,
            list@ == targets(graph@, m as int, k as int, only_stars),
        decreases count - k,
    {
        let takes = !only_stars || site_is_star_export(graph, m, k);
        match site_target(graph, m, k) {
            Some(t) => {
                if takes {
                    list.push(t);
                }
            },
            None => {},
        }
        k += 1;
    }
    list
}

fn adjacency(graph: &ModuleGraph, only_stars: bool) -> (lists: Vec<Vec<ModuleId>>)
    requires
        graph.wf(),
    ensures
        lists_of(lists@) == if only_stars {
            star_adj(graph@)
        } else {
            import_adj(graph@)
        },
{
    let mut lists: Vec<Vec<ModuleId>> = Vec::new();
    let n = graph.len();
    let mut m: usize = 0;
    while m < n
        invariant
            graph.wf(),
            n == graph@.len(),
            m <= n,
            lists.len() == m,
            forall|i: int|
                0 <= i < m ==> (#[trigger] lists[i])@ == targets(
                    graph@,
                    i,
                    graph@.modules[i].import_info.len() as int,
                    only_stars,
                ),
        decreases n - m,
    {
        let list = targets_of(graph, m, only_stars);
        lists.push(list);
        m += 1;
    }
    assert(lists_of(lists@) =~= if only_stars {
        star_adj(graph@)
    } else {
        import_adj(graph@)
    });
    lists
}

fn empty_sets(n: usize) -> (sets: Vec<NameSet>)
    ensures
        sets.len() == n,
        forall|i: int| 0 <= i < n ==> (#[trigger] sets[i])@ == Set::<Seq<char>>::empty(),
{
    let mut sets: Vec<NameSet> = Vec::new();
    let mut i: usize = 0;
    while i < n
        invariant
            i <= n,
            sets.len() == i,
            forall|k: int| 0 <= k < i ==> (#[trigger] sets[k])@ == Set::<Seq<char>>::empty(),
        decreases n - i,
    {
        sets.push(NameSet::new());
        i += 1;
    }
    sets
}

/// One of the sites before the `k`-th of the `i`-th module of `order`, in
/// the order of the search, uses `name` of `t`.
spec fn asked_before(
    g: GraphView,
    order: Seq<ModuleId>,
    i: int,
    k: int,
    t: ModuleId,
    name: Seq<char>,
) -> bool {
    exists|a: int, b: int|
        0 <= a < order.len() && (a < i || (a == i && b < k)) && #[trigger] site_uses(
            g,
            order[a].0 as int,
            b,
            t,
            name,
        )
}

fn site_names_its_imports(graph: &ModuleGraph, m: usize, k: usize) -> (named: bool)
    requires
        m < graph@.len(),
        k < graph@.modules[m as int].import_info.len(),
    ensures
        named == names_its_imports(graph@.modules[m as int].import_info[k as int].kind),
{
    match graph.module(ModuleId(m)) {
        Some(module) => {
            assert(module@.import_info[k as int] == module.import_info[k as int]@);
            match module.import_info[k].kind {
                ImportKind::StaticNamed => true,
                ImportKind::StaticDefault => true,
                ImportKind::ReExportNamed => true,
                _ => false,
            }
        },
        None => false,
    }
}

/// Puts into `set` what the `k`-th site of module `m` uses of module `t`.
fn note_site(graph: &ModuleGraph, m: usize, k: usize, t: ModuleId, set: &mut NameSet)
    requires
        graph.wf(),
        m < graph@.len(),
        k < graph@.modules[m as int].import_info.len(),
        edge_target(graph@, m as int, k as int) == Some(t),
        graph@.valid(t),
    ensures
        forall|name: Seq<char>|
            final(set)@.contains(name) <==> old(set)@.contains(name) || site_uses(
                graph@,
                m as int,
                k as int,
                t,
                name,
            ),
{
    let ghost g = graph@;
    let ghost site = g.modules[m as int].import_info[k as int];
    if site_names_its_imports(graph, m, k) {
        match graph.module(ModuleId(m)) {
            Some(module) => {
                assert(module@.import_info[k as int] == module.import_info[k as int]@);
                set.insert_all(&module.import_info[k].specifiers);
            },
            None => {},
        }
    }
    let ghost middle = set@;
    assert(forall|name: Seq<char>|
        middle.contains(name) <==> old(set)@.contains(name) || (names_its_imports(site.kind)
            && site.specifiers.contains(name)));
    let star = match graph.module(ModuleId(m)) {
        Some(module) => {
            assert(module@.import_info[k as int] == module.import_info[k as int]@);
            module.import_info[k].is_star
        },
        None => false,
    };
    if star {
        match graph.module(t) {
            Some(target) => {
                set.insert_all(&target.exports);
            },
            None => {},
        }
    }
    assert(forall|name: Seq<char>|
        set@.contains(name) <==> middle.contains(name) || (site.is_star && g.modules[t.0 as int].exports.contains(
            name,
        )));
}

fn collect_asked(graph: &ModuleGraph, order: &Vec<ModuleId>) -> (sets: Vec<NameSet>)
    requires
        graph.wf(),
        forall|i: int| 0 <= i < order.len() ==> graph@.valid(#[trigger] order[i]),
    ensures
        sets.len() == graph@.len(),
        forall|t: ModuleId, name: Seq<char>|
            graph@.valid(t) ==> (#[trigger] sets[t.0 as int]@.contains(name) <==> asked_before(
                graph@,
                order@,
                order.len() as int,
                0,
                t,
                name,
            )),
{
    let ghost g = graph@;
    let n = graph.len();
    let mut sets = empty_sets(n);
    let mut i: usize = 0;
    while i < order.len()
        invariant
            graph.wf(),
            g == graph@,
            n == g.len(),
            i <= order.len(),
            sets.len() == n,
            forall|x: int| 0 <= x < order.len() ==> g.valid(#[trigger] order[x]),
            forall|t: ModuleId, name: Seq<char>|
                g.valid(t) ==> (#[trigger] sets[t.0 as int]@.contains(name) <==> asked_before(
                    g,
                    order@,
                    i as int,
                    0,
                    t,
                    name,
                )),
        decreases order.len() - i,
    {
        let m = order[i].0;
        let count = site_count(graph, m);
        let mut k: usize = 0;
        while k < count
            invariant
                graph.wf(),
                g == graph@,
                n == g.len(),
                i < order.len(),
                m == order[i as int].0,
                m < n,
                count == g.modules[m as int].import_info.len(),
                k <= count,
                sets.len() == n,
                forall|t: ModuleId, name: Seq<char>|
                    g.valid(t) ==> (#[trigger] sets[t.0 as int]@.contains(name) <==> asked_before(
                        g,
                        order@,
                        i as int,
                        k as int,
                        t,
                        name,
                    )),
            decreases count - k,
        {
            let ghost before = sets_of(sets@);
            match site_target(graph, m, k) {
                Some(target) => {
                    proof {
                        lemma_targets_contain(g, m as int, k + 1, false, target);
                        lemma_targets_valid(g, m as int, k + 1, false);
                        let list = targets(g, m as int, k + 1, false);
                        let at = choose|at: int| 0 <= at < list.len() && list[at] == target;
                        assert(g.valid(list[at]));
                    }
                    note_site(graph, m, k, target, &mut sets[target.0]);
                },
                None => {},
            }
            proof {
                assert forall|t: ModuleId, name: Seq<char>| g.valid(t) implies (
                #[trigger] sets[t.0 as int]@.contains(name) <==> asked_before(
                    g,
                    order@,
                    i as int,
                    k + 1,
                    t,
                    name,
                )) by {
                    let was = before[t.0 as int].contains(name);
                    let now = site_uses(g, m as int, k as int, t, name);
                    assert(was <==> asked_before(g, order@, i as int, k as int, t, name));
                    assert(sets[t.0 as int]@.contains(name) <==> was || now);
                    if asked_before(g, order@, i as int, k + 1, t, name) {
                        let (a, b) = choose|a: int, b: int|
                            0 <= a < order.len() && (a < i || (a == i && b < k + 1))
                                && #[trigger] site_uses(g, order[a].0 as int, b, t, name);
                        if a == i && b == k {
                        } else {
                            assert(0 <= a < order.len() && (a < i || (a == i && b < k))
                                && site_uses(g, order[a].0 as int, b, t, name));
                        }
                    }
                    if was {
                        let (a, b) = choose|a: int, b: int|
                            0 <= a < order.len() && (a < i || (a == i && b < k))
                                && #[trigger] site_uses(g, order[a].0 as int, b, t, name);
                        assert(0 <= a < order.len() && (a < i || (a == i && b < k + 1))
                            && site_uses(g, order[a].0 as int, b, t, name));
                    }
                    if now {
                        assert(0 <= i < order.len() && (i < i || (i == i && k < k + 1))
                            && site_uses(g, order[i as int].0 as int, k as int, t, name));
                    }
                }
            }
            k += 1;
        }
        proof {
            assert forall|t: ModuleId, name: Seq<char>| g.valid(t) implies (
            #[trigger] sets[t.0 as int]@.contains(name) <==> asked_before(
                g,
                order@,
                i + 1,
                0,
                t,
                name,
            )) by {
                if asked_before(g, order@, i + 1, 0, t, name) {
                    let (a, b) = choose|a: int, b: int|
                        0 <= a < order.len() && (a < i + 1 || (a == i + 1 && b < 0))
                            && #[trigger] site_uses(g, order[a].0 as int, b, t, name);
                    assert(0 <= a < order.len() && (a < i || (a == i && b < count)) && site_uses(
                        g,
                        order[a].0 as int,
                        b,
                        t,
                        name,
                    ));
                }
                if asked_before(g, order@, i as int, count as int, t, name) {
                    let (a, b) = choose|a: int, b: int|
                        0 <= a < order.len() && (a < i || (a == i && b < count))
                            && #[trigger] site_uses(g, order[a].0 as int, b, t, name);
                    assert(0 <= a < order.len() && (a < i + 1 || (a == i + 1 && b < 0))
                        && site_uses(g, order[a].0 as int, b, t, name));
                }
            }
        }
        i += 1;
    }
    sets
}

/// `name` was handed to `c`: by one of the first `b` modules, or by
/// module `b` where `c` is among the first `j` of what `b` reaches.
spec fn handed_before(
    star: Seq<Seq<ModuleId>>,
    asked_sets: Seq<Set<Seq<char>>>,
    b: int,
    closure: Seq<ModuleId>,
    j: int,
    c: ModuleId,
    name: Seq<char>,
) -> bool {
    (exists|x: int|
        0 <= x < b && x < asked_sets.len() && #[trigger] reaches(star, ModuleId(x as usize), c)
            && asked_sets[x].contains(name)) || (0 <= b < asked_sets.len() && asked_sets[b].contains(
        name,
    ) && exists|y: int| 0 <= y < j && y < closure.len() && #[trigger] closure[y] == c)
}

fn propagate(star_lists: &Vec<Vec<ModuleId>>, asked_sets: &Vec<NameSet>) -> (used: Vec<NameSet>)
    requires
        adj_wf(lists_of(star_lists@)),
        star_lists.len() == asked_sets.len(),
    ensures
        used.len() == asked_sets.len(),
        forall|c: ModuleId, name: Seq<char>|
            c.0 < used.len() ==> (#[trigger] used[c.0 as int]@.contains(name) <==> exists|
                b: ModuleId,
            |
                #[trigger] reaches(lists_of(star_lists@), b, c) && asked_sets[b.0 as int]@.contains(
                    name,
                )),
{
    let ghost star = lists_of(star_lists@);
    let ghost asked = sets_of(asked_sets@);
    let n = asked_sets.len();
    let mut used = empty_sets(n);
    let mut b: usize = 0;
    let ghost none = Seq::<ModuleId>::empty();
    while b < n
        invariant
            star == lists_of(star_lists@),
            asked == sets_of(asked_sets@),
            adj_wf(star),
            n == asked_sets.len(),
            n == star_lists.len(),
            b <= n,
            used.len() == n,
            forall|c: ModuleId, name: Seq<char>|
                c.0 < n ==> (#[trigger] used[c.0 as int]@.contains(name) <==> handed_before(
                    star,
                    asked,
                    b as int,
                    none,
                    0,
                    c,
                    name,
                )),
        decreases n - b,
    {
        let closure = reachable_from(star_lists, ModuleId(b));
        let names = asked_sets[b].names();
        proof {
            asked_sets[b as int].lemma_listed();
        }
        let mut j: usize = 0;
        while j < closure.len()
            invariant
                star == lists_of(star_lists@),
                asked == sets_of(asked_sets@),
                n == asked_sets.len(),
                n == star_lists.len(),
                b < n,
                used.len() == n,
                j <= closure.len(),
                crate::graph::names_of(names@) == asked_sets[b as int].listed(),
                forall|name: Seq<char>|
                    asked[b as int].contains(name) <==> asked_sets[b as int].listed().contains(name),
                forall|v: ModuleId| closure@.contains(v) <==> reaches(star, ModuleId(b), v),
                forall|c: ModuleId, name: Seq<char>|
                    c.0 < n ==> (#[trigger] used[c.0 as int]@.contains(name) <==> handed_before(
                        star,
                        asked,
                        b as int,
                        closure@,
                        j as int,
                        c,
                        name,
                    )),
            decreases closure.len() - j,
        {
            let c = closure[j];
            proof {
                assert(closure@.contains(c));
                lemma_reaches_valid(star, ModuleId(b), c);
            }
            let ghost before = sets_of(used@);
            used[c.0].insert_all(names);
            proof {
                assert forall|d: ModuleId, name: Seq<char>| d.0 < n implies (
                #[trigger] used[d.0 as int]@.contains(name) <==> handed_before(
                    star,
                    asked,
                    b as int,
                    closure@,
                    j + 1,
                    d,
                    name,
                )) by {
                    let was = before[d.0 as int].contains(name);
                    assert(was <==> handed_before(star, asked, b as int, closure@, j as int, d, name));
                    assert(used[d.0 as int]@.contains(name) <==> was || (d == c && asked[b as int].contains(
                        name,
                    ))) by {
                        if d.0 == c.0 {
                            assert(crate::graph::names_of(names@).to_set().contains(name)
                                <==> crate::graph::names_of(names@).contains(name));
                        }
                    }
                    if d == c && asked[b as int].contains(name) {
                        assert(0 <= j < j + 1 && j < closure@.len() && closure@[j as int] == d);
                    }
                    if handed_before(star, asked, b as int, closure@, j + 1, d, name) && !was {
                        let y = choose|y: int|
                            0 <= y < j + 1 && y < closure@.len() && #[trigger] closure@[y] == d;
                        if y < j {
                            assert(0 <= y < j && y < closure@.len() && closure@[y] == d);
                        }
                    }
                    if was {
                        if exists|y: int|
                            0 <= y < j && y < closure@.len() && #[trigger] closure@[y] == d {
                            let y = choose|y: int|
                                0 <= y < j && y < closure@.len() && #[trigger] closure@[y] == d;
                            assert(0 <= y < j + 1 && y < closure@.len() && closure@[y] == d);
                        }
                    }
                }
            }
            j += 1;
        }
        proof {
            assert forall|c: ModuleId, name: Seq<char>| c.0 < n implies (
            #[trigger] used[c.0 as int]@.contains(name) <==> handed_before(
                star,
                asked,
                b + 1,
                none,
                0,
                c,
                name,
            )) by {
                if handed_before(star, asked, b + 1, none, 0, c, name) {
                    let x = choose|x: int|
                        0 <= x < b + 1 && x < asked.len() && #[trigger] reaches(
                            star,
                            ModuleId(x as usize),
                            c,
                        ) && asked[x].contains(name);
                    if x == b {
                        assert(closure@.contains(c));
                        let y = choose|y: int| 0 <= y < closure@.len() && closure@[y] == c;
                        assert(0 <= y < closure@.len() && y < closure@.len() && closure@[y] == c);
                    } else {
                        assert(0 <= x < b && x < asked.len() && reaches(
                            star,
                            ModuleId(x as usize),
                            c,
                        ) && asked[x].contains(name));
                    }
                }
                if handed_before(star, asked, b as int, closure@, closure@.len() as int, c, name) {
                    if exists|x: int|
                        0 <= x < b && x < asked.len() && #[trigger] reaches(
                            star,
                            ModuleId(x as usize),
                            c,
                        ) && asked[x].contains(name) {
                        let x = choose|x: int|
                            0 <= x < b && x < asked.len() && #[trigger] reaches(
                                star,
                                ModuleId(x as usize),
                                c,
                            ) && asked[x].contains(name);
                        assert(0 <= x < b + 1 && x < asked.len() && reaches(
                            star,
                            ModuleId(x as usize),
                            c,
                        ) && asked[x].contains(name));
                    } else {
                        let y = choose|y: int|
                            0 <= y < closure@.len() && y < closure@.len() && #[trigger] closure@[y]
                                == c;
                        assert(closure@.contains(c));
                        assert(0 <= b < b + 1 && b < asked.len() && reaches(
                            star,
                            ModuleId(b as usize),
                            c,
                        ) && asked[b as int].contains(name));
                    }
                }
            }
        }
        b += 1;
    }
    proof {
        assert forall|c: ModuleId, name: Seq<char>| c.0 < used.len() implies (
        #[trigger] used[c.0 as int]@.contains(name) <==> exists|b: ModuleId|
            #[trigger] reaches(star, b, c) && asked_sets[b.0 as int]@.contains(name)) by {
            if handed_before(star, asked, n as int, none, 0, c, name) {
                let x = choose|x: int|
                    0 <= x < n && x < asked.len() && #[trigger] reaches(
                        star,
                        ModuleId(x as usize),
                        c,
                    ) && asked[x].contains(name);
                assert(reaches(star, ModuleId(x as usize), c) && asked_sets[ModuleId(
                    x as usize,
                ).0 as int]@.contains(name));
            }
            if exists|b: ModuleId|
                #[trigger] reaches(star, b, c) && asked_sets[b.0 as int]@.contains(name) {
                let b = choose|b: ModuleId|
                    #[trigger] reaches(star, b, c) && asked_sets[b.0 as int]@.contains(name);
                lemma_reaches_valid(star, b, c);
                assert(ModuleId(b.0 as int as usize) == b);
                assert(0 <= b.0 < n && b.0 < asked.len() && reaches(
                    star,
                    ModuleId(b.0 as int as usize),
                    c,
                ) && asked[b.0 as int].contains(name));
            }
        }
    }
    used
}

/// The liveness closure of the graph from `entry`: the modules that the
/// entry reaches along import sites, and for each module of the graph the
/// names that count as used. A site that names its imports uses those
/// names of its target; a site that takes everything (`import * as`,
/// `export * from`) uses all that its target exports; and what is used of
/// a module is used of every module that it re-exports everything from.
pub fn liveness_closure(graph: &ModuleGraph, entry: ModuleId) -> (found: Liveness)
    requires
        graph.wf(),
        graph@.valid(entry),
    ensures
        found.is_closure_of(graph@, entry),
{
    let ghost g = graph@;
    proof {
        lemma_import_adj_wf(g);
    }
    let import_lists = adjacency(graph, false);
    let star_lists = adjacency(graph, true);
    let order = reachable_from(&import_lists, entry);
    proof {
        assert forall|i: int| 0 <= i < order.len() implies g.valid(#[trigger] order[i]) by {
            assert(order@.contains(order[i]));
            lemma_reaches_valid(import_adj(g), entry, order[i]);
        }
    }
    let asked_sets = collect_asked(graph, &order);
    let used = propagate(&star_lists, &asked_sets);
    proof {
        assert forall|t: ModuleId, name: Seq<char>| g.valid(t) implies (asked_sets[t.0 as int]@.contains(
            name,
        ) <==> asked(g, entry, t, name)) by {
            if asked_before(g, order@, order.len() as int, 0, t, name) {
                let (a, b) = choose|a: int, b: int|
                    0 <= a < order.len() && (a < order.len() || (a == order.len() && b < 0))
                        && #[trigger] site_uses(g, order[a].0 as int, b, t, name);
                assert(order@.contains(order[a]));
                assert(live(g, entry, order[a]) && site_uses(g, order[a].0 as int, b, t, name));
            }
            if asked(g, entry, t, name) {
                let (m, k) = choose|m: ModuleId, k: int|
                    live(g, entry, m) && #[trigger] site_uses(g, m.0 as int, k, t, name);
                assert(order@.contains(m));
                let a = choose|a: int| 0 <= a < order@.len() && order@[a] == m;
                assert(0 <= a < order.len() && (a < order.len() || (a == order.len() && k < 0))
                    && site_uses(g, order[a].0 as int, k, t, name));
            }
        }
        assert forall|c: ModuleId, name: Seq<char>| g.valid(c) implies (
        #[trigger] used[c.0 as int]@.contains(name) <==> used_of(g, entry, c, name)) by {
            if used[c.0 as int]@.contains(name) {
                let b = choose|b: ModuleId|
                    #[trigger] reaches(star_adj(g), b, c) && asked_sets[b.0 as int]@.contains(name);
                lemma_reaches_valid(star_adj(g), b, c);
                assert(asked(g, entry, b, name));
            }
            if used_of(g, entry, c, name) {
                let b = choose|b: ModuleId|
                    #[trigger] reaches(star_adj(g), b, c) && asked(g, entry, b, name);
                lemma_reaches_valid(star_adj(g), b, c);
                assert(asked_sets[b.0 as int]@.contains(name));
            }
        }
    }
    Liveness { live: order, used_exports: used }
}

/// A site that takes everything of its target (`import * as`, `export *
/// from`), in a live module, makes all exports of the target used.
pub proof fn law_star_uses_all_exports(
    g: GraphView,
    entry: ModuleId,
    m: ModuleId,
    k: int,
    t: ModuleId,
    name: Seq<char>,
)
    requires
        g.wf(),
        live(g, entry, m),
        0 <= k < g.modules[m.0 as int].import_info.len(),
        g.modules[m.0 as int].import_info[k].is_star,
        edge_target(g, m.0 as int, k) == Some(t),
        g.valid(t),
        g.modules[t.0 as int].exports.contains(name),
    ensures
        used_of(g, entry, t, name),
{
    lemma_import_adj_wf(g);
    lemma_reaches_self(star_adj(g), t);
    assert(site_uses(g, m.0 as int, k, t, name));
    assert(asked(g, entry, t, name));
}

/// A name that a live module imports by name is used of the module it is
/// imported from.
pub proof fn law_named_import_is_used(
    g: GraphView,
    entry: ModuleId,
    m: ModuleId,
    k: int,
    t: ModuleId,
    name: Seq<char>,
)
    requires
        g.wf(),
        live(g, entry, m),
        0 <= k < g.modules[m.0 as int].import_info.len(),
        names_its_imports(g.modules[m.0 as int].import_info[k].kind),
        g.modules[m.0 as int].import_info[k].specifiers.contains(name),
        edge_target(g, m.0 as int, k) == Some(t),
        g.valid(t),
    ensures
        used_of(g, entry, t, name),
{
    lemma_import_adj_wf(g);
    lemma_reaches_self(star_adj(g), t);
    assert(site_uses(g, m.0 as int, k, t, name));
    assert(asked(g, entry, t, name));
}

/// The used names are closed under `export * from`: what is used of a
/// module is used of every module that it re-exports everything from.
pub proof fn law_used_names_pass_through_stars(
    g: GraphView,
    entry: ModuleId,
    b: ModuleId,
    c: ModuleId,
    name: Seq<char>,
)
    requires
        g.wf(),
        used_of(g, entry, b, name),
        step(star_adj(g), b, c),
    ensures
        used_of(g, entry, c, name),
{
    let a = choose|a: ModuleId| #[trigger] reaches(star_adj(g), a, b) && asked(g, entry, a, name);
    lemma_reaches_step(star_adj(g), a, b, c);
}

/// Only live modules are asked for names, and the entry is live.
pub proof fn law_entry_is_live(g: GraphView, entry: ModuleId)
    requires
        g.wf(),
        g.valid(entry),
    ensures
        live(g, entry, entry),
{
    lemma_import_adj_wf(g);
    lemma_reaches_self(import_adj(g), entry);
}

} // verus!
