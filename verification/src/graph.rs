//! The module graph: modules with their versions and attributes, and the
//! import edges between them, indexed in both directions.

use vstd::prelude::*;
use crate::text::str_eq;
use crate::paths::{vendor_path, is_vendor_path, segment_at};

verus! {

/// Dense index of a module, stable for the lifetime of its graph.
#[derive(Clone, Copy, Debug, PartialEq, Eq, Hash, Structural)]
pub struct ModuleId(pub usize);

/// Why an edge was refused.
#[derive(Clone, Copy, Debug, PartialEq, Eq, Structural)]
pub enum GraphError {
    /// One end of the edge names no module of the graph.
    OutOfBounds,
    /// Both ends are the same module.
    SelfEdge,
}

impl GraphError {
    /// A short description of the error.
    pub fn message(&self) -> (text: &'static str)
        ensures
            text@ == (match *self {
                GraphError::OutOfBounds => "ModuleId out of bounds"@,
                GraphError::SelfEdge => "Self-dependency not allowed"@,
            }),
    {
        match self {
            GraphError::OutOfBounds => "ModuleId out of bounds",
            GraphError::SelfEdge => "Self-dependency not allowed",
        }
    }
}

/// The form of one import site.
#[derive(Clone, Copy, Debug, PartialEq, Eq, Structural)]
pub enum ImportKind {
    /// `import X from 'm'`
    StaticDefault,
    /// `import { a as b } from 'm'`
    StaticNamed,
    /// `import * as N from 'm'`
    StaticNamespace,
    /// `import 'm'`
    StaticBare,
    /// `export { a } from 'm'`
    ReExportNamed,
    /// `export * from 'm'`
    ReExportStar,
    /// `import('m')`
    Dynamic,
}

/// The texts held by a list of strings.
pub open spec fn names_of(list: Seq<String>) -> Seq<Seq<char>> {
    list.map_values(|s: String| s@)
}

/// One import site of a module.
#[derive(Clone, Debug)]
pub struct ImportInfo {
    /// The specifier as written.
    pub source: String,
    /// The form of the import.
    pub kind: ImportKind,
    /// The names taken from the other module.
    pub specifiers: Vec<String>,
    /// Set for `Dynamic`.
    pub is_dynamic: bool,
    /// Set for `StaticNamespace` and `ReExportStar`.
    pub is_star: bool,
}

/// The mathematical value of an [`ImportInfo`].
pub struct ImportInfoView {
    pub source: Seq<char>,
    pub kind: ImportKind,
    pub specifiers: Seq<Seq<char>>,
    pub is_dynamic: bool,
    pub is_star: bool,
}

impl ImportInfoView {
    /// The flags and the specifier list agree with the kind.
    pub open spec fn wf(self) -> bool {
        &&& self.is_dynamic == (self.kind == ImportKind::Dynamic)
        &&& self.is_star == (self.kind == ImportKind::StaticNamespace || self.kind
            == ImportKind::ReExportStar)
        &&& (self.kind == ImportKind::StaticDefault ==> self.specifiers == seq!["default"@])
        &&& (self.kind != ImportKind::StaticDefault && self.kind != ImportKind::StaticNamed
            && self.kind != ImportKind::ReExportNamed ==> self.specifiers.len() == 0)
    }
}

impl View for ImportInfo {
    type V = ImportInfoView;

    open spec fn view(&self) -> ImportInfoView {
        ImportInfoView {
            source: self.source@,
            kind: self.kind,
            specifiers: names_of(self.specifiers@),
            is_dynamic: self.is_dynamic,
            is_star: self.is_star,
        }
    }
}

/// A table from import specifiers, as written, to the paths they resolve to.
#[derive(Clone, Debug)]
pub struct ImportMap {
    entries: Vec<(String, String)>,
}

impl View for ImportMap {
    type V = Map<Seq<char>, Seq<char>>;

    closed spec fn view(&self) -> Map<Seq<char>, Seq<char>> {
        Map::new(
            |k: Seq<char>| exists|i: int| self.holds_at(k, i),
            |k: Seq<char>| self.entries[self.slot(k)].1@,
        )
    }
}

impl ImportMap {
    /// Position `i` holds key `k`.
    closed spec fn holds_at(&self, k: Seq<char>, i: int) -> bool {
        0 <= i < self.entries.len() && self.entries[i].0@ == k
    }

    /// Position `i` is the first that holds key `k`.
    closed spec fn first_at(&self, k: Seq<char>, i: int) -> bool {
        self.holds_at(k, i) && forall|j: int| 0 <= j < i ==> !self.holds_at(k, j)
    }

    /// The first position that holds key `k`.
    closed spec fn slot(&self, k: Seq<char>) -> int {
        choose|i: int| self.first_at(k, i)
    }

    proof fn lemma_first_exists(&self, k: Seq<char>, i: int)
        requires
            self.holds_at(k, i),
        ensures
            exists|f: int| self.first_at(k, f),
        decreases i,
    {
        if exists|j: int| 0 <= j < i && self.holds_at(k, j) {
            let j = choose|j: int| 0 <= j < i && self.holds_at(k, j);
            self.lemma_first_exists(k, j);
        } else {
            assert(self.first_at(k, i));
        }
    }

    proof fn lemma_slot(&self, k: Seq<char>, i: int)
        requires
            self.first_at(k, i),
        ensures
            self.slot(k) == i,
            self@.dom().contains(k),
            self@[k] == self.entries[i].1@,
    {
        let s = self.slot(k);
        assert(self.first_at(k, s));
        if s < i {
            assert(!self.holds_at(k, s));
        }
        if i < s {
            assert(!self.holds_at(k, i));
        }
    }

    /// The empty table.
    pub fn new() -> (table: ImportMap)
        ensures
            table@ == Map::<Seq<char>, Seq<char>>::empty(),
    {
        let table = ImportMap { entries: Vec::new() };
        assert(table@ =~= Map::<Seq<char>, Seq<char>>::empty());
        table
    }

    fn position(&self, specifier: &str) -> (found: Option<usize>)
        ensures
            match found {
                Some(i) => self.first_at(specifier@, i as int),
                None => forall|j: int| !self.holds_at(specifier@, j),
            },
    {
        let mut i: usize = 0;
        while i < self.entries.len()
            invariant
                i <= self.entries.len(),
                forall|j: int| 0 <= j < i ==> !self.holds_at(specifier@, j),
            decreases self.entries.len() - i,
        {
            if str_eq(self.entries[i].0.as_str(), specifier) {
                return Some(i);
            }
            i += 1;
        }
        None
    }

    /// The path that `specifier` resolves to, if the table holds it.
    pub fn get(&self, specifier: &str) -> (found: Option<&String>)
        ensures
            match found {
                Some(path) => self@.dom().contains(specifier@) && path@ == self@[specifier@],
                None => !self@.dom().contains(specifier@),
            },
    {
        match self.position(specifier) {
            Some(i) => {
                proof {
                    self.lemma_slot(specifier@, i as int);
                }
                Some(&self.entries[i].1)
            },
            None => None,
        }
    }

    /// Records that `specifier` resolves to `path`, replacing an earlier entry.
    pub fn insert(&mut self, specifier: &str, path: &str)
        ensures
            final(self)@ == old(self)@.insert(specifier@, path@),
    {
        let found = self.position(specifier);
        let ghost at: int = match found {
            Some(i) => i as int,
            None => self.entries.len() as int,
        };
        match found {
            Some(i) => {
                self.entries[i].1 = path.to_owned();
            },
            None => {
                self.entries.push((specifier.to_owned(), path.to_owned()));
            },
        }
        proof {
            let before = *old(self);
            let after = *self;
            let goal = before@.insert(specifier@, path@);
            assert(after.first_at(specifier@, at)) by {
                assert forall|j: int| 0 <= j < at implies !after.holds_at(specifier@, j) by {
                    assert(!before.holds_at(specifier@, j));
                }
            }
            after.lemma_slot(specifier@, at);
            assert forall|k: Seq<char>|
                (#[trigger] after@.dom().contains(k)) == goal.dom().contains(k) && (
                after@.dom().contains(k) ==> after@[k] == goal[k]) by {
                if k != specifier@ && after@.dom().contains(k) {
                    let i = choose|i: int| after.holds_at(k, i);
                    after.lemma_first_exists(k, i);
                    let f = choose|f: int| after.first_at(k, f);
                    assert(before.first_at(k, f)) by {
                        assert(before.holds_at(k, f));
                        assert forall|j: int| 0 <= j < f implies !before.holds_at(k, j) by {
                            assert(!after.holds_at(k, j));
                        }
                    }
                    after.lemma_slot(k, f);
                    before.lemma_slot(k, f);
                }
                if k != specifier@ && before@.dom().contains(k) {
                    let i = choose|i: int| before.holds_at(k, i);
                    before.lemma_first_exists(k, i);
                    let f = choose|f: int| before.first_at(k, f);
                    assert(after.first_at(k, f)) by {
                        assert(after.holds_at(k, f));
                        assert forall|j: int| 0 <= j < f implies !after.holds_at(k, j) by {
                            assert(!before.holds_at(k, j));
                        }
                    }
                    after.lemma_slot(k, f);
                    before.lemma_slot(k, f);
                }
            }
            assert(after@ =~= goal);
        }
    }
}

/// A single compilation unit.
#[derive(Clone, Debug)]
pub struct Module {
    /// Index of the module in its graph.
    pub id: ModuleId,
    /// Virtual path: rooted, with forward slashes. Unique in the graph.
    pub path: String,
    /// Path of the file on the host.
    pub fs_path: String,
    /// The compiled text, as last seen.
    pub source: String,
    /// The encoded source map, passed through as it came.
    pub source_map: Option<String>,
    /// Starts at 1 and grows by 1 with every update of the source.
    pub version: u64,
    /// The exported names; `default` stands for the default export.
    pub exports: Vec<String>,
    /// From each specifier, as written, to the path it resolves to.
    pub imports: ImportMap,
    /// The import sites, in source order.
    pub import_info: Vec<ImportInfo>,
    /// Whether the file lies below a `node_modules` directory.
    pub is_vendor: bool,
    /// Style sheet text extracted from the module.
    pub css: Option<String>,
    /// A binary asset to write out: its name and its bytes.
    pub asset: Option<(String, Vec<u8>)>,
}

/// The mathematical value of a [`Module`].
pub struct ModuleView {
    pub id: ModuleId,
    pub path: Seq<char>,
    pub fs_path: Seq<char>,
    pub source: Seq<char>,
    pub source_map: Option<Seq<char>>,
    pub version: nat,
    pub exports: Seq<Seq<char>>,
    pub imports: Map<Seq<char>, Seq<char>>,
    pub import_info: Seq<ImportInfoView>,
    pub is_vendor: bool,
    pub css: Option<Seq<char>>,
    pub asset: Option<(Seq<char>, Seq<u8>)>,
}

/// The text held by an optional string.
pub open spec fn text_of(text: Option<String>) -> Option<Seq<char>> {
    match text {
        Some(t) => Some(t@),
        None => None,
    }
}

/// The name and the bytes of an optional asset.
pub open spec fn asset_of(asset: Option<(String, Vec<u8>)>) -> Option<(Seq<char>, Seq<u8>)> {
    match asset {
        Some((name, bytes)) => Some((name@, bytes@)),
        None => None,
    }
}

/// The values of a list of import sites.
pub open spec fn sites_of(sites: Seq<ImportInfo>) -> Seq<ImportInfoView> {
    sites.map_values(|site: ImportInfo| site@)
}

impl View for Module {
    type V = ModuleView;

    open spec fn view(&self) -> ModuleView {
        ModuleView {
            id: self.id,
            path: self.path@,
            fs_path: self.fs_path@,
            source: self.source@,
            source_map: text_of(self.source_map),
            version: self.version as nat,
            exports: names_of(self.exports@),
            imports: self.imports@,
            import_info: sites_of(self.import_info@),
            is_vendor: self.is_vendor,
            css: text_of(self.css),
            asset: asset_of(self.asset),
        }
    }
}

/// A module as it is when first met: nothing but a path and a source.
pub open spec fn fresh_module(id: ModuleId, path: Seq<char>, source: Seq<char>) -> ModuleView {
    ModuleView {
        id,
        path,
        fs_path: Seq::empty(),
        source,
        source_map: None,
        version: 1,
        exports: Seq::empty(),
        imports: Map::empty(),
        import_info: Seq::empty(),
        is_vendor: false,
        css: None,
        asset: None,
    }
}

/// `list` with `id` at its end, unless it holds `id` already.
pub open spec fn with_member(list: Seq<ModuleId>, id: ModuleId) -> Seq<ModuleId> {
    if list.contains(id) {
        list
    } else {
        list.push(id)
    }
}

/// A list of edge ends of module `owner`, in a graph of `n` modules: each
/// end names a module other than `owner`, and none comes twice.
pub open spec fn edge_list_wf(list: Seq<ModuleId>, owner: int, n: nat) -> bool {
    &&& list.no_duplicates()
    &&& forall|k: int| 0 <= k < list.len() ==> (#[trigger] list[k]).0 < n && list[k].0 != owner
}

/// The mathematical value of a [`ModuleGraph`].
pub struct GraphView {
    /// The modules, each at the index that its id names.
    pub modules: Seq<ModuleView>,
    /// For each module, the modules it imports.
    pub outgoing: Seq<Seq<ModuleId>>,
    /// For each module, the modules that import it.
    pub incoming: Seq<Seq<ModuleId>>,
    /// For each module, the modules it imports statically.
    pub sync_deps: Seq<Seq<ModuleId>>,
    /// For each module, the modules it imports dynamically.
    pub async_deps: Seq<Seq<ModuleId>>,
}

impl GraphView {
    /// The number of modules.
    pub open spec fn len(self) -> nat {
        self.modules.len()
    }

    /// `id` names a module of the graph.
    pub open spec fn valid(self, id: ModuleId) -> bool {
        id.0 < self.modules.len()
    }

    /// Module `from` imports module `to`.
    pub open spec fn has_edge(self, from: ModuleId, to: ModuleId) -> bool {
        self.valid(from) && self.valid(to) && self.outgoing[from.0 as int].contains(to)
    }

    /// Module `to` is recorded as imported by module `from`.
    pub open spec fn has_back_edge(self, to: ModuleId, from: ModuleId) -> bool {
        self.valid(from) && self.valid(to) && self.incoming[to.0 as int].contains(from)
    }

    /// The invariants of the graph.
    pub open spec fn wf(self) -> bool {
        let n = self.modules.len();
        &&& n <= usize::MAX
        &&& self.outgoing.len() == n
        &&& self.incoming.len() == n
        &&& self.sync_deps.len() == n
        &&& self.async_deps.len() == n
        &&& forall|i: int|
            0 <= i < n ==> {
                &&& (#[trigger] self.modules[i]).id == ModuleId(i as usize)
                &&& self.modules[i].version >= 1
                &&& self.modules[i].is_vendor == vendor_path(self.modules[i].fs_path)
            }
        &&& forall|i: int, j: int|
            0 <= i < n && 0 <= j < n && (#[trigger] self.modules[i]).path == (
            #[trigger] self.modules[j]).path ==> i == j
        &&& forall|i: int| 0 <= i < n ==> edge_list_wf(#[trigger] self.outgoing[i], i, n)
        &&& forall|i: int| 0 <= i < n ==> edge_list_wf(#[trigger] self.incoming[i], i, n)
        &&& forall|i: int| 0 <= i < n ==> edge_list_wf(#[trigger] self.sync_deps[i], i, n)
        &&& forall|i: int| 0 <= i < n ==> edge_list_wf(#[trigger] self.async_deps[i], i, n)
        &&& forall|a: ModuleId, b: ModuleId|
            #![trigger self.has_edge(a, b)]
            #![trigger self.has_back_edge(b, a)]
            self.has_edge(a, b) <==> self.has_back_edge(b, a)
        &&& forall|a: ModuleId, b: ModuleId|
            #![trigger self.outgoing[a.0 as int].contains(b)]
            #![trigger self.sync_deps[a.0 as int].contains(b)]
            #![trigger self.async_deps[a.0 as int].contains(b)]
            self.valid(a) ==> (self.outgoing[a.0 as int].contains(b) <==> (
            self.sync_deps[a.0 as int].contains(b) || self.async_deps[a.0 as int].contains(b)))
    }

    /// The module with the given path, if there is one.
    pub open spec fn find_path(self, path: Seq<char>) -> Option<ModuleId> {
        if exists|i: int| 0 <= i < self.modules.len() && self.modules[i].path == path {
            let i = choose|i: int| 0 <= i < self.modules.len() && self.modules[i].path == path;
            Some(ModuleId(i as usize))
        } else {
            None
        }
    }

    /// The graph with one more module, fresh, at its end.
    pub open spec fn with_module(self, path: Seq<char>, source: Seq<char>) -> GraphView {
        GraphView {
            modules: self.modules.push(
                fresh_module(ModuleId(self.modules.len() as usize), path, source),
            ),
            outgoing: self.outgoing.push(Seq::empty()),
            incoming: self.incoming.push(Seq::empty()),
            sync_deps: self.sync_deps.push(Seq::empty()),
            async_deps: self.async_deps.push(Seq::empty()),
        }
    }

    /// What `add_module` leaves: the graph as it was where the path is known,
    /// else the graph with a fresh module.
    pub open spec fn add_module(self, path: Seq<char>, source: Seq<char>) -> (GraphView, ModuleId) {
        match self.find_path(path) {
            Some(id) => (self, id),
            None => (self.with_module(path, source), ModuleId(self.modules.len() as usize)),
        }
    }

    /// The graph with module `id` replaced by `module`.
    pub open spec fn with_module_at(self, id: ModuleId, module: ModuleView) -> GraphView {
        GraphView { modules: self.modules.update(id.0 as int, module), ..self }
    }

    /// What `update_source` leaves: the new source and the next version in
    /// module `id`; the graph as it was where `id` names no module.
    pub open spec fn update_source(self, id: ModuleId, source: Seq<char>) -> GraphView {
        if self.valid(id) {
            let module = self.modules[id.0 as int];
            self.with_module_at(id, ModuleView { source, version: module.version + 1, ..module })
        } else {
            self
        }
    }

    /// The graph with the edge from `from` to `to`, static or dynamic.
    pub open spec fn with_edge(self, from: ModuleId, to: ModuleId, is_dynamic: bool) -> GraphView {
        let a = from.0 as int;
        let b = to.0 as int;
        GraphView {
            outgoing: self.outgoing.update(a, with_member(self.outgoing[a], to)),
            incoming: self.incoming.update(b, with_member(self.incoming[b], from)),
            sync_deps: if is_dynamic {
                self.sync_deps
            } else {
                self.sync_deps.update(a, with_member(self.sync_deps[a], to))
            },
            async_deps: if is_dynamic {
                self.async_deps.update(a, with_member(self.async_deps[a], to))
            } else {
                self.async_deps
            },
            ..self
        }
    }

    /// The version of module `id`.
    pub open spec fn version(self, id: ModuleId) -> nat
        recommends
            self.valid(id),
    {
        self.modules[id.0 as int].version
    }

    /// The graph after `change` was applied to module `id`; the graph as it
    /// was where `id` names no module.
    pub open spec fn change_module(self, id: ModuleId, change: spec_fn(ModuleView) -> ModuleView) -> GraphView {
        if self.valid(id) {
            self.with_module_at(id, change(self.modules[id.0 as int]))
        } else {
            self
        }
    }

    /// What `update_compiled` leaves: the new source and source map, and
    /// the next version.
    pub open spec fn update_compiled(
        self,
        id: ModuleId,
        source: Seq<char>,
        source_map: Option<Seq<char>>,
    ) -> GraphView {
        self.change_module(
            id,
            |m: ModuleView| ModuleView { source, source_map, version: m.version + 1, ..m },
        )
    }

    /// What `set_imports` leaves: the new table in place of the old one.
    pub open spec fn set_imports(self, id: ModuleId, imports: Map<Seq<char>, Seq<char>>) -> GraphView {
        self.change_module(id, |m: ModuleView| ModuleView { imports, ..m })
    }

    /// What `update_exports` leaves: the new names in place of the old ones.
    pub open spec fn update_exports(self, id: ModuleId, exports: Seq<Seq<char>>) -> GraphView {
        self.change_module(id, |m: ModuleView| ModuleView { exports, ..m })
    }

    /// What `set_import_info` leaves: the new import sites in place of the
    /// old ones.
    pub open spec fn set_import_info(self, id: ModuleId, sites: Seq<ImportInfoView>) -> GraphView {
        self.change_module(id, |m: ModuleView| ModuleView { import_info: sites, ..m })
    }

    /// What `set_fs_path` leaves: the host path, and whether it is vendor
    /// code.
    pub open spec fn set_fs_path(self, id: ModuleId, fs_path: Seq<char>) -> GraphView {
        self.change_module(
            id,
            |m: ModuleView| ModuleView { fs_path, is_vendor: vendor_path(fs_path), ..m },
        )
    }

    /// What `set_outputs` leaves: the style sheet and the asset that the
    /// module's compilation gave.
    pub open spec fn set_outputs(
        self,
        id: ModuleId,
        css: Option<Seq<char>>,
        asset: Option<(Seq<char>, Seq<u8>)>,
    ) -> GraphView {
        self.change_module(id, |m: ModuleView| ModuleView { css, asset, ..m })
    }
}

/// Replacing a module by one with the same id and path, a version of at
/// least 1 and the vendor flag of its host path keeps the graph well-formed.
pub proof fn lemma_with_module_at_wf(g: GraphView, id: ModuleId, module: ModuleView)
    requires
        g.wf(),
        g.valid(id),
        module.id == id,
        module.path == g.modules[id.0 as int].path,
        module.version >= 1,
        module.is_vendor == vendor_path(module.fs_path),
    ensures
        g.with_module_at(id, module).wf(),
{
    let h = g.with_module_at(id, module);
    assert forall|i: int, j: int|
        0 <= i < h.len() && 0 <= j < h.len() && (#[trigger] h.modules[i]).path == (
        #[trigger] h.modules[j]).path implies i == j by {
        assert(g.modules[i].path == g.modules[j].path);
    }
    assert forall|a: ModuleId, b: ModuleId|
        #![trigger h.has_edge(a, b)]
        #![trigger h.has_back_edge(b, a)]
        h.has_edge(a, b) <==> h.has_back_edge(b, a) by {
        assert(g.has_edge(a, b) <==> g.has_back_edge(b, a));
    }
}

/// The edge ends held by a list of lists.
pub open spec fn lists_of(lists: Seq<Vec<ModuleId>>) -> Seq<Seq<ModuleId>> {
    lists.map_values(|list: Vec<ModuleId>| list@)
}

/// The values of a list of modules.
pub open spec fn modules_of(modules: Seq<Module>) -> Seq<ModuleView> {
    modules.map_values(|m: Module| m@)
}

/// Adding a module to a well-formed graph leaves a well-formed graph, where
/// the path is new.
pub proof fn lemma_with_module_wf(g: GraphView, path: Seq<char>, source: Seq<char>)
    requires
        g.wf(),
        g.modules.len() < usize::MAX,
        g.find_path(path) is None,
    ensures
        g.with_module(path, source).wf(),
{
    let h = g.with_module(path, source);
    let n = g.modules.len() as int;
    reveal_strlit("node_modules");
    assert(!vendor_path(Seq::<char>::empty())) by {
        assert forall|at: int| !segment_at(Seq::<char>::empty(), "node_modules"@, at) by {}
    }
    assert forall|i: int, j: int|
        0 <= i < n + 1 && 0 <= j < n + 1 && (#[trigger] h.modules[i]).path == (
        #[trigger] h.modules[j]).path implies i == j by {
        if i < n && j < n {
            assert(g.modules[i].path == g.modules[j].path);
        } else if i < n {
            assert(g.modules[i].path == path);
        } else if j < n {
            assert(g.modules[j].path == path);
        }
    }
    assert forall|i: int| 0 <= i < n + 1 implies edge_list_wf(#[trigger] h.outgoing[i], i, h.len())
        && edge_list_wf(#[trigger] h.incoming[i], i, h.len()) && edge_list_wf(
        #[trigger] h.sync_deps[i],
        i,
        h.len(),
    ) && edge_list_wf(#[trigger] h.async_deps[i], i, h.len()) by {
        if i < n {
            assert(edge_list_wf(g.outgoing[i], i, g.len()));
            assert(edge_list_wf(g.incoming[i], i, g.len()));
            assert(edge_list_wf(g.sync_deps[i], i, g.len()));
            assert(edge_list_wf(g.async_deps[i], i, g.len()));
        }
    }
    assert forall|a: ModuleId, b: ModuleId|
        #![trigger h.has_edge(a, b)]
        #![trigger h.has_back_edge(b, a)]
        h.has_edge(a, b) <==> h.has_back_edge(b, a) by {
        if h.has_edge(a, b) {
            assert(a.0 < n);
            assert(edge_list_wf(g.outgoing[a.0 as int], a.0 as int, g.len()));
            assert(g.has_edge(a, b));
            assert(g.has_back_edge(b, a));
        }
        if h.has_back_edge(b, a) {
            assert(b.0 < n);
            assert(edge_list_wf(g.incoming[b.0 as int], b.0 as int, g.len()));
            assert(g.has_back_edge(b, a));
            assert(g.has_edge(a, b));
        }
    }
}

/// Adding an edge between two different modules of a well-formed graph
/// leaves a well-formed graph.
pub proof fn lemma_with_edge_wf(g: GraphView, from: ModuleId, to: ModuleId, is_dynamic: bool)
    requires
        g.wf(),
        g.valid(from),
        g.valid(to),
        from != to,
    ensures
        g.with_edge(from, to, is_dynamic).wf(),
{
    let h = g.with_edge(from, to, is_dynamic);
    let n = g.len();
    assert forall|i: int| 0 <= i < n implies edge_list_wf(#[trigger] h.outgoing[i], i, n)
        && edge_list_wf(#[trigger] h.incoming[i], i, n) && edge_list_wf(
        #[trigger] h.sync_deps[i],
        i,
        n,
    ) && edge_list_wf(#[trigger] h.async_deps[i], i, n) by {
        assert(edge_list_wf(g.outgoing[i], i, n));
        assert(edge_list_wf(g.incoming[i], i, n));
        assert(edge_list_wf(g.sync_deps[i], i, n));
        assert(edge_list_wf(g.async_deps[i], i, n));
    }
    assert forall|a: ModuleId, b: ModuleId|
        #![trigger h.has_edge(a, b)]
        #![trigger h.has_back_edge(b, a)]
        h.has_edge(a, b) <==> h.has_back_edge(b, a) by {
        assert(g.has_edge(a, b) <==> g.has_back_edge(b, a));
        if g.valid(a) && g.valid(b) {
            if a == from && b == to {
                assert(h.outgoing[a.0 as int].contains(b)) by {
                    if !g.outgoing[a.0 as int].contains(b) {
                        assert(h.outgoing[a.0 as int].last() == b);
                    }
                }
                assert(h.incoming[b.0 as int].contains(a)) by {
                    if !g.incoming[b.0 as int].contains(a) {
                        assert(h.incoming[b.0 as int].last() == a);
                    }
                }
            } else {
                lemma_with_member_other(g.outgoing[from.0 as int], to, b);
                lemma_with_member_other(g.incoming[to.0 as int], from, a);
            }
        }
    }
    assert forall|a: ModuleId, b: ModuleId|
        #![trigger h.outgoing[a.0 as int].contains(b)]
        #![trigger h.sync_deps[a.0 as int].contains(b)]
        #![trigger h.async_deps[a.0 as int].contains(b)]
        h.valid(a) implies (h.outgoing[a.0 as int].contains(b) <==> (
        h.sync_deps[a.0 as int].contains(b) || h.async_deps[a.0 as int].contains(b))) by {
        assert(g.outgoing[a.0 as int].contains(b) <==> (g.sync_deps[a.0 as int].contains(b)
            || g.async_deps[a.0 as int].contains(b)));
        if a == from {
            lemma_with_member_other(g.outgoing[from.0 as int], to, b);
            lemma_with_member_other(g.sync_deps[from.0 as int], to, b);
            lemma_with_member_other(g.async_deps[from.0 as int], to, b);
        }
    }
}

/// What `with_member` holds: what the list held, and the new member.
pub proof fn lemma_with_member_other(list: Seq<ModuleId>, id: ModuleId, other: ModuleId)
    ensures
        with_member(list, id).contains(other) <==> (list.contains(other) || other == id),
        with_member(list, id).len() >= list.len(),
        forall|k: int| 0 <= k < list.len() ==> with_member(list, id)[k] == list[k],
        list.no_duplicates() ==> with_member(list, id).no_duplicates(),
{
    let w = with_member(list, id);
    if !list.contains(id) {
        assert(w.last() == id);
        if list.contains(other) {
            let k = choose|k: int| 0 <= k < list.len() && list[k] == other;
            assert(w[k] == other);
        }
    }
}

fn insert_unique(list: &mut Vec<ModuleId>, id: ModuleId)
    ensures
        final(list)@ == with_member(old(list)@, id),
{
    let mut i: usize = 0;
    while i < list.len()
        invariant
            i <= list.len(),
            list@ == old(list)@,
            forall|k: int| 0 <= k < i ==> list@[k] != id,
        decreases list.len() - i,
    {
        if list[i] == id {
            return ;
        }
        i += 1;
    }
    list.push(id);
}

/// The dependency graph of a bundle: its modules, and who imports whom.
#[derive(Clone, Debug)]
pub struct ModuleGraph {
    modules: Vec<Module>,
    outgoing_edges: Vec<Vec<ModuleId>>,
    incoming_edges: Vec<Vec<ModuleId>>,
    sync_edges: Vec<Vec<ModuleId>>,
    async_edges: Vec<Vec<ModuleId>>,
}

impl View for ModuleGraph {
    type V = GraphView;

    closed spec fn view(&self) -> GraphView {
        GraphView {
            modules: modules_of(self.modules@),
            outgoing: lists_of(self.outgoing_edges@),
            incoming: lists_of(self.incoming_edges@),
            sync_deps: lists_of(self.sync_edges@),
            async_deps: lists_of(self.async_edges@),
        }
    }
}

impl ModuleGraph {
    /// The invariants of the graph hold.
    pub open spec fn wf(&self) -> bool {
        self@.wf()
    }

    /// An empty graph.
    pub fn new() -> (graph: ModuleGraph)
        ensures
            graph.wf(),
            graph@.len() == 0,
    {
        ModuleGraph {
            modules: Vec::new(),
            outgoing_edges: Vec::new(),
            incoming_edges: Vec::new(),
            sync_edges: Vec::new(),
            async_edges: Vec::new(),
        }
    }

    /// The number of modules.
    pub fn len(&self) -> (n: usize)
        ensures
            n == self@.len(),
    {
        self.modules.len()
    }

    /// For each module, the modules it imports.
    pub(crate) fn outgoing_lists(&self) -> (lists: &Vec<Vec<ModuleId>>)
        ensures
            lists_of(lists@) == self@.outgoing,
    {
        &self.outgoing_edges
    }

    /// For each module, the modules it imports statically.
    pub(crate) fn sync_lists(&self) -> (lists: &Vec<Vec<ModuleId>>)
        ensures
            lists_of(lists@) == self@.sync_deps,
    {
        &self.sync_edges
    }

    /// For each module, the modules it imports dynamically.
    pub(crate) fn async_lists(&self) -> (lists: &Vec<Vec<ModuleId>>)
        ensures
            lists_of(lists@) == self@.async_deps,
    {
        &self.async_edges
    }

    /// For each module, the modules that import it.
    pub(crate) fn incoming_lists(&self) -> (lists: &Vec<Vec<ModuleId>>)
        ensures
            lists_of(lists@) == self@.incoming,
    {
        &self.incoming_edges
    }

    /// The module with the given path, if the graph holds one.
    pub fn find_by_path(&self, path: &str) -> (found: Option<ModuleId>)
        requires
            self.wf(),
        ensures
            found == self@.find_path(path@),
    {
        let mut i: usize = 0;
        while i < self.modules.len()
            invariant
                i <= self.modules.len(),
                self.wf(),
                forall|k: int| 0 <= k < i ==> self@.modules[k].path != path@,
            decreases self.modules.len() - i,
        {
            if str_eq(self.modules[i].path.as_str(), path) {
                assert(self@.modules[i as int].path == path@);
                assert(self@.find_path(path@) == Some(ModuleId(i)));
                return Some(ModuleId(i));
            }
            i += 1;
        }
        None
    }

    /// Adds a module, fresh and at version 1, and returns its id. Where the
    /// graph holds a module with that path already, returns its id instead
    /// and changes nothing.
    pub fn add_module(&mut self, path: &str, source: &str) -> (id: ModuleId)
        requires
            old(self).wf(),
        ensures
            final(self).wf(),
            (final(self)@, id) == old(self)@.add_module(path@, source@),
    {
        if let Some(id) = self.find_by_path(path) {
            return id;
        }
        let id = ModuleId(self.modules.len());
        let module = Module {
            id,
            path: path.to_owned(),
            fs_path: String::new(),
            source: source.to_owned(),
            source_map: None,
            version: 1,
            exports: Vec::new(),
            imports: ImportMap::new(),
            import_info: Vec::new(),
            is_vendor: false,
            css: None,
            asset: None,
        };
        assert(module@ =~= fresh_module(id, path@, source@)) by {
            assert(module@.exports =~= Seq::<Seq<char>>::empty());
            assert(module@.import_info =~= Seq::<ImportInfoView>::empty());
        }
        self.modules.push(module);
        self.outgoing_edges.push(Vec::new());
        self.incoming_edges.push(Vec::new());
        self.sync_edges.push(Vec::new());
        self.async_edges.push(Vec::new());
        proof {
            let g = old(self)@;
            let h = g.with_module(path@, source@);
            assert(self.modules.len() == old(self).modules.len() + 1);
            assert(self@.modules =~= h.modules);
            assert(self@.outgoing =~= h.outgoing);
            assert(self@.incoming =~= h.incoming);
            assert(self@.sync_deps =~= h.sync_deps);
            assert(self@.async_deps =~= h.async_deps);
            lemma_with_module_wf(g, path@, source@);
        }
        id
    }

    /// Records that `from` imports `to` statically. Refuses an end that names
    /// no module, and an edge from a module to itself; an edge that is there
    /// already is not added again.
    pub fn add_dependency(&mut self, from: ModuleId, to: ModuleId) -> (done: Result<(), GraphError>)
        requires
            old(self).wf(),
        ensures
            final(self).wf(),
            done == old(self)@.edge_verdict(from, to),
            final(self)@ == (if done is Ok {
                old(self)@.with_edge(from, to, false)
            } else {
                old(self)@
            }),
    {
        self.add_import_edge(from, to, false)
    }

    /// Records that `from` imports `to`, statically or dynamically. Refuses
    /// an end that names no module, and an edge from a module to itself; an
    /// edge that is there already is not added again.
    pub fn add_import_edge(&mut self, from: ModuleId, to: ModuleId, is_dynamic: bool) -> (done:
        Result<(), GraphError>)
        requires
            old(self).wf(),
        ensures
            final(self).wf(),
            done == old(self)@.edge_verdict(from, to),
            final(self)@ == (if done is Ok {
                old(self)@.with_edge(from, to, is_dynamic)
            } else {
                old(self)@
            }),
    {
        if from.0 >= self.modules.len() || to.0 >= self.modules.len() {
            return Err(GraphError::OutOfBounds);
        }
        if from.0 == to.0 {
            return Err(GraphError::SelfEdge);
        }
        insert_unique(&mut self.outgoing_edges[from.0], to);
        insert_unique(&mut self.incoming_edges[to.0], from);
        if is_dynamic {
            insert_unique(&mut self.async_edges[from.0], to);
        } else {
            insert_unique(&mut self.sync_edges[from.0], to);
        }
        proof {
            let g = old(self)@;
            let h = g.with_edge(from, to, is_dynamic);
            assert(self@.modules =~= h.modules);
            assert(self@.outgoing =~= h.outgoing);
            assert(self@.incoming =~= h.incoming);
            assert(self@.sync_deps =~= h.sync_deps);
            assert(self@.async_deps =~= h.async_deps);
            lemma_with_edge_wf(g, from, to, is_dynamic);
        }
        Ok(())
    }
}

impl ModuleGraph {
    /// The module that `id` names.
    pub fn module(&self, id: ModuleId) -> (found: Option<&Module>)
        ensures
            match found {
                Some(m) => self@.valid(id) && m@ == self@.modules[id.0 as int],
                None => !self@.valid(id),
            },
    {
        if id.0 < self.modules.len() {
            Some(&self.modules[id.0])
        } else {
            None
        }
    }

    /// The version of module `id`.
    pub fn get_version(&self, id: ModuleId) -> (version: Option<u64>)
        ensures
            match version {
                Some(v) => self@.valid(id) && v == self@.version(id),
                None => !self@.valid(id),
            },
    {
        if id.0 < self.modules.len() {
            Some(self.modules[id.0].version)
        } else {
            None
        }
    }

    /// The modules that module `id` imports, in the order in which the
    /// edges were added.
    pub fn get_dependencies(&self, id: ModuleId) -> (found: Option<&Vec<ModuleId>>)
        requires
            self.wf(),
        ensures
            match found {
                Some(list) => self@.valid(id) && list@ == self@.outgoing[id.0 as int],
                None => !self@.valid(id),
            },
    {
        if id.0 < self.modules.len() {
            Some(&self.outgoing_edges[id.0])
        } else {
            None
        }
    }

    /// The modules that import module `id`, in the order in which the edges
    /// were added.
    pub fn get_dependents(&self, id: ModuleId) -> (found: Option<&Vec<ModuleId>>)
        requires
            self.wf(),
        ensures
            match found {
                Some(list) => self@.valid(id) && list@ == self@.incoming[id.0 as int],
                None => !self@.valid(id),
            },
    {
        if id.0 < self.modules.len() {
            Some(&self.incoming_edges[id.0])
        } else {
            None
        }
    }

    /// The modules that module `id` imports statically.
    pub fn sync_deps(&self, id: ModuleId) -> (found: Option<&Vec<ModuleId>>)
        requires
            self.wf(),
        ensures
            match found {
                Some(list) => self@.valid(id) && list@ == self@.sync_deps[id.0 as int],
                None => !self@.valid(id),
            },
    {
        if id.0 < self.modules.len() {
            Some(&self.sync_edges[id.0])
        } else {
            None
        }
    }

    /// The modules that module `id` imports dynamically.
    pub fn async_deps(&self, id: ModuleId) -> (found: Option<&Vec<ModuleId>>)
        requires
            self.wf(),
        ensures
            match found {
                Some(list) => self@.valid(id) && list@ == self@.async_deps[id.0 as int],
                None => !self@.valid(id),
            },
    {
        if id.0 < self.modules.len() {
            Some(&self.async_edges[id.0])
        } else {
            None
        }
    }

    /// Replaces the source of module `id` and moves its version on by one.
    /// The edges stay as they are. Does nothing for an id that names no
    /// module.
    pub fn update_source(&mut self, id: ModuleId, new_source: &str)
        requires
            old(self).wf(),
            old(self)@.valid(id) ==> old(self)@.version(id) < u64::MAX,
        ensures
            final(self).wf(),
            final(self)@ == old(self)@.update_source(id, new_source@),
    {
        if id.0 < self.modules.len() {
            self.modules[id.0].source = new_source.to_owned();
            self.modules[id.0].version += 1;
            proof {
                let g = old(self)@;
                let h = g.update_source(id, new_source@);
                assert(self@.modules =~= h.modules);
                lemma_with_module_at_wf(g, id, h.modules[id.0 as int]);
            }
        }
    }

    /// Replaces the source and the source map of module `id` and moves its
    /// version on by one. Does nothing for an id that names no module.
    pub fn update_compiled(&mut self, id: ModuleId, source: &str, source_map: Option<String>)
        requires
            old(self).wf(),
            old(self)@.valid(id) ==> old(self)@.version(id) < u64::MAX,
        ensures
            final(self).wf(),
            final(self)@ == old(self)@.update_compiled(id, source@, text_of(source_map)),
    {
        if id.0 < self.modules.len() {
            self.modules[id.0].source = source.to_owned();
            self.modules[id.0].source_map = source_map;
            self.modules[id.0].version += 1;
            proof {
                let g = old(self)@;
                let h = g.update_compiled(id, source@, text_of(source_map));
                assert(self@.modules =~= h.modules);
                lemma_with_module_at_wf(g, id, h.modules[id.0 as int]);
            }
        }
    }

    /// Replaces the import table of module `id`. Does nothing for an id
    /// that names no module.
    pub fn set_imports(&mut self, id: ModuleId, imports: ImportMap)
        requires
            old(self).wf(),
        ensures
            final(self).wf(),
            final(self)@ == old(self)@.set_imports(id, imports@),
    {
        if id.0 < self.modules.len() {
            self.modules[id.0].imports = imports;
            proof {
                let g = old(self)@;
                let h = g.set_imports(id, imports@);
                assert(self@.modules =~= h.modules);
                lemma_with_module_at_wf(g, id, h.modules[id.0 as int]);
            }
        }
    }

    /// Replaces the exported names of module `id`. Does nothing for an id
    /// that names no module.
    pub fn update_exports(&mut self, id: ModuleId, exports: Vec<String>)
        requires
            old(self).wf(),
        ensures
            final(self).wf(),
            final(self)@ == old(self)@.update_exports(id, names_of(exports@)),
    {
        if id.0 < self.modules.len() {
            self.modules[id.0].exports = exports;
            proof {
                let g = old(self)@;
                let h = g.update_exports(id, names_of(exports@));
                assert(self@.modules =~= h.modules);
                lemma_with_module_at_wf(g, id, h.modules[id.0 as int]);
            }
        }
    }

    /// Replaces the import sites of module `id`. Does nothing for an id
    /// that names no module.
    pub fn set_import_info(&mut self, id: ModuleId, sites: Vec<ImportInfo>)
        requires
            old(self).wf(),
        ensures
            final(self).wf(),
            final(self)@ == old(self)@.set_import_info(id, sites_of(sites@)),
    {
        if id.0 < self.modules.len() {
            self.modules[id.0].import_info = sites;
            proof {
                let g = old(self)@;
                let h = g.set_import_info(id, sites_of(sites@));
                assert(self@.modules =~= h.modules);
                lemma_with_module_at_wf(g, id, h.modules[id.0 as int]);
            }
        }
    }

    /// Records the host path of module `id`, and with it whether the module
    /// is vendor code. Does nothing for an id that names no module.
    pub fn set_fs_path(&mut self, id: ModuleId, fs_path: &str)
        requires
            old(self).wf(),
        ensures
            final(self).wf(),
            final(self)@ == old(self)@.set_fs_path(id, fs_path@),
    {
        if id.0 < self.modules.len() {
            let vendor = is_vendor_path(fs_path);
            self.modules[id.0].fs_path = fs_path.to_owned();
            self.modules[id.0].is_vendor = vendor;
            proof {
                let g = old(self)@;
                let h = g.set_fs_path(id, fs_path@);
                assert(self@.modules =~= h.modules);
                lemma_with_module_at_wf(g, id, h.modules[id.0 as int]);
            }
        }
    }

    /// Records the style sheet and the asset that compiling module `id`
    /// gave. Does nothing for an id that names no module.
    pub fn set_outputs(&mut self, id: ModuleId, css: Option<String>, asset: Option<(String, Vec<u8>)>)
        requires
            old(self).wf(),
        ensures
            final(self).wf(),
            final(self)@ == old(self)@.set_outputs(id, text_of(css), asset_of(asset)),
    {
        if id.0 < self.modules.len() {
            self.modules[id.0].css = css;
            self.modules[id.0].asset = asset;
            proof {
                let g = old(self)@;
                let h = g.set_outputs(id, text_of(css), asset_of(asset));
                assert(self@.modules =~= h.modules);
                lemma_with_module_at_wf(g, id, h.modules[id.0 as int]);
            }
        }
    }
}

impl GraphView {
    /// Whether an edge from `from` to `to` is taken, and if not, why.
    pub open spec fn edge_verdict(self, from: ModuleId, to: ModuleId) -> Result<(), GraphError> {
        if !self.valid(from) || !self.valid(to) {
            Err(GraphError::OutOfBounds)
        } else if from == to {
            Err(GraphError::SelfEdge)
        } else {
            Ok(())
        }
    }
}

} // verus!
