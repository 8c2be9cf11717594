//! The crawl of a production build: the graph of a project as it grows
//! from its entry, module by module. A crawl changes its graph only in
//! ways that keep it linked, so the bundle that is built of it gives
//! every live module exactly one place.

use vstd::prelude::*;
use crate::bundler::{Bundle, build, link_imports, link_sites, linked_graph, targets_of};
use crate::compiler::CompileResult;
use crate::graph::{GraphView, ImportInfo, ModuleGraph, ModuleId, asset_of, names_of, sites_of, text_of};
use crate::laws::has_one_place;
use crate::linked::{
    is_linked,
    law_attributes_keep_graph_linked,
    law_linking_keeps_graph_linked,
    law_new_module_keeps_graph_linked,
    law_unanalyzed_graph_is_linked,
};
use crate::liveness::live;

verus! {

/// The graph without modules.
pub open spec fn empty_graph() -> GraphView {
    GraphView {
        modules: Seq::empty(),
        outgoing: Seq::empty(),
        incoming: Seq::empty(),
        sync_deps: Seq::empty(),
        async_deps: Seq::empty(),
    }
}

/// The graph of a project while it is read, and its entry.
pub struct Crawl {
    graph: ModuleGraph,
    entry: ModuleId,
}

impl View for Crawl {
    type V = GraphView;

    closed spec fn view(&self) -> GraphView {
        self.graph@
    }
}

impl Crawl {
    /// The module that the application starts with.
    pub closed spec fn entry_id(&self) -> ModuleId {
        self.entry
    }

    /// The graph is well-formed and linked, and holds the entry.
    pub open spec fn wf(&self) -> bool {
        self@.wf() && is_linked(self@) && self@.valid(self.entry_id())
    }

    /// A crawl that begins at the module with the path `entry_path`: its
    /// graph holds that module and nothing else.
    pub fn start(entry_path: &str) -> (crawl: Crawl)
        ensures
            crawl.wf(),
            crawl@ == empty_graph().add_module(entry_path@, Seq::empty()).0,
            crawl.entry_id() == ModuleId(0),
    {
        let mut graph = ModuleGraph::new();
        proof {
            let g = graph@;
            assert(g.modules =~= Seq::empty());
            assert(g.outgoing =~= Seq::empty());
            assert(g.incoming =~= Seq::empty());
            assert(g.sync_deps =~= Seq::empty());
            assert(g.async_deps =~= Seq::empty());
            assert(g == empty_graph());
            law_unanalyzed_graph_is_linked(graph@);
            law_new_module_keeps_graph_linked(graph@, entry_path@, Seq::empty());
        }
        let entry = graph.add_module(entry_path, "");
        assert(""@ =~= Seq::<char>::empty()) by {
            reveal_strlit("");
        }
        Crawl { graph, entry }
    }

    /// The graph as it stands.
    pub fn graph(&self) -> (graph: &ModuleGraph)
        ensures
            graph@ == self@,
    {
        &self.graph
    }

    /// The module that the application starts with.
    pub fn entry(&self) -> (id: ModuleId)
        ensures
            id == self.entry_id(),
    {
        self.entry
    }

    /// Notes where the file of module `id` is on the host.
    pub fn located(&mut self, id: ModuleId, fs_path: &str)
        requires
            old(self).wf(),
        ensures
            final(self).wf(),
            final(self)@ == old(self)@.set_fs_path(id, fs_path@),
            final(self).entry_id() == old(self).entry_id(),
    {
        self.graph.set_fs_path(id, fs_path);
        proof {
            law_attributes_keep_graph_linked(old(self)@, self@);
        }
    }

    /// Notes what the compiler made of module `id`: the code and its source
    /// map, which make the next version of the module, and the style sheet
    /// or the asset that came with them.
    pub fn compiled(&mut self, id: ModuleId, result: CompileResult)
        requires
            old(self).wf(),
            old(self)@.valid(id) ==> old(self)@.version(id) < u64::MAX,
        ensures
            final(self).wf(),
            final(self)@ == old(self)@.update_compiled(
                id,
                result.code@,
                text_of(result.sourcemap),
            ).set_outputs(id, text_of(result.css), asset_of(result.asset)),
            final(self).entry_id() == old(self).entry_id(),
    {
        self.graph.update_compiled(id, result.code.as_str(), result.sourcemap);
        proof {
            law_attributes_keep_graph_linked(old(self)@, self@);
        }
        let ghost between = self@;
        self.graph.set_outputs(id, result.css, result.asset);
        proof {
            law_attributes_keep_graph_linked(between, self@);
        }
    }

    /// Notes what the analyzer found in module `id`, and links its import
    /// sites into the graph. `targets` holds, for each site, the virtual
    /// path that its specifier was resolved to, or nothing where it was not
    /// resolved. Returns the modules that are new to the graph, which are
    /// still to be read.
    pub fn analyzed(
        &mut self,
        id: ModuleId,
        exports: Vec<String>,
        sites: Vec<ImportInfo>,
        targets: &Vec<Option<String>>,
    ) -> (fresh: Vec<ModuleId>)
        requires
            old(self).wf(),
            old(self)@.valid(id),
            sites.len() == targets.len(),
            old(self)@.len() + sites.len() <= usize::MAX,
        ensures
            final(self).wf(),
            final(self)@ == linked_graph(
                old(self)@.update_exports(id, names_of(exports@)),
                id,
                sites_of(sites@),
                targets_of(targets@),
            ),
            fresh@ == link_sites(
                old(self)@.update_exports(id, names_of(exports@)),
                id,
                sites_of(sites@),
                targets_of(targets@),
                sites.len() as int,
            ).fresh,
            final(self).entry_id() == old(self).entry_id(),
    {
        self.graph.update_exports(id, exports);
        let ghost between = self@;
        proof {
            law_attributes_keep_graph_linked(old(self)@, between);
            law_linking_keeps_graph_linked(between, id, sites_of(sites@), targets_of(targets@));
        }
        link_imports(&mut self.graph, id, sites, targets)
    }

    /// Builds the bundle of the graph as it stands. Every live module has
    /// exactly one place in it.
    pub fn bundle(&self) -> (bundle: Bundle)
        requires
            self.wf(),
        ensures
            bundle.is_bundle_of(self@, self.entry_id()),
            forall|v: ModuleId|
                #[trigger] live(self@, self.entry_id(), v) ==> has_one_place(
                    self@,
                    bundle.partition,
                    v,
                ),
    {
        build(&self.graph, self.entry)
    }
}

} // verus!
