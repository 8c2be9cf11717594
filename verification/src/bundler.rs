//! The orchestration of a build, as far as it computes: how the imports of
//! a compiled module are linked into the graph, what a production bundle
//! holds once the graph is complete, and what the development server
//! hands out for an entry.

use vstd::prelude::*;
use vstd::string::StringExecFns;
use crate::cjs::transform_cjs;
use crate::emit::{
    bootstrap,
    bootstrap_call,
    chunk_file,
    emit_chunk,
    emit_styles,
    emit_vendor,
    lowered,
    register_module,
    registered,
    style_text,
    vendor_file,
};
use crate::graph::{
    GraphView,
    ImportInfo,
    ImportInfoView,
    ImportMap,
    ModuleGraph,
    ModuleId,
    sites_of,
};
use crate::laws::{has_one_place, law_live_module_has_one_place, sites_have_edges};
use crate::liveness::{Liveness, live, liveness_closure};
use crate::partition::{Partition, chunk_fits, lemma_chunk_modules_valid, map_lines, partition};
use crate::runtime::NEXUS_RUNTIME_JS;
use crate::traverse::{post_order, post_order_of};

verus! {

/// What linking import sites has come to: the graph, the import table of
/// the importing module, and the modules that were new to the graph.
pub struct Linked {
    pub graph: GraphView,
    pub imports: Map<Seq<char>, Seq<char>>,
    pub fresh: Seq<ModuleId>,
}

/// Links one import site of module `id`. A site that was not resolved
/// changes nothing. Else the target is added to the graph, unless it is
/// there; the edge is added, unless it is refused; and the table learns
/// where the specifier leads.
pub open spec fn link_site(
    state: Linked,
    id: ModuleId,
    site: ImportInfoView,
    target: Option<Seq<char>>,
) -> Linked {
    match target {
        None => state,
        Some(path) => {
            let (with_target, t) = state.graph.add_module(path, Seq::empty());
            Linked {
                graph: if with_target.edge_verdict(id, t) is Ok {
                    with_target.with_edge(id, t, site.is_dynamic)
                } else {
                    with_target
                },
                imports: state.imports.insert(site.source, path),
                fresh: if state.graph.find_path(path) is None {
                    state.fresh.push(t)
                } else {
                    state.fresh
                },
            }
        },
    }
}

/// Links the first `upto` import sites of module `id`, in their order.
pub open spec fn link_sites(
    g: GraphView,
    id: ModuleId,
    sites: Seq<ImportInfoView>,
    targets: Seq<Option<Seq<char>>>,
    upto: int,
) -> Linked
    decreases upto,
{
    if upto <= 0 {
        Linked { graph: g, imports: Map::empty(), fresh: Seq::empty() }
    } else {
        link_site(link_sites(g, id, sites, targets, upto - 1), id, sites[upto - 1], targets[upto - 1])
    }
}

/// The graph after the import sites of module `id` were linked: with the
/// targets and the edges, and with the sites and the import table in
/// module `id`.
pub open spec fn linked_graph(
    g: GraphView,
    id: ModuleId,
    sites: Seq<ImportInfoView>,
    targets: Seq<Option<Seq<char>>>,
) -> GraphView {
    let done = link_sites(g, id, sites, targets, sites.len() as int);
    done.graph.set_imports(id, done.imports).set_import_info(id, sites)
}

/// The texts of a list of resolutions.
pub open spec fn targets_of(targets: Seq<Option<String>>) -> Seq<Option<Seq<char>>> {
    targets.map_values(|t: Option<String>| crate::graph::text_of(t))
}

/// Links the import sites of module `id` into the graph. `targets` holds,
/// for each site, the virtual path that its specifier was resolved to, or
/// nothing where it was not resolved: such a site gets no edge. Returns the
/// modules that were new to the graph, which are still to be compiled.
pub fn link_imports(
    graph: &mut ModuleGraph,
    id: ModuleId,
    sites: Vec<ImportInfo>,
    targets: &Vec<Option<String>>,
) -> (fresh: Vec<ModuleId>)
    requires
        old(graph).wf(),
        old(graph)@.valid(id),
        sites.len() == targets.len(),
    ensures
        final(graph).wf(),
        final(graph)@ == linked_graph(old(graph)@, id, sites_of(sites@), targets_of(targets@)),
        fresh@ == link_sites(
            old(graph)@,
            id,
            sites_of(sites@),
            targets_of(targets@),
            sites.len() as int,
        ).fresh,
{
    let ghost g = graph@;
    let ghost all_sites = sites_of(sites@);
    let ghost all_targets = targets_of(targets@);
    let mut imports = ImportMap::new();
    let mut fresh: Vec<ModuleId> = Vec::new();
    let nothing = String::new();
    let mut k: usize = 0;
    while k < sites.len()
        invariant
            k <= sites.len(),
            sites.len() == targets.len(),
            all_sites == sites_of(sites@),
            all_targets == targets_of(targets@),
            nothing@ == Seq::<char>::empty(),
            graph.wf(),
            graph@.valid(id),
            graph@ == link_sites(g, id, all_sites, all_targets, k as int).graph,
            imports@ == link_sites(g, id, all_sites, all_targets, k as int).imports,
            fresh@ == link_sites(g, id, all_sites, all_targets, k as int).fresh,
        decreases sites.len() - k,
    {
        assert(all_sites[k as int] == sites[k as int]@);
        assert(all_targets[k as int] == crate::graph::text_of(targets[k as int]));
        match &targets[k] {
            Some(path) => {
                let known = graph.find_by_path(path.as_str());
                let target = graph.add_module(path.as_str(), nothing.as_str());
                if known.is_none() {
                    fresh.push(target);
                }
                let _ = graph.add_import_edge(id, target, sites[k].is_dynamic);
                imports.insert(sites[k].source.as_str(), path.as_str());
            },
            None => {},
        }
        k += 1;
    }
    graph.set_imports(id, imports);
    graph.set_import_info(id, sites);
    fresh
}

/// What a production build gives, before anything is written.
pub struct Bundle {
    /// The live modules and the used exports.
    pub liveness: Liveness,
    /// The chunks, the vendor list and the chunk map.
    pub partition: Partition,
    /// The text of `vendor.js`.
    pub vendor_js: String,
    /// For each chunk, in the order of the partition, the text of its file.
    pub chunk_files: Vec<String>,
    /// The text of `style.css`.
    pub style_css: String,
}

impl Bundle {
    /// The bundle is the one of the graph `g` for `entry`.
    pub open spec fn is_bundle_of(&self, g: GraphView, entry: ModuleId) -> bool {
        &&& self.liveness.is_closure_of(g, entry)
        &&& self.partition.is_partition_of(g, entry)
        &&& self.vendor_js@ == vendor_file(g, self.partition.vendor@, self.liveness.used_exports@)
        &&& self.chunk_files.len() == self.partition.chunks.len()
        &&& forall|k: int|
            0 <= k < self.chunk_files.len() ==> (#[trigger] self.chunk_files[k])@ == chunk_file(
                g,
                self.partition.chunks[k],
                self.liveness.used_exports@,
                map_lines(self.partition.chunk_map@),
                g.modules[entry.0 as int].path,
            )
        &&& self.style_css@ == style_text(g, self.liveness.live@, self.liveness.live.len() as int)
    }
}

/// Builds the bundle of a complete graph: computes what is live and which
/// exports are used, parts the modules into chunks, and writes the text of
/// every file: each module shaken for its used exports, lowered and
/// wrapped; the loader in the vendor file; the chunk map and the call that
/// starts the application in the entry chunk; and the style sheets of the
/// live modules in one. Where the graph has an edge for every import
/// site, as a graph has that was made by linking, every live module has
/// exactly one place in the bundle.
pub fn build(graph: &ModuleGraph, entry: ModuleId) -> (bundle: Bundle)
    requires
        graph.wf(),
        graph@.valid(entry),
    ensures
        bundle.is_bundle_of(graph@, entry),
        sites_have_edges(graph@) ==> forall|v: ModuleId|
            #[trigger] live(graph@, entry, v) ==> has_one_place(graph@, bundle.partition, v),
{
    let ghost g = graph@;
    let liveness = liveness_closure(graph, entry);
    let parts = partition(graph, entry);
    proof {
        if sites_have_edges(g) {
            assert forall|v: ModuleId| #[trigger] live(g, entry, v) implies has_one_place(
                g,
                parts,
                v,
            ) by {
                law_live_module_has_one_place(g, entry, parts, v);
            }
        }
    }
    let entry_path = match graph.module(entry) {
        Some(module) => module.path.clone(),
        None => String::new(),
    };
    proof {
        assert forall|k: int| 0 <= k < parts.vendor.len() implies g.valid(
            #[trigger] parts.vendor[k],
        ) by {
            assert(parts.vendor@.contains(parts.vendor[k]));
        }
    }
    let vendor_js = emit_vendor(graph, &parts.vendor, &liveness.used_exports);
    let mut chunk_files: Vec<String> = Vec::new();
    let mut k: usize = 0;
    while k < parts.chunks.len()
        invariant
            g == graph@,
            graph.wf(),
            g.valid(entry),
            k <= parts.chunks.len(),
            chunk_files.len() == k,
            parts.is_partition_of(g, entry),
            liveness.used_exports.len() == g.len(),
            entry_path@ == g.modules[entry.0 as int].path,
            forall|j: int|
                0 <= j < k ==> (#[trigger] chunk_files[j])@ == chunk_file(
                    g,
                    parts.chunks[j],
                    liveness.used_exports@,
                    map_lines(parts.chunk_map@),
                    entry_path@,
                ),
        decreases parts.chunks.len() - k,
    {
        let chunk = &parts.chunks[k];
        proof {
            assert(chunk_fits(g, parts.chunks@, k as int));
            lemma_chunk_modules_valid(g, parts.chunks@, k as int);
        }
        let text = emit_chunk(
            graph,
            chunk,
            &liveness.used_exports,
            &parts.chunk_map,
            entry_path.as_str(),
        );
        chunk_files.push(text);
        k += 1;
    }
    proof {
        assert forall|i: int| 0 <= i < liveness.live.len() implies g.valid(
            #[trigger] liveness.live[i],
        ) by {
            assert(liveness.live@.contains(liveness.live[i]));
            assert(crate::liveness::live(g, entry, liveness.live[i]));
            crate::liveness::lemma_import_adj_wf(g);
            crate::reach::lemma_reaches_valid(
                crate::liveness::import_adj(g),
                entry,
                liveness.live[i],
            );
        }
    }
    let style_css = emit_styles(graph, &liveness.live);
    Bundle { liveness, partition: parts, vendor_js, chunk_files, style_css }
}

/// What the development server runs in the page before the modules of an
/// entry: it opens the socket for hot updates, and on an update fetches
/// each module that accepts its replacement again, registers it and runs
/// it, and reloads the page for any other.
pub const HMR_CLIENT: &'static str = r#"
// --- HMR Client ---
(function() {
    const socket = new WebSocket("ws://" + window.location.host + "/ws");
    socket.onmessage = async function(event) {
        const msg = JSON.parse(event.data);
        if (msg.type === 'update') {
            console.log("[HMR] Update received", msg.paths);
            
            for (const path of msg.paths) {
                const cached = window.__nexus_cache__ && window.__nexus_cache__[path];
                const isAccepted = cached && cached.hot && cached.hot._accepted;
                
                if (isAccepted) {
                    try {
                        const res = await fetch(path);
                        const code = await res.text();
                        const factory = new Function("require", "module", "exports", code);
                        
                        window.__nexus_register__(path, factory);
                        delete window.__nexus_cache__[path];
                        window.__nexus_require__(path);
                        
                        console.log("[HMR] Hot Updated: " + path);
                    } catch (e) {
                        console.error("[HMR] Update Failed", e);
                        window.location.reload();
                    }
                } else {
                    console.log("[HMR] Not accepted. Full Reload.", path);
                    window.location.reload();
                    return;
                }
            }
        }
    };
    console.log("[HMR] Connected");
})();
"#;

/// What hooks the refresh runtime into the page, once it is registered.
pub const REFRESH_SETUP: &'static str = r#"
(function() {
  try {
      const Runtime = __nexus_require__("/__nexus_react_refresh");
      Runtime.injectIntoGlobalHook(window);
      window.$RefreshReg$ = () => {};
      window.$RefreshSig$ = () => (type) => type;
      window.__NEXUS_REFRESH__ = Runtime;
  } catch(e) { console.warn("[Nexus] React Refresh failed to load", e); }
})();
"#;

/// The part of a development bundle that brings the refresh runtime: the
/// runtime as a module, and its hook; nothing where the project has none.
pub open spec fn refresh_part(runtime: Option<Seq<char>>) -> Seq<char> {
    match runtime {
        Some(code) => registered("/__nexus_react_refresh"@, code) + REFRESH_SETUP@,
        None => Seq::empty(),
    }
}

/// The first `upto` of the modules `order` as they stand in a development
/// bundle: each lowered and wrapped.
pub open spec fn registered_all(g: GraphView, order: Seq<ModuleId>, upto: int) -> Seq<char>
    decreases upto,
{
    if upto <= 0 {
        Seq::empty()
    } else {
        let module = g.modules[order[upto - 1].0 as int];
        registered_all(g, order, upto - 1) + registered(
            module.path,
            lowered(module.source, module.path, module.imports),
        )
    }
}

/// The development bundle of `entry`: the loader, the refresh runtime, the
/// client for hot updates, the modules that the entry reaches, each lowered
/// and wrapped, in the order in which a depth-first walk leaves them, and
/// the call that starts the application.
pub open spec fn dev_chunk_text(g: GraphView, entry: ModuleId, runtime: Option<Seq<char>>) -> Seq<char> {
    let order = post_order(g.outgoing, entry);
    NEXUS_RUNTIME_JS@ + "\n"@ + refresh_part(runtime) + HMR_CLIENT@ + "\n"@ + registered_all(
        g,
        order,
        order.len() as int,
    ) + bootstrap(g.modules[entry.0 as int].path)
}

/// What `dev_chunk` gives: the development bundle of the module at
/// `entry_path`; nothing where the graph holds no such module.
pub open spec fn dev_chunk_of(g: GraphView, entry_path: Seq<char>, runtime: Option<Seq<char>>) -> Option<
    Seq<char>,
> {
    match g.find_path(entry_path) {
        Some(entry) => Some(dev_chunk_text(g, entry, runtime)),
        None => None,
    }
}

/// The text held by an optional string slice.
pub open spec fn slice_text(text: Option<&str>) -> Option<Seq<char>> {
    match text {
        Some(t) => Some(t@),
        None => None,
    }
}

/// The bundle that the development server hands out for the entry at
/// `entry_path`; nothing where the graph holds no such module.
/// `refresh_runtime` is the code of the refresh runtime, where the project
/// has one.
pub fn dev_chunk(graph: &ModuleGraph, entry_path: &str, refresh_runtime: Option<&str>) -> (chunk:
    Option<String>)
    requires
        graph.wf(),
    ensures
        crate::graph::text_of(chunk) == dev_chunk_of(
            graph@,
            entry_path@,
            slice_text(refresh_runtime),
        ),
{
    let ghost g = graph@;
    let entry = match graph.find_by_path(entry_path) {
        Some(id) => id,
        None => {
            return None;
        },
    };
    assert(g.valid(entry) && g.modules[entry.0 as int].path == entry_path@) by {
        let c = choose|i: int| 0 <= i < g.modules.len() && g.modules[i].path == entry_path@;
    }
    let order = graph.linearize(entry);
    let mut out = String::from_str(NEXUS_RUNTIME_JS);
    out.append("\n");
    match refresh_runtime {
        Some(code) => {
            out.append(register_module("/__nexus_react_refresh", code).as_str());
            out.append(REFRESH_SETUP);
        },
        None => {},
    }
    out.append(HMR_CLIENT);
    out.append("\n");
    let ghost head = out@;
    assert(head =~= NEXUS_RUNTIME_JS@ + "\n"@ + refresh_part(slice_text(refresh_runtime))
        + HMR_CLIENT@ + "\n"@);
    let mut i: usize = 0;
    assert(head + Seq::<char>::empty() =~= head);
    while i < order.len()
        invariant
            g == graph@,
            graph.wf(),
            i <= order.len(),
            post_order_of(g.outgoing, entry, order@),
            out@ == head + registered_all(g, order@, i as int),
        decreases order.len() - i,
    {
        let ghost before = registered_all(g, order@, i as int);
        proof {
            assert(order@.contains(order[i as int]));
            crate::reach::lemma_reaches_valid(g.outgoing, entry, order[i as int]);
        }
        match graph.module(order[i]) {
            Some(module) => {
                let body = transform_cjs(
                    module.source.as_str(),
                    module.path.as_str(),
                    &module.imports,
                );
                let wrapped = register_module(module.path.as_str(), body.as_str());
                out.append(wrapped.as_str());
                assert(out@ =~= head + (before + wrapped@));
            },
            None => {},
        }
        i += 1;
    }
    let call = bootstrap_call(entry_path);
    out.append(call.as_str());
    assert(out@ =~= dev_chunk_text(g, entry, slice_text(refresh_runtime)));
    Some(out)
}

} // verus!
