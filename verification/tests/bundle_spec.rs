use nexus_core::graph::{ImportInfo, ImportKind, ImportMap, ModuleGraph, ModuleId};
use nexus_core::liveness::liveness_closure;
use nexus_core::partition::{chunk_file_name, partition};

fn site(source: &str, kind: ImportKind, names: &[&str]) -> ImportInfo {
    ImportInfo {
        source: source.to_string(),
        kind,
        specifiers: names.iter().map(|n| n.to_string()).collect(),
        is_dynamic: kind == ImportKind::Dynamic,
        is_star: kind == ImportKind::StaticNamespace || kind == ImportKind::ReExportStar,
    }
}

fn module(graph: &mut ModuleGraph, path: &str, exports: &[&str], sites: Vec<(ImportInfo, &str)>) -> ModuleId {
    let id = graph.add_module(path, "");
    graph.update_exports(id, exports.iter().map(|n| n.to_string()).collect());
    let mut imports = ImportMap::new();
    let mut info = Vec::new();
    for (edge, target) in sites {
        imports.insert(&edge.source, target);
        info.push(edge);
    }
    graph.set_imports(id, imports);
    graph.set_import_info(id, info);
    id
}

fn used(graph: &ModuleGraph, entry: ModuleId, of: ModuleId) -> Vec<String> {
    let mut names = liveness_closure(graph, entry).used_exports[of.0].names().clone();
    names.sort();
    names
}

#[test]
fn named_imports_are_used() {
    let mut graph = ModuleGraph::new();
    let utils = module(&mut graph, "/src/utils.ts", &["used", "unused"], vec![]);
    let consts = module(&mut graph, "/src/constants.ts", &["ConstUsed", "ConstUnused", "default"], vec![]);
    let dead = module(&mut graph, "/src/dead.ts", &["x"], vec![(site("./utils", ImportKind::StaticNamed, &["unused"]), "/src/utils.ts")]);
    let entry = module(
        &mut graph,
        "/src/index.tsx",
        &["main"],
        vec![
            (site("./utils", ImportKind::StaticNamed, &["used"]), "/src/utils.ts"),
            (site("./constants", ImportKind::StaticNamed, &["ConstUsed"]), "/src/constants.ts"),
            (site("./constants", ImportKind::StaticDefault, &["default"]), "/src/constants.ts"),
            (site("./missing", ImportKind::StaticNamed, &["ghost"]), "/src/missing.ts"),
        ],
    );
    let found = liveness_closure(&graph, entry);
    assert_eq!(found.live, vec![entry, utils, consts]);
    assert!(!found.live.contains(&dead));
    assert_eq!(found.used_exports.len(), 4);
    assert_eq!(used(&graph, entry, utils), vec!["used"]);
    assert_eq!(used(&graph, entry, consts), vec!["ConstUsed", "default"]);
    assert!(used(&graph, entry, entry).is_empty());
    assert!(used(&graph, entry, dead).is_empty());
}

#[test]
fn namespace_import_uses_every_export() {
    let mut graph = ModuleGraph::new();
    let lib = module(&mut graph, "/src/lib.ts", &["a", "b", "default"], vec![]);
    let entry = module(&mut graph, "/src/main.ts", &[], vec![(site("./lib", ImportKind::StaticNamespace, &[]), "/src/lib.ts")]);
    assert_eq!(used(&graph, entry, lib), vec!["a", "b", "default"]);
}

#[test]
fn export_star_uses_every_export_and_hands_names_on() {
    let mut graph = ModuleGraph::new();
    let deep = module(&mut graph, "/src/deep.ts", &["x", "y"], vec![]);
    let inner = module(&mut graph, "/src/inner.ts", &["z"], vec![(site("./deep", ImportKind::ReExportStar, &[]), "/src/deep.ts")]);
    let barrel = module(&mut graph, "/src/barrel.ts", &[], vec![(site("./inner", ImportKind::ReExportStar, &[]), "/src/inner.ts")]);
    let entry = module(&mut graph, "/src/main.ts", &[], vec![(site("./barrel", ImportKind::StaticNamed, &["q"]), "/src/barrel.ts")]);
    let found = liveness_closure(&graph, entry);
    assert_eq!(found.live, vec![entry, barrel, inner, deep]);
    assert_eq!(used(&graph, entry, barrel), vec!["q"]);
    assert_eq!(used(&graph, entry, inner), vec!["q", "z"]);
    assert_eq!(used(&graph, entry, deep), vec!["q", "x", "y", "z"]);
}

#[test]
fn stars_in_a_cycle_end() {
    let mut graph = ModuleGraph::new();
    let a = module(&mut graph, "/a.ts", &["a1"], vec![(site("./b", ImportKind::ReExportStar, &[]), "/b.ts")]);
    let b = module(&mut graph, "/b.ts", &["b1"], vec![(site("./a", ImportKind::ReExportStar, &[]), "/a.ts")]);
    let entry = module(&mut graph, "/main.ts", &[], vec![(site("./a", ImportKind::StaticNamed, &["n"]), "/a.ts")]);
    assert_eq!(used(&graph, entry, a), vec!["a1", "b1", "n"]);
    assert_eq!(used(&graph, entry, b), vec!["a1", "b1", "n"]);
}

#[test]
fn dynamic_and_bare_imports_keep_modules_live() {
    let mut graph = ModuleGraph::new();
    let lazy = module(&mut graph, "/lazy.ts", &["run"], vec![]);
    let side = module(&mut graph, "/side.ts", &["s"], vec![]);
    let entry = module(
        &mut graph,
        "/main.ts",
        &[],
        vec![(site("./lazy", ImportKind::Dynamic, &[]), "/lazy.ts"), (site("./side", ImportKind::StaticBare, &[]), "/side.ts")],
    );
    let found = liveness_closure(&graph, entry);
    assert_eq!(found.live, vec![entry, lazy, side]);
    assert!(used(&graph, entry, lazy).is_empty());
    assert!(used(&graph, entry, side).is_empty());
}

#[test]
fn chunk_names_are_slugs() {
    assert_eq!(chunk_file_name("/src/dynamic.ts"), "chunk-src-dynamic.ts.js");
    assert_eq!(chunk_file_name("//-/a/b"), "chunk-a-b.js");
    assert_eq!(chunk_file_name("plain"), "chunk-plain.js");
    assert_eq!(chunk_file_name("/"), "chunk-.js");
    assert_eq!(chunk_file_name(""), "chunk-.js");
    assert_eq!(chunk_file_name("/a-/b/"), "chunk-a--b-.js");
}

#[test]
fn code_is_split_at_dynamic_imports() {
    let mut graph = ModuleGraph::new();
    let main = graph.add_module("/src/index.tsx", "");
    let utils = graph.add_module("/src/utils.ts", "");
    let dynamic = graph.add_module("/src/dynamic.ts", "");
    graph.add_import_edge(main, utils, false).unwrap();
    graph.add_import_edge(main, dynamic, true).unwrap();
    graph.add_import_edge(dynamic, utils, false).unwrap();

    let parts = partition(&graph, main);
    assert_eq!(parts.chunks.len(), 2);
    assert_eq!(parts.chunks[0].name, "main.js");
    assert!(parts.chunks[0].is_entry);
    assert_eq!(parts.chunks[0].root, main);
    assert_eq!(parts.chunks[0].modules, vec![main, utils]);
    assert_eq!(parts.chunks[1].name, "chunk-src-dynamic.ts.js");
    assert!(!parts.chunks[1].is_entry);
    assert_eq!(parts.chunks[1].root, dynamic);
    assert_eq!(parts.chunks[1].members, vec![dynamic]);
    assert_eq!(parts.chunks[1].modules, vec![dynamic]);
    assert!(parts.vendor.is_empty());
    assert_eq!(
        parts.chunk_map,
        vec![("/src/dynamic.ts".to_string(), "/assets/chunk-src-dynamic.ts.js".to_string())]
    );
}

#[test]
fn vendor_modules_leave_their_chunks() {
    let mut graph = ModuleGraph::new();
    let main = graph.add_module("/src/main.ts", "");
    let react = graph.add_module("/node_modules/react/index.js", "");
    let lazy = graph.add_module("/src/lazy.ts", "");
    let lodash = graph.add_module("/node_modules/lodash/index.js", "");
    let helper = graph.add_module("/src/helper.ts", "");
    let orphan = graph.add_module("/src/orphan.ts", "");
    graph.set_fs_path(react, "/app/node_modules/react/index.js");
    graph.set_fs_path(lodash, "/app/node_modules/lodash/index.js");
    graph.add_import_edge(main, react, false).unwrap();
    graph.add_import_edge(main, lazy, true).unwrap();
    graph.add_import_edge(lazy, lodash, false).unwrap();
    graph.add_import_edge(lazy, react, false).unwrap();
    graph.add_import_edge(lazy, helper, false).unwrap();
    graph.add_import_edge(helper, lazy, false).unwrap();

    let parts = partition(&graph, main);
    assert_eq!(parts.chunks.len(), 2);
    assert_eq!(parts.chunks[0].members, vec![main, react]);
    assert_eq!(parts.chunks[0].modules, vec![main]);
    assert_eq!(parts.chunks[1].members, vec![lazy, lodash, helper]);
    assert_eq!(parts.chunks[1].modules, vec![lazy, helper]);
    assert_eq!(parts.vendor, vec![react, lodash]);
    assert_eq!(
        parts.chunk_map,
        vec![
            ("/src/lazy.ts".to_string(), "/assets/chunk-src-lazy.ts.js".to_string()),
            ("/src/helper.ts".to_string(), "/assets/chunk-src-lazy.ts.js".to_string()),
        ]
    );
    let mut all: Vec<ModuleId> = parts.vendor.clone();
    for chunk in &parts.chunks {
        all.extend(chunk.modules.iter().copied());
    }
    all.sort_by_key(|id| id.0);
    assert_eq!(all, vec![main, react, lazy, lodash, helper]);
    assert!(!all.contains(&orphan));
}

#[test]
fn a_module_reached_twice_stays_in_the_first_chunk() {
    let mut graph = ModuleGraph::new();
    let main = graph.add_module("/main.ts", "");
    let a = graph.add_module("/a.ts", "");
    let b = graph.add_module("/b.ts", "");
    let shared = graph.add_module("/shared.ts", "");
    let both = graph.add_module("/both.ts", "");
    graph.add_import_edge(main, a, true).unwrap();
    graph.add_import_edge(main, b, true).unwrap();
    graph.add_import_edge(a, shared, false).unwrap();
    graph.add_import_edge(b, shared, false).unwrap();
    graph.add_import_edge(main, both, true).unwrap();
    graph.add_import_edge(main, both, false).unwrap();
    graph.add_import_edge(b, a, true).unwrap();

    let parts = partition(&graph, main);
    let shape: Vec<(&str, Vec<ModuleId>)> = parts.chunks.iter().map(|c| (c.name.as_str(), c.modules.clone())).collect();
    assert_eq!(
        shape,
        vec![("main.js", vec![main, both]), ("chunk-a.ts.js", vec![a, shared]), ("chunk-b.ts.js", vec![b])]
    );
}

#[test]
fn chunks_come_in_the_order_in_which_their_roots_were_met() {
    let mut graph = ModuleGraph::new();
    let c = graph.add_module("/c.ts", "");
    let b = graph.add_module("/b.ts", "");
    let a = graph.add_module("/a.ts", "");
    let inner = graph.add_module("/inner.ts", "");
    let deep = graph.add_module("/deep.ts", "");
    let main = graph.add_module("/main.ts", "");
    graph.add_import_edge(main, inner, false).unwrap();
    graph.add_import_edge(inner, deep, false).unwrap();
    graph.add_import_edge(main, a, true).unwrap();
    graph.add_import_edge(a, c, true).unwrap();
    graph.add_import_edge(inner, b, true).unwrap();
    graph.add_import_edge(deep, a, true).unwrap();
    graph.add_import_edge(b, deep, false).unwrap();
    graph.add_import_edge(c, b, false).unwrap();

    let parts = partition(&graph, main);
    let shape: Vec<(ModuleId, Vec<ModuleId>)> = parts.chunks.iter().map(|k| (k.root, k.members.clone())).collect();
    assert_eq!(
        shape,
        vec![(main, vec![main, inner, deep]), (a, vec![a]), (b, vec![b]), (c, vec![c])]
    );
    let paths: Vec<&str> = parts.chunk_map.iter().map(|l| l.0.as_str()).collect();
    assert_eq!(paths, vec!["/a.ts", "/b.ts", "/c.ts"]);
}
