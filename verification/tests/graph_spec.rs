use nexus_core::graph::{GraphError, ModuleGraph, ModuleId};

#[test]
fn test_graph_topology_and_invalidation() {
    let mut graph = ModuleGraph::new();

    let main_id = graph.add_module("main.js", "import './lib.js';");
    let lib_id = graph.add_module("lib.js", "export const x = 1;");

    let res = graph.add_dependency(main_id, lib_id);
    assert!(res.is_ok(), "Failed to add dependency");

    let deps_main = graph.get_dependencies(main_id).expect("Should have outgoing edges");
    assert!(deps_main.contains(&lib_id), "main should depend on lib");

    let dependents_lib = graph.get_dependents(lib_id).expect("Should have incoming edges");
    assert!(dependents_lib.contains(&main_id), "lib should have main as dependent");

    let v1 = graph.get_version(lib_id).expect("Should have version");
    assert_eq!(v1, 1, "Initial version should be 1");

    graph.update_source(lib_id, "export const x = 2;");

    let v2 = graph.get_version(lib_id).expect("Should have version");
    assert!(v2 > v1, "Version should increment after update");
    assert_eq!(v2, 2, "Version should be 2");

    let dependents_lib_after = graph.get_dependents(lib_id).expect("Should have incoming edges");
    assert!(dependents_lib_after.contains(&main_id), "lib should still have main as dependent");
}

#[test]
fn version_counts_every_update() {
    let mut graph = ModuleGraph::new();
    let a = graph.add_module("/src/a.ts", "v1");
    let b = graph.add_module("/src/b.ts", "other");
    for k in 0..7u64 {
        assert_eq!(graph.get_version(a), Some(1 + k));
        graph.update_source(a, "next");
    }
    assert_eq!(graph.get_version(a), Some(8));
    assert_eq!(graph.get_version(b), Some(1));
    assert_eq!(graph.module(a).unwrap().source, "next");
}

#[test]
fn update_of_unknown_module_changes_nothing() {
    let mut graph = ModuleGraph::new();
    let a = graph.add_module("/src/a.ts", "v1");
    graph.update_source(ModuleId(5), "ghost");
    assert_eq!(graph.len(), 1);
    assert_eq!(graph.get_version(a), Some(1));
    assert_eq!(graph.get_version(ModuleId(5)), None);
    assert!(graph.get_dependencies(ModuleId(5)).is_none());
    assert!(graph.get_dependents(ModuleId(5)).is_none());
}

#[test]
fn added_module_is_found_by_its_path() {
    let mut graph = ModuleGraph::new();
    let a = graph.add_module("/src/app.tsx", "");
    let b = graph.add_module("/src/util.ts", "x");
    assert_eq!(a, ModuleId(0));
    assert_eq!(b, ModuleId(1));
    assert_eq!(graph.find_by_path("/src/app.tsx"), Some(a));
    assert_eq!(graph.find_by_path("/src/util.ts"), Some(b));
    assert_eq!(graph.find_by_path("/src/none.ts"), None);
    assert_eq!(graph.module(b).unwrap().id, b);
    assert_eq!(graph.module(b).unwrap().path, "/src/util.ts");
}

#[test]
fn adding_a_known_path_returns_the_first_module() {
    let mut graph = ModuleGraph::new();
    let a = graph.add_module("/src/app.tsx", "first");
    graph.update_source(a, "second");
    let again = graph.add_module("/src/app.tsx", "third");
    assert_eq!(again, a);
    assert_eq!(graph.len(), 1);
    assert_eq!(graph.get_version(a), Some(2));
    assert_eq!(graph.module(a).unwrap().source, "second");
}

#[test]
fn repeated_edge_is_held_once() {
    let mut graph = ModuleGraph::new();
    let a = graph.add_module("a.js", "");
    let b = graph.add_module("b.js", "");
    assert_eq!(graph.add_dependency(a, b), Ok(()));
    assert_eq!(graph.add_dependency(a, b), Ok(()));
    assert_eq!(graph.add_import_edge(a, b, true), Ok(()));
    assert_eq!(graph.get_dependencies(a).unwrap(), &vec![b]);
    assert_eq!(graph.get_dependents(b).unwrap(), &vec![a]);
    assert_eq!(graph.sync_deps(a).unwrap(), &vec![b]);
    assert_eq!(graph.async_deps(a).unwrap(), &vec![b]);
    assert!(graph.get_dependencies(b).unwrap().is_empty());
    assert!(graph.get_dependents(a).unwrap().is_empty());
}

#[test]
fn edges_are_mirrored_in_both_indexes() {
    let mut graph = ModuleGraph::new();
    let ids: Vec<ModuleId> = (0..5).map(|i| graph.add_module(&format!("/m{}.js", i), "")).collect();
    let edges = [(0, 1), (0, 2), (1, 2), (3, 0), (2, 4), (4, 1), (0, 1)];
    for (a, b) in edges {
        graph.add_dependency(ids[a], ids[b]).unwrap();
    }
    for &a in &ids {
        for &b in &ids {
            let out = graph.get_dependencies(a).unwrap().iter().filter(|x| **x == b).count();
            let back = graph.get_dependents(b).unwrap().iter().filter(|x| **x == a).count();
            assert_eq!(out, back);
            assert!(out <= 1);
        }
    }
}

#[test]
fn refused_edges() {
    let mut graph = ModuleGraph::new();
    let a = graph.add_module("a.js", "");
    let b = graph.add_module("b.js", "");
    assert_eq!(graph.add_dependency(a, a), Err(GraphError::SelfEdge));
    assert_eq!(graph.add_dependency(a, ModuleId(2)), Err(GraphError::OutOfBounds));
    assert_eq!(graph.add_dependency(ModuleId(9), b), Err(GraphError::OutOfBounds));
    assert_eq!(graph.add_dependency(ModuleId(9), ModuleId(9)), Err(GraphError::OutOfBounds));
    assert!(graph.get_dependencies(a).unwrap().is_empty());
    assert!(graph.get_dependents(b).unwrap().is_empty());
    assert_eq!(GraphError::SelfEdge.message(), "Self-dependency not allowed");
    assert_eq!(GraphError::OutOfBounds.message(), "ModuleId out of bounds");
}

#[test]
fn static_and_dynamic_edges_are_told_apart() {
    let mut graph = ModuleGraph::new();
    let a = graph.add_module("a.js", "");
    let b = graph.add_module("b.js", "");
    let c = graph.add_module("c.js", "");
    graph.add_import_edge(a, b, false).unwrap();
    graph.add_import_edge(a, c, true).unwrap();
    assert_eq!(graph.get_dependencies(a).unwrap(), &vec![b, c]);
    assert_eq!(graph.sync_deps(a).unwrap(), &vec![b]);
    assert_eq!(graph.async_deps(a).unwrap(), &vec![c]);
}

#[test]
fn vendor_flag_follows_the_host_path() {
    let mut graph = ModuleGraph::new();
    let a = graph.add_module("/node_modules/react/index.js", "");
    let b = graph.add_module("/src/node_modules_helper.ts", "");
    assert!(!graph.module(a).unwrap().is_vendor);
    graph.set_fs_path(a, "/home/u/app/node_modules/react/index.js");
    graph.set_fs_path(b, "/home/u/app/src/node_modules_helper.ts");
    assert!(graph.module(a).unwrap().is_vendor);
    assert!(!graph.module(b).unwrap().is_vendor);
    assert_eq!(graph.module(a).unwrap().fs_path, "/home/u/app/node_modules/react/index.js");
}
