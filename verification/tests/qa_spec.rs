use nexus_core::graph::ModuleGraph;
use std::time::Instant;

#[test]
fn test_circular_dependency_handling() {
    let mut graph = ModuleGraph::new();

    let a = graph.add_module("/src/a.ts", "");
    let b = graph.add_module("/src/b.ts", "");

    let _ = graph.add_import_edge(a, b, false);
    let _ = graph.add_import_edge(b, a, false);

    let paths = |graph: &ModuleGraph, path: &str| -> Vec<String> {
        let id = graph.find_by_path(path).unwrap();
        graph
            .get_dependencies(id)
            .unwrap()
            .iter()
            .map(|dep| graph.module(*dep).unwrap().path.clone())
            .collect()
    };

    let deps_a = paths(&graph, "/src/a.ts");
    assert!(deps_a.contains(&"/src/b.ts".to_string()));

    let deps_b = paths(&graph, "/src/b.ts");
    assert!(deps_b.contains(&"/src/a.ts".to_string()));
}

#[test]
fn test_large_graph_construction_sim() {
    let mut graph = ModuleGraph::new();
    let start = Instant::now();

    for i in 0..1000 {
        graph.add_module(&format!("/src/mod_{}.ts", i), "");
    }

    for i in 0..999 {
        let from = graph.find_by_path(&format!("/src/mod_{}.ts", i)).unwrap();
        let to = graph.find_by_path(&format!("/src/mod_{}.ts", i + 1)).unwrap();
        let _ = graph.add_import_edge(from, to, false);
    }

    let duration = start.elapsed();
    println!("Graph construction (1000 nodes linear): {:?}", duration);
    assert!(duration.as_millis() < 500, "Graph construction too slow");

    let deps = graph.find_by_path("/src/mod_0.ts").and_then(|id| graph.get_dependencies(id));
    assert!(deps.is_some());
}
