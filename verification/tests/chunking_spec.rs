use nexus_core::graph::{ModuleGraph, ModuleId};

#[test]
fn test_chunk_linearization() {
    let mut graph = ModuleGraph::new();

    let c_id = graph.add_module("c.js", "const c = 3;");

    let b_id = graph.add_module("b.js", "import './c.js';\nconst b = 2;");
    graph.add_dependency(b_id, c_id).unwrap();

    let a_id = graph.add_module("a.js", "import './b.js';\nconst a = 1;");
    graph.add_dependency(a_id, b_id).unwrap();

    let chunk_order = graph.linearize(a_id);

    assert_eq!(chunk_order.len(), 3);
    assert_eq!(chunk_order[0], c_id, "C should be first (leaf)");
    assert_eq!(chunk_order[1], b_id, "B should be second");
    assert_eq!(chunk_order[2], a_id, "A should be last (root)");
}

#[test]
fn test_chunk_cycle_handling() {
    let mut graph = ModuleGraph::new();

    let a_id = graph.add_module("a.js", "");
    let b_id = graph.add_module("b.js", "");

    graph.add_dependency(a_id, b_id).unwrap();
    graph.add_dependency(b_id, a_id).unwrap();

    let order = graph.linearize(a_id);

    assert_eq!(order.len(), 2);
    assert!(order.contains(&a_id));
    assert!(order.contains(&b_id));
}

#[test]
fn cycle_is_linearized_with_the_start_last() {
    let mut graph = ModuleGraph::new();
    let a = graph.add_module("a.js", "");
    let b = graph.add_module("b.js", "");
    graph.add_dependency(a, b).unwrap();
    graph.add_dependency(b, a).unwrap();
    assert_eq!(graph.linearize(a), vec![b, a]);
    assert_eq!(graph.linearize(b), vec![a, b]);
}

#[test]
fn shared_import_is_written_once_and_first() {
    let mut graph = ModuleGraph::new();
    let main = graph.add_module("main.js", "");
    let left = graph.add_module("left.js", "");
    let right = graph.add_module("right.js", "");
    let base = graph.add_module("base.js", "");
    let lonely = graph.add_module("lonely.js", "");
    graph.add_dependency(main, left).unwrap();
    graph.add_dependency(main, right).unwrap();
    graph.add_dependency(left, base).unwrap();
    graph.add_dependency(right, base).unwrap();
    let order = graph.linearize(main);
    assert_eq!(order, vec![base, left, right, main]);
    assert!(!order.contains(&lonely));
    assert_eq!(graph.linearize(lonely), vec![lonely]);
}

#[test]
fn linearize_of_unknown_module_is_the_id_alone() {
    let graph = ModuleGraph::new();
    assert_eq!(graph.linearize(ModuleId(4)), vec![ModuleId(4)]);
}

#[test]
fn every_import_outside_a_cycle_comes_first() {
    let mut graph = ModuleGraph::new();
    let ids: Vec<ModuleId> = (0..8).map(|i| graph.add_module(&format!("/m{}.js", i), "")).collect();
    let edges = [(0, 1), (1, 2), (2, 1), (2, 3), (0, 4), (4, 3), (3, 5), (5, 6), (6, 5), (4, 6)];
    for (a, b) in edges {
        graph.add_dependency(ids[a], ids[b]).unwrap();
    }
    let order = graph.linearize(ids[0]);
    assert_eq!(order.len(), 7);
    assert!(!order.contains(&ids[7]));
    let at = |id: ModuleId| order.iter().position(|x| *x == id).unwrap();
    for (a, b) in [(0, 1), (2, 3), (0, 4), (4, 3), (3, 5), (4, 6)] {
        assert!(at(ids[b]) < at(ids[a]));
    }
    assert_eq!(*order.last().unwrap(), ids[0]);
}
