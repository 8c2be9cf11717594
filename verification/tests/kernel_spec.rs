use nexus_core::kernel::{resolve_module, DependencyGraph};

#[test]
fn test_dependency_graph() {
    let mut graph = DependencyGraph::new();

    let a = "/src/a.js".to_string();
    let b = "/src/b.js".to_string();
    let c = "/src/c.js".to_string();

    graph.add_module(a.clone(), vec![b.clone()]);
    graph.add_module(b.clone(), vec![c.clone()]);

    let dependents = graph.get_dependents(&b);
    assert_eq!(dependents.len(), 1);
    assert_eq!(dependents[0], a);
}

#[test]
fn test_resolve_relative() {
    let result = resolve_module("./foo", "/project/src/index.js");
    assert!(result.is_err());
}

#[test]
fn resolve_names_the_specifier() {
    let error = resolve_module("./foo", "/project/src/index.js").unwrap_err();
    assert_eq!(error.message, "Resolution not yet implemented for: ./foo");
}

#[test]
fn dependents_follow_replacement_and_invalidation() {
    let mut graph = DependencyGraph::default();
    graph.add_module("/a".to_string(), vec!["/x".to_string(), "/y".to_string()]);
    graph.add_module("/b".to_string(), vec!["/y".to_string()]);
    graph.add_module("/c".to_string(), vec![]);
    assert_eq!(graph.get_dependents("/y"), vec!["/a".to_string(), "/b".to_string()]);
    assert_eq!(graph.get_dependents("/x"), vec!["/a".to_string()]);
    assert!(graph.get_dependents("/a").is_empty());

    graph.add_module("/a".to_string(), vec!["/x".to_string()]);
    assert_eq!(graph.get_dependents("/y"), vec!["/b".to_string()]);

    graph.invalidate("/b");
    assert!(graph.get_dependents("/y").is_empty());
    graph.invalidate("/missing");
    assert_eq!(graph.get_dependents("/x"), vec!["/a".to_string()]);
}
