use nexus_core::emit::chunk_map_statement;
use nexus_core::graph::{ModuleGraph, ModuleId};
use nexus_core::hmr::{affected_paths, reload_message, update_message};

#[test]
fn test_find_affected_roots_simple() {
    let mut graph = ModuleGraph::new();

    let utils_id = graph.add_module("src/utils.js", "export const u = 1;");
    let lib_id = graph.add_module("src/lib.js", "import './utils.js';");
    let main_id = graph.add_module("src/main.js", "import './lib.js';");

    graph.add_dependency(main_id, lib_id).unwrap();
    graph.add_dependency(lib_id, utils_id).unwrap();

    let roots = graph.find_affected_roots(utils_id);
    assert_eq!(roots.len(), 1);
    assert_eq!(roots[0], main_id);

    let roots_lib = graph.find_affected_roots(lib_id);
    assert_eq!(roots_lib.len(), 1);
    assert_eq!(roots_lib[0], main_id);

    let roots_main = graph.find_affected_roots(main_id);
    assert_eq!(roots_main.len(), 1);
    assert_eq!(roots_main[0], main_id);
}

#[test]
fn test_hmr_multiple_roots() {
    let mut graph = ModuleGraph::new();

    let shared_id = graph.add_module("shared.js", "");
    let app1_id = graph.add_module("app1.js", "");
    let app2_id = graph.add_module("app2.js", "");

    graph.add_dependency(app1_id, shared_id).unwrap();
    graph.add_dependency(app2_id, shared_id).unwrap();

    let roots = graph.find_affected_roots(shared_id);
    assert_eq!(roots.len(), 2);
    assert!(roots.contains(&app1_id));
    assert!(roots.contains(&app2_id));
}

#[test]
fn test_hmr_circular() {
    let mut graph = ModuleGraph::new();

    let a_id = graph.add_module("a.js", "");
    let b_id = graph.add_module("b.js", "");

    graph.add_dependency(a_id, b_id).unwrap();
    graph.add_dependency(b_id, a_id).unwrap();

    let main_id = graph.add_module("main.js", "");
    graph.add_dependency(main_id, a_id).unwrap();

    let roots = graph.find_affected_roots(b_id);
    assert_eq!(roots.len(), 1);
    assert_eq!(roots[0], main_id);
}

#[test]
fn closed_cycle_gives_the_changed_module() {
    let mut graph = ModuleGraph::new();
    let a = graph.add_module("a.js", "");
    let b = graph.add_module("b.js", "");
    graph.add_dependency(a, b).unwrap();
    graph.add_dependency(b, a).unwrap();
    assert_eq!(graph.find_affected_roots(a), vec![a]);
    assert_eq!(graph.find_affected_roots(b), vec![b]);
}

#[test]
fn unknown_module_has_no_roots() {
    let mut graph = ModuleGraph::new();
    graph.add_module("a.js", "");
    assert!(graph.find_affected_roots(ModuleId(3)).is_empty());
}

#[test]
fn roots_come_in_search_order() {
    let mut graph = ModuleGraph::new();
    let shared = graph.add_module("shared.js", "");
    let mid = graph.add_module("mid.js", "");
    let app1 = graph.add_module("app1.js", "");
    let app2 = graph.add_module("app2.js", "");
    graph.add_dependency(mid, shared).unwrap();
    graph.add_dependency(app2, shared).unwrap();
    graph.add_dependency(app1, mid).unwrap();
    assert_eq!(graph.find_affected_roots(shared), vec![app2, app1]);
}

#[test]
fn reload_target_scenario() {
    let mut graph = ModuleGraph::new();
    let main = graph.add_module("/src/main.tsx", "");
    let lib = graph.add_module("/src/lib.ts", "");
    let utils = graph.add_module("/src/utils.ts", "");
    graph.add_dependency(main, lib).unwrap();
    graph.add_dependency(lib, utils).unwrap();

    assert_eq!(graph.find_affected_roots(utils), vec![main]);
    let paths = affected_paths(&graph, utils);
    assert_eq!(paths, vec!["/src/main.tsx"]);
    assert_eq!(update_message(&paths), "{\"type\":\"update\",\"paths\":[\"/src/main.tsx\"]}");
    assert_eq!(
        update_message(&vec!["/a\"b".to_string(), "/c".to_string()]),
        "{\"type\":\"update\",\"paths\":[\"/a\\\"b\",\"/c\"]}"
    );
    assert_eq!(update_message(&vec![]), "{\"type\":\"update\",\"paths\":[]}");
    assert_eq!(reload_message(), "{\"type\":\"reload\",\"paths\":[]}");
    assert!(affected_paths(&graph, ModuleId(9)).is_empty());
}

#[test]
fn cycle_resilience_scenario() {
    let mut graph = ModuleGraph::new();
    let main = graph.add_module("/src/main.ts", "");
    let a = graph.add_module("/src/a.ts", "");
    let b = graph.add_module("/src/b.ts", "");
    graph.add_dependency(main, a).unwrap();
    graph.add_dependency(a, b).unwrap();
    graph.add_dependency(b, a).unwrap();
    assert_eq!(graph.find_affected_roots(b), vec![main]);
    assert_eq!(affected_paths(&graph, b), vec!["/src/main.ts"]);
}

#[test]
fn json_strings_are_escaped() {
    let path = "a\"b\\c\n\t\r\u{8}\u{c}\u{0}\u{1}\u{b}\u{1f} \u{7f}é/'".to_string();
    let expected = "\"a\\\"b\\\\c\\n\\t\\r\\b\\f\\u0000\\u0001\\u000b\\u001f \u{7f}é/'\"";
    assert_eq!(update_message(&vec![path.clone()]), format!("{{\"type\":\"update\",\"paths\":[{}]}}", expected));
    assert_eq!(
        chunk_map_statement(&vec![(path.clone(), String::new())]),
        format!("\nwindow.__nexus_chunk_map__ = {{{}:\"\"}};\n", expected)
    );
    assert_eq!(expected, serde_json::to_string(&path).unwrap());
}
