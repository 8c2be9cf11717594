use nexus_core::analyze::analyze_module;
use nexus_core::bundler::{build, dev_chunk, link_imports, HMR_CLIENT, REFRESH_SETUP};
use nexus_core::compiler::{compile, compile_asset, compile_css};
use nexus_core::emit::{
    bootstrap_call, chunk_map_statement, default_page, emit_styles, inject_tags, register_module, BUNDLE_TAGS,
};
use nexus_core::graph::{ImportInfo, ImportKind, ModuleGraph, ModuleId};
use nexus_core::crawl::Crawl;
use nexus_core::request::{is_analyzed, pipeline_for, Pipeline};
use nexus_core::runtime::NEXUS_RUNTIME_JS;

fn crawl(files: &[(&str, &[u8])], entry: &str) -> Crawl {
    let resolve = |from: &str, specifier: &str| -> Option<String> {
        let dir = &from[..from.rfind('/').unwrap()];
        let base = if let Some(rest) = specifier.strip_prefix("./") {
            format!("{}/{}", dir, rest)
        } else {
            format!("/node_modules/{}/index.js", specifier)
        };
        for ext in ["", ".ts", ".tsx", ".js"] {
            let candidate = format!("{}{}", base, ext);
            if files.iter().any(|(path, _)| *path == candidate) {
                return Some(candidate);
            }
        }
        None
    };
    let mut project = Crawl::start(entry);
    let mut queue = vec![project.entry()];
    while !queue.is_empty() {
        let id = queue.remove(0);
        let path = project.graph().module(id).unwrap().path.clone();
        let bytes = files.iter().find(|(p, _)| *p == path).unwrap().1;
        let text = String::from_utf8_lossy(bytes).to_string();
        let compiled = match pipeline_for(&path) {
            Pipeline::Css => compile_css(&text, &path, true),
            Pipeline::Asset => compile_asset(bytes, &path, true),
            _ => compile(&text, &path, true),
        };
        let code = compiled.code.clone();
        project.compiled(id, compiled);
        project.located(id, &format!("/project{}", path));
        if is_analyzed(&path) {
            let (exports, sites) = analyze_module(&code, &path);
            let targets: Vec<Option<String>> = sites.iter().map(|s| resolve(&path, &s.source)).collect();
            queue.extend(project.analyzed(id, exports, sites, &targets));
        }
    }
    project
}

#[test]
fn tree_shaking_scenario() {
    let files: [(&str, &[u8]); 3] = [
        ("/src/index.tsx", b"\nimport { used } from './utils';\nimport { ConstUsed } from './constants';\n\nuse(used);\nuse(ConstUsed);\n\nfunction use(x) { console.log(x); }\n"),
        ("/src/utils.ts", b"\nexport function used() { return \"used\"; }\nexport function unused() { return \"unused\"; }\n"),
        ("/src/constants.ts", b"\nexport const ConstUsed = 1;\nexport const ConstUnused = 2;\n"),
    ];
    let project = crawl(&files, "/src/index.tsx");
    let (graph, entry) = (project.graph(), project.entry());
    let bundle = build(graph, entry);
    assert_eq!(bundle.partition.chunks.len(), 1);
    assert_eq!(bundle.partition.chunks[0].name, "main.js");
    let main = &bundle.chunk_files[0];

    assert!(main.contains("function used()"), "Used function missing");
    assert!(main.contains("const ConstUsed = 1"), "Used constant missing");
    assert!(!main.contains("function unused()"), "Unused function PRESENT (Tree shaking failed)");
    assert!(!main.contains("const ConstUnused = 2"), "Unused constant PRESENT (Tree shaking failed)");

    assert!(main.contains("__nexus_register__(\"/src/utils.ts\", function(require, module, exports) {\n// Using: {\"used\"}\n"));
    assert!(main.contains("const { used } = require(\"/src/utils.ts\")") || main.contains("const used = require(\"/src/utils.ts\").used;"));
    assert!(main.ends_with("\n__nexus_require__(\"/src/index.tsx\");\n"));
    assert!(!main.contains("__nexus_chunk_map__"));
    assert!(bundle.vendor_js.starts_with(NEXUS_RUNTIME_JS));
}

#[test]
fn code_splitting_scenario() {
    let files: [(&str, &[u8]); 3] = [
        ("/src/index.tsx", b"\nimport { log } from './utils';\n\nconsole.log(\"Main loaded\");\nlog(\"Sync dep\");\n\nsetTimeout(() => {\n    import('./dynamic').then(mod => {\n        mod.run();\n    });\n}, 100);\n"),
        ("/src/utils.ts", b"export function log(msg: string) { console.log(msg); }"),
        ("/src/dynamic.ts", b"\nimport { log } from './utils';\nexport function run() {\n    log(\"Dynamic loaded!\");\n}\n"),
    ];
    let project = crawl(&files, "/src/index.tsx");
    let bundle = project.bundle();

    let names: Vec<&str> = bundle.partition.chunks.iter().map(|c| c.name.as_str()).collect();
    assert_eq!(names, vec!["main.js", "chunk-src-dynamic.ts.js"]);
    let main = &bundle.chunk_files[0];
    let dynamic = &bundle.chunk_files[1];

    assert!(main.contains("__nexus_register__(\"/src/utils.ts\""));
    assert!(main.contains("__nexus_register__(\"/src/index.tsx\""));
    assert!(!main.contains("__nexus_register__(\"/src/dynamic.ts\""));
    assert!(dynamic.contains("__nexus_register__(\"/src/dynamic.ts\""));
    assert!(!dynamic.contains("__nexus_register__(\"/src/utils.ts\""));
    assert!(main.contains("__nexus_import__(\"/src/dynamic.ts\")"));
    assert!(main.contains("__nexus_chunk_map__"));
    assert!(main.contains("chunk-"));
    assert_eq!(
        bundle.partition.chunk_map,
        vec![("/src/dynamic.ts".to_string(), "/assets/chunk-src-dynamic.ts.js".to_string())]
    );
    assert!(main.contains("\nwindow.__nexus_chunk_map__ = {\"/src/dynamic.ts\":\"/assets/chunk-src-dynamic.ts.js\"};\n"));
    assert!(!dynamic.contains("__nexus_require__(\"/src/index.tsx\")"));
}

#[test]
fn production_build_scenario() {
    let large = vec![0u8; 9000];
    let logo = vec![0u8; 100];
    let files: [(&str, &[u8]); 7] = [
        ("/src/index.tsx", b"\nimport { log } from './utils';\nimport './style.css';\nimport data from './data.json';\nimport logo from './logo.png';\nimport React from 'react';\n\nlog(\"Hello \" + data.foo);\nconsole.log(logo, React);\n\nimport large from './large.png'; console.log(large);"),
        ("/src/utils.ts", b"export function log(msg: string) { console.log(msg); }"),
        ("/src/style.css", b"body { color: red; }"),
        ("/src/data.json", b"{ \"foo\": \"bar\" }"),
        ("/src/logo.png", &logo),
        ("/src/large.png", &large),
        ("/node_modules/react/index.js", b"module.exports = {};"),
    ];
    let project = crawl(&files, "/src/index.tsx");
    let graph = project.graph();
    let bundle = project.bundle();

    assert!(bundle.style_css.contains("color: red"));
    let main_js = &bundle.chunk_files[0];
    assert!(main_js.contains("__nexus_register__"));
    assert!(main_js.contains("Hello"));
    assert!(main_js.contains("data:image/png"));
    assert!(main_js.contains("/assets/large.png"));
    assert!(!main_js.contains("node_modules/react/index.js\", function"));
    assert!(bundle.vendor_js.contains("__nexus_register__(\"/node_modules/react/index.js\""));

    let large_id = graph.find_by_path("/src/large.png").unwrap();
    let asset = graph.module(large_id).unwrap().asset.clone().unwrap();
    assert_eq!(asset.0, "assets/large.png");
    assert_eq!(asset.1.len(), 9000);
    assert_eq!(emit_styles(&graph, &bundle.liveness.live), bundle.style_css);

    let mut placed: Vec<ModuleId> = bundle.partition.vendor.clone();
    for chunk in &bundle.partition.chunks {
        placed.extend(chunk.modules.iter().copied());
    }
    let mut live = bundle.liveness.live.clone();
    placed.sort_by_key(|id| id.0);
    live.sort_by_key(|id| id.0);
    assert_eq!(placed, live);
    for (_, address) in &bundle.partition.chunk_map {
        assert!(bundle.partition.chunks.iter().any(|c| format!("/assets/{}", c.name) == *address));
    }
}

#[test]
fn linking_adds_targets_and_edges() {
    let mut graph = ModuleGraph::new();
    let main = graph.add_module("/src/main.ts", "");
    let known = graph.add_module("/src/known.ts", "");
    let site = |source: &str, kind: ImportKind| ImportInfo {
        source: source.to_string(),
        kind,
        specifiers: vec![],
        is_dynamic: kind == ImportKind::Dynamic,
        is_star: false,
    };
    let sites = vec![
        site("./known", ImportKind::StaticBare),
        site("./new", ImportKind::StaticBare),
        site("./lost", ImportKind::StaticBare),
        site("./lazy", ImportKind::Dynamic),
        site("./main", ImportKind::StaticBare),
        site("./new", ImportKind::Dynamic),
    ];
    let targets = vec![
        Some("/src/known.ts".to_string()),
        Some("/src/new.ts".to_string()),
        None,
        Some("/src/lazy.ts".to_string()),
        Some("/src/main.ts".to_string()),
        Some("/src/new.ts".to_string()),
    ];
    let fresh = link_imports(&mut graph, main, sites, &targets);
    let new = graph.find_by_path("/src/new.ts").unwrap();
    let lazy = graph.find_by_path("/src/lazy.ts").unwrap();
    assert_eq!(fresh, vec![new, lazy]);
    assert_eq!(graph.len(), 4);
    assert_eq!(graph.get_dependencies(main).unwrap(), &vec![known, new, lazy]);
    assert_eq!(graph.sync_deps(main).unwrap(), &vec![known, new]);
    assert_eq!(graph.async_deps(main).unwrap(), &vec![lazy, new]);
    let module = graph.module(main).unwrap();
    assert_eq!(module.import_info.len(), 6);
    assert_eq!(module.imports.get("./new").map(|s| s.as_str()), Some("/src/new.ts"));
    assert!(module.imports.get("./lost").is_none());
    assert_eq!(graph.module(new).unwrap().version, 1);
    assert_eq!(graph.module(new).unwrap().source, "");
}

#[test]
fn development_bundle() {
    let mut graph = ModuleGraph::new();
    let main = graph.add_module("/src/main.js", "");
    let lib = graph.add_module("/src/lib.js", "");
    graph.update_source(main, "import { x } from './lib';\nconsole.log(x);");
    graph.update_source(lib, "export const x = 1;");
    let sites = analyze_module("import { x } from './lib';", "/src/main.js").1;
    link_imports(&mut graph, main, sites, &vec![Some("/src/lib.js".to_string())]);

    assert!(dev_chunk(&graph, "/src/none.js", None).is_none());
    let chunk = dev_chunk(&graph, "/src/main.js", None).unwrap();
    let expected = format!(
        "{}\n{}\n{}{}{}",
        NEXUS_RUNTIME_JS,
        HMR_CLIENT,
        register_module("/src/lib.js", "const x = 1;\nObject.defineProperty(exports, \"x\", { enumerable: true, get: function() { return x; } });"),
        register_module("/src/main.js", "const x = require(\"/src/lib.js\").x;\nconsole.log(x);"),
        bootstrap_call("/src/main.js"),
    );
    assert_eq!(chunk, expected);

    let with_refresh = dev_chunk(&graph, "/src/main.js", Some("exports.rt = 1;")).unwrap();
    assert!(with_refresh.contains("__nexus_register__(\"/__nexus_react_refresh\", function(require, module, exports) {\nexports.rt = 1;\n});\n"));
    assert!(with_refresh.contains(REFRESH_SETUP));
    assert!(with_refresh.find(REFRESH_SETUP).unwrap() < with_refresh.find(HMR_CLIENT).unwrap());
    assert!(chunk.contains("new WebSocket(\"ws://\" + window.location.host + \"/ws\")"));
    assert!(chunk.contains("window.location.reload();"));
}

#[test]
fn emitted_texts() {
    assert_eq!(
        register_module("/src/a.ts", "code();"),
        "__nexus_register__(\"/src/a.ts\", function(require, module, exports) {\ncode();\n});\n"
    );
    assert_eq!(bootstrap_call("/src/main.tsx"), "__nexus_require__(\"/src/main.tsx\");\n");
    assert_eq!(chunk_map_statement(&vec![]), "\nwindow.__nexus_chunk_map__ = {};\n");
    assert_eq!(
        chunk_map_statement(&vec![
            ("/a\"b.ts".to_string(), "/assets/chunk-a.js".to_string()),
            ("/c.ts".to_string(), "/assets/chunk-c.js".to_string()),
        ]),
        "\nwindow.__nexus_chunk_map__ = {\"/a\\\"b.ts\":\"/assets/chunk-a.js\",\"/c.ts\":\"/assets/chunk-c.js\"};\n"
    );
}

#[test]
fn page_gets_the_tags() {
    let page = inject_tags("<html><body><div id=\"root\"></div></body></html>");
    assert_eq!(page, format!("<html><body><div id=\"root\"></div>{}</body></html>", BUNDLE_TAGS));
    assert_eq!(inject_tags("<p>bare</p>"), format!("<p>bare</p>{}", BUNDLE_TAGS));
    assert_eq!(default_page(), format!("<!DOCTYPE html><html><body>{}</body></html>", BUNDLE_TAGS));
    assert!(BUNDLE_TAGS.contains("<link rel=\"stylesheet\" href=\"/assets/style.css\">"));
    assert!(BUNDLE_TAGS.contains("<script src=\"/assets/vendor.js\"></script>"));
    assert!(BUNDLE_TAGS.contains("<script src=\"/assets/main.js\"></script>"));
}

#[test]
fn namespace_import_keeps_every_export() {
    let files: [(&str, &[u8]); 2] = [
        ("/src/index.tsx", b"import * as N from './m'; console.log(N);"),
        ("/src/m.ts", b"export function f(){} export const c = 1;"),
    ];
    let project = crawl(&files, "/src/index.tsx");
    let graph = project.graph();
    let bundle = project.bundle();
    let m = graph.find_by_path("/src/m.ts").unwrap();
    assert!(bundle.liveness.used_exports[m.0].contains("f"));
    assert!(bundle.liveness.used_exports[m.0].contains("c"));
    assert_eq!(bundle.chunk_files.len(), 1);
    let main = &bundle.chunk_files[0];
    let at = main.find("__nexus_register__(\"/src/m.ts\"").unwrap();
    let registration = &main[at..];
    assert!(registration.contains("function f"));
    assert!(registration.contains("const c = 1"));
    assert!(registration.contains("Object.defineProperty(exports, \"f\""));
    assert!(registration.contains("Object.defineProperty(exports, \"c\""));
}

#[test]
fn star_re_export_keeps_every_export_behind_it() {
    let files: [(&str, &[u8]); 3] = [
        ("/src/index.tsx", b"import { x } from './b'; x();"),
        ("/src/b.ts", b"export * from './c';"),
        ("/src/c.ts", b"export function x(){} export function y(){}"),
    ];
    let project = crawl(&files, "/src/index.tsx");
    let graph = project.graph();
    let bundle = project.bundle();
    let c = graph.find_by_path("/src/c.ts").unwrap();
    assert!(bundle.liveness.used_exports[c.0].contains("x"));
    assert!(bundle.liveness.used_exports[c.0].contains("y"));
    let main = &bundle.chunk_files[0];
    let at = main.find("__nexus_register__(\"/src/c.ts\"").unwrap();
    let end = main[at + 1..].find("__nexus_register__(").map(|e| at + 1 + e).unwrap_or(main.len());
    let registration = &main[at..end];
    assert!(registration.contains("function x"));
    assert!(registration.contains("function y"));
}

#[test]
fn every_live_module_is_registered_once() {
    let files: [(&str, &[u8]); 5] = [
        ("/src/index.tsx", b"import { log } from './utils';\nimport React from 'react';\nlog(React);\nimport('./dynamic');\n"),
        ("/src/utils.ts", b"export function log(x) { console.log(x); }"),
        ("/src/dynamic.ts", b"import { log } from './utils';\nimport React from 'react';\nexport function run() { log(React); }\n"),
        ("/node_modules/react/index.js", b"module.exports = {};"),
        ("/src/unreached.ts", b"export const never = 1;"),
    ];
    let project = crawl(&files, "/src/index.tsx");
    let bundle = project.bundle();
    let mut texts: Vec<&String> = vec![&bundle.vendor_js];
    texts.extend(bundle.chunk_files.iter());
    for path in ["/src/index.tsx", "/src/utils.ts", "/src/dynamic.ts", "/node_modules/react/index.js"] {
        let mark = format!("__nexus_register__(\"{}\"", path);
        let counts: Vec<usize> = texts.iter().map(|t| t.matches(&mark).count()).collect();
        assert_eq!(counts.iter().sum::<usize>(), 1, "for {}", path);
        assert_eq!(counts[0] == 1, path.contains("node_modules"), "for {}", path);
    }
    assert!(texts.iter().all(|t| !t.contains("unreached")));
}

#[test]
fn crawl_keeps_the_graph_it_was_given() {
    let mut project = Crawl::start("/src/main.ts");
    let main = project.entry();
    assert_eq!(main, ModuleId(0));
    assert_eq!(project.graph().len(), 1);
    assert_eq!(project.graph().module(main).unwrap().path, "/src/main.ts");

    project.located(main, "/app/node_modules/pkg/main.ts");
    assert!(project.graph().module(main).unwrap().is_vendor);
    project.located(main, "/app/src/main.ts");
    assert!(!project.graph().module(main).unwrap().is_vendor);

    project.compiled(main, compile("import { a } from './a';\nimport('./b');\na();", "/src/main.ts", true));
    assert_eq!(project.graph().get_version(main), Some(2));

    let code = project.graph().module(main).unwrap().source.clone();
    let (exports, sites) = analyze_module(&code, "/src/main.ts");
    let targets = vec![Some("/src/a.ts".to_string()), Some("/src/b.ts".to_string())];
    let fresh = project.analyzed(main, exports, sites, &targets);
    assert_eq!(fresh, vec![ModuleId(1), ModuleId(2)]);
    assert_eq!(project.graph().sync_deps(main), Some(&vec![ModuleId(1)]));
    assert_eq!(project.graph().async_deps(main), Some(&vec![ModuleId(2)]));

    let bundle = project.bundle();
    let names: Vec<&str> = bundle.partition.chunks.iter().map(|c| c.name.as_str()).collect();
    assert_eq!(names, vec!["main.js", "chunk-src-b.ts.js"]);
    assert_eq!(bundle.liveness.live, vec![ModuleId(0), ModuleId(1), ModuleId(2)]);
}
