use nexus_core::analyze::{analyze_module, analyze_syntax, extract_dependencies, extract_dependencies_detailed};
use nexus_core::graph::ImportKind;
use nexus_core::syntax::{DynamicImport, ExportSpecifier, ImportSpecifier, ModuleItem, ModuleSyntax};

#[test]
fn test_import_parsing() {
    let source = r#"
        import { foo } from "./utils.js";
        import * as bar from '../lib/bar';
        import "side-effect";
        export { baz } from "./baz.ts";
        const x = 1;
    "#;

    let deps = extract_dependencies(source, "test.tsx");

    assert!(deps.contains(&"./utils.js".to_string()));
    assert!(deps.contains(&"../lib/bar".to_string()));
    assert!(deps.contains(&"side-effect".to_string()));
    assert!(deps.contains(&"./baz.ts".to_string()));
    assert_eq!(deps.len(), 4);
}

#[test]
fn dependencies_tell_dynamic_imports() {
    let source = "import a from './a'; const b = import('./b'); import(c);";
    let deps = extract_dependencies_detailed(source, "/src/x.js");
    assert_eq!(deps, vec![("./a".to_string(), false), ("./b".to_string(), true)]);
}

#[test]
fn analyzer_reads_exports() {
    let source = "export const X = 1, Y = 2;\nexport function f() {}\nexport class Z {}\nexport const { p, q: [r] } = o;\nconst a = 1, b = 2;\nexport { a, b as c };\nexport default f;\n";
    let (exports, imports) = analyze_module(source, "/src/m.js");
    assert_eq!(exports, vec!["X", "Y", "f", "Z", "p", "r", "a", "c", "default"]);
    assert!(imports.is_empty());
}

#[test]
fn analyzer_reads_every_import_form() {
    let source = "import X from './d';\nimport * as N from './n';\nimport { a as b, c } from './named';\nimport './bare';\nexport * from './star';\nexport { e as f } from './re';\nconst lazy = import('./lazy');\n";
    let (exports, imports) = analyze_module(source, "/src/m.js");
    assert_eq!(exports, vec!["f"]);
    let seen: Vec<(&str, ImportKind, Vec<&str>, bool, bool)> = imports
        .iter()
        .map(|i| {
            (
                i.source.as_str(),
                i.kind,
                i.specifiers.iter().map(|s| s.as_str()).collect(),
                i.is_dynamic,
                i.is_star,
            )
        })
        .collect();
    assert_eq!(
        seen,
        vec![
            ("./d", ImportKind::StaticDefault, vec!["default"], false, false),
            ("./n", ImportKind::StaticNamespace, vec![], false, true),
            ("./named", ImportKind::StaticNamed, vec!["a", "c"], false, false),
            ("./bare", ImportKind::StaticBare, vec![], false, false),
            ("./star", ImportKind::ReExportStar, vec![], false, true),
            ("./re", ImportKind::ReExportNamed, vec!["e"], false, false),
            ("./lazy", ImportKind::Dynamic, vec![], true, false),
        ]
    );
}

#[test]
fn default_and_named_bindings_are_separate_edges() {
    let (_, imports) = analyze_module("import React, { useState, useRef } from 'react';", "/src/m.js");
    assert_eq!(imports.len(), 2);
    assert_eq!(imports[0].kind, ImportKind::StaticDefault);
    assert_eq!(imports[0].specifiers, vec!["default"]);
    assert_eq!(imports[1].kind, ImportKind::StaticNamed);
    assert_eq!(imports[1].specifiers, vec!["useState", "useRef"]);
    assert_eq!(imports[1].source, "react");

    let (_, both) = analyze_module("import D, * as All from 'm';", "/src/m.js");
    let kinds: Vec<ImportKind> = both.iter().map(|i| i.kind).collect();
    assert_eq!(kinds, vec![ImportKind::StaticDefault, ImportKind::StaticNamespace]);
}

#[test]
fn analyzer_gives_what_could_be_read_of_a_broken_file() {
    let (exports, imports) = analyze_module("import a from './a';\nexport const x = ;\n", "/src/m.js");
    assert!(exports.len() <= 1);
    assert!(imports.len() <= 1);
    let (none, nothing) = analyze_module("", "/src/empty.js");
    assert!(none.is_empty());
    assert!(nothing.is_empty());
}

#[test]
fn analysis_of_given_syntax() {
    let syntax = ModuleSyntax {
        items: vec![
            ModuleItem::Import {
                start: 0,
                end: 10,
                source: "./m".to_string(),
                specifiers: vec![
                    ImportSpecifier::Named { imported: "a".to_string(), local: "b".to_string() },
                    ImportSpecifier::Default { local: "D".to_string() },
                ],
            },
            ModuleItem::ExportList {
                start: 11,
                end: 20,
                entries: vec![ExportSpecifier { local: "b".to_string(), exported: "bee".to_string() }],
                from: None,
            },
            ModuleItem::ExportDeclaration {
                start: 21,
                end: 30,
                declaration_start: 28,
                names: vec!["x".to_string(), "y".to_string()],
            },
            ModuleItem::ExportDefault { start: 31, end: 40, value_start: 36 },
            ModuleItem::ExportAll { start: 41, end: 50, source: "./s".to_string() },
        ],
        dynamic_imports: vec![
            DynamicImport { start: 60, end: 70, source: None },
            DynamicImport { start: 80, end: 90, source: Some("./late".to_string()) },
        ],
        errors: 0,
    };
    let (exports, imports) = analyze_syntax(&syntax);
    assert_eq!(exports, vec!["bee", "x", "y", "default"]);
    let seen: Vec<(&str, ImportKind)> = imports.iter().map(|i| (i.source.as_str(), i.kind)).collect();
    assert_eq!(
        seen,
        vec![
            ("./m", ImportKind::StaticDefault),
            ("./m", ImportKind::StaticNamed),
            ("./s", ImportKind::ReExportStar),
            ("./late", ImportKind::Dynamic),
        ]
    );
    assert_eq!(imports[1].specifiers, vec!["a"]);
}

#[test]
fn edges_come_in_the_order_of_the_text() {
    let source = "const first = import('./first');\nimport second from './second';\nconst third = import('./third');\nexport * from './fourth';\nconst none = import('a' + 'b');\nexport { x } from './fifth';\n";
    let (_, edges) = analyze_module(source, "/src/a.js");
    let shape: Vec<(&str, ImportKind)> = edges.iter().map(|e| (e.source.as_str(), e.kind)).collect();
    assert_eq!(
        shape,
        vec![
            ("./first", ImportKind::Dynamic),
            ("./second", ImportKind::StaticDefault),
            ("./third", ImportKind::Dynamic),
            ("./fourth", ImportKind::ReExportStar),
            ("./fifth", ImportKind::ReExportNamed),
        ]
    );
    assert_eq!(
        extract_dependencies(source, "/src/a.js"),
        vec!["./first", "./second", "./third", "./fourth", "./fifth"]
    );
}

#[test]
fn analysis_of_given_syntax_merges_by_position() {
    let syntax = ModuleSyntax {
        items: vec![
            ModuleItem::ExportAll { start: 10, end: 20, source: "./b".to_string() },
            ModuleItem::ExportAll { start: 40, end: 50, source: "./d".to_string() },
        ],
        dynamic_imports: vec![
            DynamicImport { start: 0, end: 5, source: Some("./a".to_string()) },
            DynamicImport { start: 25, end: 30, source: None },
            DynamicImport { start: 40, end: 45, source: Some("./e".to_string()) },
            DynamicImport { start: 60, end: 65, source: Some("./f".to_string()) },
        ],
        errors: 0,
    };
    let (_, edges) = analyze_syntax(&syntax);
    let sources: Vec<&str> = edges.iter().map(|e| e.source.as_str()).collect();
    assert_eq!(sources, vec!["./a", "./b", "./d", "./e", "./f"]);
}
