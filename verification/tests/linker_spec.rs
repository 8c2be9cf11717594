use nexus_core::cjs::{transform_cjs, transform_cjs_syntax};
use nexus_core::graph::ImportMap;
use nexus_core::runtime::NEXUS_RUNTIME_JS;
use nexus_core::syntax::{DynamicImport, ModuleItem, ModuleSyntax};

#[test]
fn test_runtime_bootstrap_presence() {
    assert!(NEXUS_RUNTIME_JS.contains("global.__nexus_register__ = function"));
    assert!(NEXUS_RUNTIME_JS.contains("global.__nexus_require__ = function"));

    assert!(!NEXUS_RUNTIME_JS.contains("delete global.__nexus_cache__[id];"));

    assert!(NEXUS_RUNTIME_JS.contains("hot: {"));
    assert!(NEXUS_RUNTIME_JS.contains("accept: function"));
    assert!(NEXUS_RUNTIME_JS.contains("dispose: function"));

    assert!(NEXUS_RUNTIME_JS.contains("id: id,"));
}

#[test]
fn runtime_names_its_globals() {
    for name in [
        "__nexus_modules__",
        "__nexus_cache__",
        "__nexus_chunk_map__",
        "__nexus_register__",
        "__nexus_require__",
        "__nexus_import__",
    ] {
        assert!(NEXUS_RUNTIME_JS.contains(name));
    }
}

#[test]
fn test_cjs_transform_simple() {
    let source = "import 'pkg'; export default 42;";

    let mut imports = ImportMap::new();
    imports.insert("pkg", "/node_modules/pkg/index.js");

    let result = transform_cjs(source, "test.js", &imports);
    assert!(result.contains("require(\"/node_modules/pkg/index.js\");"));
    assert!(result.contains("exports.default = 42;"));
}

#[test]
fn test_cjs_transform_imports() {
    let source = "import x from './utils'; import { y } from './other';";
    let mut imports = ImportMap::new();
    imports.insert("./utils", "/src/utils.js");
    imports.insert("./other", "/src/other.js");

    let result = transform_cjs(source, "test.js", &imports);

    assert!(result.contains("const x = require(\"/src/utils.js\").default;"));
    assert!(result.contains("const y = require(\"/src/other.js\").y;"));
}

#[test]
fn test_cjs_transform_named_export() {
    let source = "export { foo };";
    let imports = ImportMap::new();
    let result = transform_cjs(source, "test.js", &imports);
    assert!(result.contains(
        "Object.defineProperty(exports, \"foo\", { enumerable: true, get: function() { return foo; } });"
    ));
}

#[test]
fn cjs_transform_is_exact() {
    let mut imports = ImportMap::new();
    imports.insert("./m", "/src/m.ts");
    imports.insert("./lazy", "/src/lazy.ts");
    let cases = [
        ("import './m';", "require(\"/src/m.ts\");"),
        ("import X from './m';", "const X = require(\"/src/m.ts\").default;"),
        ("import * as N from './m';", "const N = require(\"/src/m.ts\");"),
        ("import { a as b } from './m';", "const b = require(\"/src/m.ts\").a;"),
        (
            "import X, { a, b as c } from './m';",
            "const X = require(\"/src/m.ts\").default;\nconst a = require(\"/src/m.ts\").a;\nconst c = require(\"/src/m.ts\").b;",
        ),
        ("import q from './unknown';", "const q = require(\"./unknown\").default;"),
        ("export default 1 + 2;", "exports.default = 1 + 2;"),
        ("export default function F() {}", "exports.default = function F() {}"),
        ("export default class C {}", "exports.default = class C {}"),
        (
            "export const x = 1;",
            "const x = 1;\nObject.defineProperty(exports, \"x\", { enumerable: true, get: function() { return x; } });",
        ),
        (
            "export function f() {}\nf();",
            "function f() {}\nObject.defineProperty(exports, \"f\", { enumerable: true, get: function() { return f; } });\nf();",
        ),
        (
            "const a = 1, b = 2;\nexport { a, b as c };",
            "const a = 1, b = 2;\nObject.defineProperty(exports, \"a\", { enumerable: true, get: function() { return a; } });\nObject.defineProperty(exports, \"c\", { enumerable: true, get: function() { return b; } });",
        ),
        (
            "export { a as z } from './m';",
            "Object.defineProperty(exports, \"z\", { enumerable: true, get: function() { return require(\"/src/m.ts\").a; } });",
        ),
        ("const p = import('./lazy');", "const p = __nexus_import__(\"/src/lazy.ts\");"),
        ("const p = import(\"./other\");", "const p = __nexus_import__(\"./other\");"),
        ("const p = import(name);", "const p = import(name);"),
        ("// héllo\nimport 'pkg'; /* ünï */ f('é');", "// héllo\nrequire(\"pkg\"); /* ünï */ f('é');"),
        ("let x = ;", "let x = ;"),
    ];
    for (source, expected) in cases {
        assert_eq!(transform_cjs(source, "/src/case.js", &imports), expected, "for {}", source);
    }
}

#[test]
fn adjacent_statements_are_lowered_apart() {
    let imports = ImportMap::new();
    let out = transform_cjs("export const a=1;export const b=import('./x');", "/src/t.js", &imports);
    assert_eq!(
        out,
        "const a=1;\nObject.defineProperty(exports, \"a\", { enumerable: true, get: function() { return a; } });const b=__nexus_import__(\"./x\");\nObject.defineProperty(exports, \"b\", { enumerable: true, get: function() { return b; } });"
    );
}

#[test]
fn lowering_given_syntax() {
    let source = "export default 42;";
    let imports = ImportMap::new();
    let fits = ModuleSyntax {
        items: vec![ModuleItem::ExportDefault { start: 0, end: 18, value_start: 15 }],
        dynamic_imports: vec![],
        errors: 0,
    };
    assert_eq!(transform_cjs_syntax(source, &fits, &imports), "exports.default = 42;");
    let broken = ModuleSyntax { errors: 1, ..fits.clone() };
    assert_eq!(transform_cjs_syntax(source, &broken, &imports), source);
    let beyond = ModuleSyntax {
        items: vec![ModuleItem::ExportDefault { start: 0, end: 18, value_start: 40 }],
        dynamic_imports: vec![],
        errors: 0,
    };
    assert_eq!(transform_cjs_syntax(source, &beyond, &imports), source);
    let overlapping = ModuleSyntax {
        items: vec![ModuleItem::ExportDefault { start: 0, end: 18, value_start: 15 }],
        dynamic_imports: vec![DynamicImport { start: 7, end: 18, source: Some("x".to_string()) }],
        errors: 0,
    };
    assert_eq!(transform_cjs_syntax(source, &overlapping, &imports), source);
}

#[test]
fn import_map_holds_the_last_path() {
    let mut imports = ImportMap::new();
    assert!(imports.get("a").is_none());
    imports.insert("a", "/one");
    imports.insert("b", "/two");
    imports.insert("a", "/three");
    assert_eq!(imports.get("a").map(|s| s.as_str()), Some("/three"));
    assert_eq!(imports.get("b").map(|s| s.as_str()), Some("/two"));
    assert!(imports.get("c").is_none());
}

#[test]
fn dynamic_import_of_an_expression_is_left_as_it_is() {
    let mut imports = ImportMap::new();
    imports.insert("./real", "/src/real.js");
    let source = "const a = import('./pages/' + name + '.js');\nconst b = import('x' + 'y');\nconst c = import('./real');\n";
    assert_eq!(
        transform_cjs(source, "/src/a.js", &imports),
        "const a = import('./pages/' + name + '.js');\nconst b = import('x' + 'y');\nconst c = __nexus_import__(\"/src/real.js\");\n"
    );
}

#[test]
fn import_inside_a_parenthesised_assignment_is_lowered() {
    let mut imports = ImportMap::new();
    imports.insert("./m", "/src/m.js");
    imports.insert("./lib", "/src/lib.js");
    let source = "import { f } from './lib';\nlet x;\n(x = import('./m'));\nexport const one = f(1);\n";
    assert_eq!(
        transform_cjs(source, "/src/a.js", &imports),
        "const f = require(\"/src/lib.js\").f;\nlet x;\n(x = __nexus_import__(\"/src/m.js\"));\nconst one = f(1);\nObject.defineProperty(exports, \"one\", { enumerable: true, get: function() { return one; } });\n"
    );
    let source = "let a;\n({ a } = await import('./m'));\nexport default a;\n";
    assert_eq!(
        transform_cjs(source, "/src/a.js", &imports),
        "let a;\n({ a } = await __nexus_import__(\"/src/m.js\"));\nexports.default = a;\n"
    );
}

#[test]
fn nested_dynamic_imports() {
    let mut imports = ImportMap::new();
    imports.insert("./a", "/src/a.js");
    imports.insert("./b", "/src/b.js");
    assert_eq!(
        transform_cjs("import(import('./a'));", "/src/x.js", &imports),
        "import(__nexus_import__(\"/src/a.js\"));"
    );
    let source = "import('./a', { x: import('./b') }); import('./b');";
    let syntax = ModuleSyntax {
        items: Vec::new(),
        dynamic_imports: vec![
            DynamicImport { start: 0, end: 35, source: Some("./a".to_string()) },
            DynamicImport { start: 19, end: 32, source: Some("./b".to_string()) },
            DynamicImport { start: 37, end: 50, source: Some("./b".to_string()) },
        ],
        errors: 0,
    };
    assert_eq!(
        transform_cjs_syntax(source, &syntax, &imports),
        "__nexus_import__(\"/src/a.js\"); __nexus_import__(\"/src/b.js\");"
    );
}
