use nexus_core::syntax::{
    literal_value, put_import, read_module, slice_between, DynamicImport, ImportSpecifier, ModuleItem,
};

#[test]
fn reads_every_statement_kind() {
    let source = "import X, { a as b } from './m';\nimport * as N from \"./n\";\nimport './side';\nexport const one = 1, { two, three: [four] } = obj;\nexport function f() {}\nexport class C {}\nexport default 42;\nexport { one as uno, lazy };\nexport { q } from './q';\nexport * from './star';\nconst lazy = import('./lazy');\nconst other = import(name);\n";
    let syntax = read_module(source, "/src/app.js");
    assert_eq!(syntax.errors, 0);
    assert_eq!(syntax.items.len(), 10);

    match &syntax.items[0] {
        ModuleItem::Import { start, end, source: from, specifiers } => {
            assert_eq!((*start, *end), (0, 32));
            assert_eq!(from, "./m");
            assert_eq!(specifiers.len(), 2);
            assert!(matches!(&specifiers[0], ImportSpecifier::Default { local } if local == "X"));
            assert!(matches!(&specifiers[1], ImportSpecifier::Named { imported, local } if imported == "a" && local == "b"));
        }
        other => panic!("unexpected item {:?}", other),
    }
    match &syntax.items[1] {
        ModuleItem::Import { source: from, specifiers, .. } => {
            assert_eq!(from, "./n");
            assert!(matches!(&specifiers[0], ImportSpecifier::Namespace { local } if local == "N"));
        }
        other => panic!("unexpected item {:?}", other),
    }
    match &syntax.items[2] {
        ModuleItem::Import { source: from, specifiers, .. } => {
            assert_eq!(from, "./side");
            assert!(specifiers.is_empty());
        }
        other => panic!("unexpected item {:?}", other),
    }
    match &syntax.items[3] {
        ModuleItem::ExportDeclaration { start, declaration_start, names, .. } => {
            assert_eq!(*declaration_start, *start + 7);
            assert_eq!(names, &vec!["one".to_string(), "two".to_string(), "four".to_string()]);
        }
        other => panic!("unexpected item {:?}", other),
    }
    match &syntax.items[4] {
        ModuleItem::ExportDeclaration { names, .. } => assert_eq!(names, &vec!["f".to_string()]),
        other => panic!("unexpected item {:?}", other),
    }
    match &syntax.items[5] {
        ModuleItem::ExportDeclaration { names, .. } => assert_eq!(names, &vec!["C".to_string()]),
        other => panic!("unexpected item {:?}", other),
    }
    match &syntax.items[6] {
        ModuleItem::ExportDefault { start, end, value_start } => {
            assert_eq!(&source[*start..*value_start], "export default ");
            assert_eq!(&source[*value_start..*end], "42;");
        }
        other => panic!("unexpected item {:?}", other),
    }
    match &syntax.items[7] {
        ModuleItem::ExportList { entries: specifiers, from, .. } => {
            assert!(from.is_none());
            assert_eq!(specifiers.len(), 2);
            assert_eq!((specifiers[0].local.as_str(), specifiers[0].exported.as_str()), ("one", "uno"));
            assert_eq!((specifiers[1].local.as_str(), specifiers[1].exported.as_str()), ("lazy", "lazy"));
        }
        other => panic!("unexpected item {:?}", other),
    }
    match &syntax.items[8] {
        ModuleItem::ExportList { entries: specifiers, from, .. } => {
            assert_eq!(from.as_deref(), Some("./q"));
            assert_eq!(specifiers.len(), 1);
        }
        other => panic!("unexpected item {:?}", other),
    }
    match &syntax.items[9] {
        ModuleItem::ExportAll { source: from, .. } => assert_eq!(from, "./star"),
        other => panic!("unexpected item {:?}", other),
    }

    assert_eq!(syntax.dynamic_imports.len(), 2);
    let first = &syntax.dynamic_imports[0];
    assert_eq!(&source[first.start..first.end], "import('./lazy')");
    assert_eq!(first.source.as_deref(), Some("./lazy"));
    let second = &syntax.dynamic_imports[1];
    assert_eq!(&source[second.start..second.end], "import(name)");
    assert!(second.source.is_none());
}

#[test]
fn syntax_errors_are_counted() {
    let syntax = read_module("import { from './broken'", "/src/broken.js");
    assert!(syntax.errors > 0);
    let fine = read_module("const x = 1;", "/src/fine.js");
    assert_eq!(fine.errors, 0);
    assert!(fine.items.is_empty());
    assert!(fine.dynamic_imports.is_empty());
}

#[test]
fn dialect_follows_the_extension() {
    let typed = "export const n: number = 1;";
    assert_eq!(read_module(typed, "/src/a.ts").errors, 0);
    assert!(read_module(typed, "/src/a.js").errors > 0);
    let markup = "export default () => <h1>Hello</h1>;";
    assert_eq!(read_module(markup, "/src/a.tsx").errors, 0);
    assert!(read_module(markup, "/src/a.ts").errors > 0);
    assert_eq!(read_module("export default 1;", "/src/data.json").errors, 0);
}

#[test]
fn string_literal_values() {
    let source = "import('./a'); import(\"b\"); import('c\\'d'); import(x); é'é'";
    let path = "/src/a.js";
    assert_eq!(literal_value(source, path, 7, 12).as_deref(), Some("./a"));
    assert_eq!(literal_value(source, path, 22, 25).as_deref(), Some("b"));
    assert_eq!(literal_value(source, path, 35, 41).as_deref(), Some("c'd"));
    assert_eq!(literal_value(source, path, 51, 52), None);
    assert_eq!(literal_value(source, path, 7, 11), None);
    assert_eq!(literal_value(source, path, 7, 500), None);
    assert_eq!(literal_value(source, path, 12, 7), None);
    let at = source.find("'é'").unwrap();
    assert_eq!(literal_value(source, path, at, at + 4).as_deref(), Some("é"));
    assert_eq!(literal_value(source, path, at - 1, at + 4), None);
    assert_eq!(literal_value("''", path, 0, 2).as_deref(), Some(""));
}

#[test]
fn slices_go_by_character_boundaries() {
    let source = "aé'b'";
    assert_eq!(slice_between(source, 0, 0), Some(""));
    assert_eq!(slice_between(source, 0, 1), Some("a"));
    assert_eq!(slice_between(source, 1, 3), Some("é"));
    assert_eq!(slice_between(source, 3, 6), Some("'b'"));
    assert_eq!(slice_between(source, 6, 6), Some(""));
    assert_eq!(slice_between(source, 1, 2), None);
    assert_eq!(slice_between(source, 2, 3), None);
    assert_eq!(slice_between(source, 3, 7), None);
    assert_eq!(slice_between(source, 4, 3), None);
}

#[test]
fn an_expression_made_of_literals_is_no_literal() {
    let path = "/src/a.js";
    assert_eq!(literal_value("'a' + 'b'", path, 0, 9), None);
    assert_eq!(literal_value("\"a\" + \"b\"", path, 0, 9), None);
    assert_eq!(literal_value("'./pages/' + name + '.js'", path, 0, 25), None);
    assert_eq!(literal_value("'a\nb'", path, 0, 5), None);
    assert_eq!(literal_value("`a`", path, 0, 3), None);
    assert_eq!(literal_value("('a')", path, 0, 5), None);
    assert_eq!(literal_value("name", path, 0, 4), None);
    assert_eq!(literal_value("'a\\'b'", path, 0, 6).as_deref(), Some("a'b"));
    assert_eq!(literal_value("'a\\'", path, 0, 4), None);
    assert_eq!(literal_value("'a\"b'", path, 0, 5).as_deref(), Some("a\"b"));
    assert_eq!(literal_value("\"it's\"", path, 0, 6).as_deref(), Some("it's"));

    let source = "const a = import('./pages/' + name + '.js');\nconst b = import('x' + 'y');\nconst c = import('./real');\n";
    let syntax = read_module(source, "/src/a.js");
    let found: Vec<Option<&str>> = syntax.dynamic_imports.iter().map(|d| d.source.as_deref()).collect();
    assert_eq!(found, vec![None, None, Some("./real")]);
}

#[test]
fn escapes_in_string_literals_are_the_parsers() {
    let path = "/src/a.js";
    for (text, value) in [
        ("'a\\nb\\tc'", "a\nb\tc"),
        ("'\\x2e/m'", "./m"),
        ("'\\u002e/m'", "./m"),
        ("'\\u{2e}/m'", "./m"),
        ("'a\\\nb'", "ab"),
        ("'\\q\\/'", "q/"),
        ("'\\0'", "\0"),
    ] {
        assert_eq!(literal_value(text, path, 0, text.len()).as_deref(), Some(value), "for {:?}", text);
    }
    let source = "import('\\x2e/m'); import('./a\\'b');";
    let syntax = read_module(source, path);
    let found: Vec<Option<&str>> = syntax.dynamic_imports.iter().map(|d| d.source.as_deref()).collect();
    assert_eq!(found, vec![Some("./m"), Some("./a'b")]);
}

#[test]
fn an_import_that_the_parser_read_twice_is_held_once() {
    for source in [
        "(x = import('./m'));\nexport const one = 1;\n",
        "({ a } = await import('./m'));\nexport const one = 1;\n",
        "([a] = [import('./m')]);\nexport const one = 1;\n",
    ] {
        let syntax = read_module(source, "/src/a.js");
        assert_eq!(syntax.errors, 0, "for {:?}", source);
        let found: Vec<(usize, Option<&str>)> =
            syntax.dynamic_imports.iter().map(|d| (d.start, d.source.as_deref())).collect();
        assert_eq!(found, vec![(source.find("import(").unwrap(), Some("./m"))], "for {:?}", source);
    }
    let source = "(a = import('./m'), b = import('./n'));\nconst c = import(import('./o'));\n";
    let syntax = read_module(source, "/src/a.js");
    let found: Vec<(usize, usize, Option<&str>)> =
        syntax.dynamic_imports.iter().map(|d| (d.start, d.end, d.source.as_deref())).collect();
    let outer = source.find("import(import").unwrap();
    assert_eq!(
        found,
        vec![
            (5, 18, Some("./m")),
            (24, 37, Some("./n")),
            (outer, outer + 21, None),
            (outer + 7, outer + 20, Some("./o")),
        ]
    );
}

#[test]
fn imports_are_put_in_text_order_and_once() {
    let mut list: Vec<DynamicImport> = Vec::new();
    for (start, name) in [(20, "c"), (5, "a"), (20, "again"), (12, "b"), (5, "again"), (30, "d"), (12, "again")] {
        put_import(&mut list, DynamicImport { start, end: start + 3, source: Some(name.to_string()) });
    }
    let found: Vec<(usize, &str)> = list.iter().map(|d| (d.start, d.source.as_deref().unwrap())).collect();
    assert_eq!(found, vec![(5, "a"), (12, "b"), (20, "c"), (30, "d")]);
}
