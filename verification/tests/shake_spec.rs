use nexus_core::names::NameSet;
use nexus_core::rewrite::{splice, Replacement};
use nexus_core::shake::{transform_tree_shake, transform_tree_shake_syntax};
use nexus_core::syntax::{ExportSpecifier, ModuleItem, ModuleSyntax};

fn used(names: &[&str]) -> NameSet {
    let mut set = NameSet::new();
    for name in names {
        set.insert(name);
    }
    set
}

#[test]
fn unused_exports_are_erased() {
    let source = "\nexport function used() { return \"used\"; }\nexport function unused() { return \"unused\"; }\n";
    let out = transform_tree_shake(source, "/src/utils.ts", &used(&["used"]));
    assert_eq!(out, "\nexport function used() { return \"used\"; }\n\n");
    assert!(out.contains("function used()"));
    assert!(!out.contains("function unused()"));

    let constants = "\nexport const ConstUsed = 1;\nexport const ConstUnused = 2;\n";
    let out = transform_tree_shake(constants, "/src/constants.ts", &used(&["ConstUsed"]));
    assert!(out.contains("const ConstUsed = 1"));
    assert!(!out.contains("const ConstUnused = 2"));
}

#[test]
fn shaker_is_exact() {
    let cases: [(&str, &[&str], &str); 12] = [
        ("export default 1;", &[], ""),
        ("export default 1;", &["default"], "export default 1;"),
        ("export const { a, b } = o;", &["b"], "export const { a, b } = o;"),
        ("export const { a, b } = o;", &["c"], ""),
        ("export class K {}\nside();", &[], "\nside();"),
        ("const a = 1, b = 2;\nexport { a, b as c };", &["a", "c"], "const a = 1, b = 2;\nexport { a, b as c };"),
        ("const a = 1, b = 2;\nexport { a, b as c };", &["c"], "const a = 1, b = 2;\nexport { b as c };"),
        ("const a = 1, b = 2;\nexport { a, b as c };", &["b"], "const a = 1, b = 2;\n"),
        ("export {a,b,c} from './m'", &["a", "c"], "export { a, c } from \"./m\";"),
        ("export * from './m';", &[], "export * from './m';"),
        ("import x from './x';\nconsole.log(x);", &[], "import x from './x';\nconsole.log(x);"),
        ("export const = ;", &[], "export const = ;"),
    ];
    for (source, names, expected) in cases {
        assert_eq!(transform_tree_shake(source, "/src/case.js", &used(names)), expected, "for {}", source);
    }
}

#[test]
fn shaking_twice_changes_nothing_more() {
    let sources = [
        "export const a = 1;\nexport function b() { return a; }\nexport default b;\nconst c = 3;\nexport { c, c as d };\nexport { e as f, g } from './m';\nside();\n",
        "export default class {}\nexport const x = 1, y = 2;\n",
        "import z from './z';\nexport { z };\n",
    ];
    let sets: [&[&str]; 5] = [&[], &["a"], &["default", "d"], &["f", "g", "c"], &["x", "z"]];
    for source in sources {
        for names in sets {
            let set = used(names);
            let once = transform_tree_shake(source, "/src/m.js", &set);
            let again = transform_tree_shake(source, "/src/m.js", &set);
            assert_eq!(once, again);
            let twice = transform_tree_shake(&once, "/src/m.js", &set);
            assert_eq!(twice, once);
        }
    }
}

#[test]
fn shaking_given_syntax() {
    let source = "export { a, b as c };";
    let list = |errors: usize| ModuleSyntax {
        items: vec![ModuleItem::ExportList {
            start: 0,
            end: 21,
            entries: vec![
                ExportSpecifier { local: "a".to_string(), exported: "a".to_string() },
                ExportSpecifier { local: "b".to_string(), exported: "c".to_string() },
            ],
            from: None,
        }],
        dynamic_imports: vec![],
        errors,
    };
    assert_eq!(transform_tree_shake_syntax(source, &list(0), &used(&["c"])), "export { b as c };");
    assert_eq!(transform_tree_shake_syntax(source, &list(0), &used(&[])), "");
    assert_eq!(transform_tree_shake_syntax(source, &list(2), &used(&[])), source);
    assert_eq!(transform_tree_shake_syntax("short", &list(0), &used(&[])), "short");
}

#[test]
fn splice_replaces_spans() {
    let rep = |start: usize, end: usize, text: &str| Replacement { start, end, text: text.to_string() };
    assert_eq!(splice("hello world", &vec![]).as_deref(), Some("hello world"));
    assert_eq!(
        splice("hello world", &vec![rep(0, 5, "bye"), rep(5, 5, ","), rep(6, 11, "all")]).as_deref(),
        Some("bye, all")
    );
    assert_eq!(splice("abc", &vec![rep(3, 3, "d")]).as_deref(), Some("abcd"));
    assert_eq!(splice("abc", &vec![rep(0, 0, "x"), rep(0, 3, "")]).as_deref(), Some("x"));
    assert_eq!(splice("abc", &vec![rep(1, 2, "x"), rep(0, 1, "y")]), None);
    assert_eq!(splice("abc", &vec![rep(0, 2, "x"), rep(1, 3, "y")]), None);
    assert_eq!(splice("abc", &vec![rep(2, 1, "x")]), None);
    assert_eq!(splice("abc", &vec![rep(2, 4, "x")]), None);
    assert_eq!(splice("aéb", &vec![rep(1, 3, "e")]).as_deref(), Some("aeb"));
    assert_eq!(splice("aéb", &vec![rep(1, 2, "e")]), None);
    assert_eq!(splice("aéb", &vec![rep(2, 3, "e")]), None);
    assert_eq!(splice("aéb", &vec![rep(3, 4, "ü")]).as_deref(), Some("aéü"));
}

#[test]
fn name_set_keeps_first_order() {
    let mut set = NameSet::new();
    assert!(set.insert("b"));
    assert!(set.insert("a"));
    assert!(!set.insert("b"));
    set.insert_all(&vec!["c".to_string(), "a".to_string()]);
    assert!(set.contains("a") && set.contains("b") && set.contains("c"));
    assert!(!set.contains("d"));
    assert_eq!(set.len(), 3);
    assert_eq!(set.names(), &vec!["b".to_string(), "a".to_string(), "c".to_string()]);
}
