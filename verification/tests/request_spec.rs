use nexus_core::kernel::parse_module;
use nexus_core::paths::{contains_segment, is_vendor_path};
use nexus_core::request::{
    chunk_entry, dev_pipeline_for, is_analyzed, is_watched, normalize_path_for_graph, pipeline_for, request_file, route_for,
    serve_code, virtual_path, with_source_map_trailer, Pipeline, RequestError, Route, REFRESH_FOOTER,
};
use nexus_core::resolver::{
    check_specifier, condition_names, entry_candidates, extensions, main_fields, resolution_base, resolve_outcome,
    specifier_kind, ResolveError, SpecifierKind,
};
use nexus_core::text::{
    contains_text, ends_with, extension_of, file_name_of, replace_all, starts_with, str_eq, to_decimal,
};

#[test]
fn test_parse_simple_module() {
    let source = "export const foo = 'bar';";
    let result = parse_module("test.js", source);
    assert!(result.is_ok());
}

#[test]
fn parse_module_gives_an_empty_list_or_an_error() {
    let imports = parse_module("a.ts", "import x from './x';\nexport * from './y';\nconst z: number = 1;").unwrap();
    assert!(imports.is_empty());
    let error = parse_module("bad.js", "import {").unwrap_err();
    assert_eq!(error.message, "Parse errors in bad.js");
}

#[test]
fn request_paths_are_checked() {
    assert_eq!(request_file("/src/index.tsx"), Ok("src/index.tsx".to_string()));
    assert_eq!(request_file("src/a.js"), Ok("src/a.js".to_string()));
    assert_eq!(request_file("/a"), Ok("a".to_string()));
    for bad in ["", "/", "/../secret", "/src/../../etc/passwd", "/src//a.js", "/src/./a.js", "/src/", "//a", "/..", "/a/..", "/a\\..\\b", "."] {
        assert_eq!(request_file(bad), Err(RequestError::PathEscape), "for {:?}", bad);
    }
    assert_eq!(request_file("/src/..a/b...js"), Ok("src/..a/b...js".to_string()));
}

#[test]
fn pipeline_goes_by_the_extension() {
    assert_eq!(pipeline_for("/src/style.css"), Pipeline::Css);
    for asset in ["a.json", "/x/a.png", "a.jpg", "a.jpeg", "a.gif", "a.svg", "a.wasm"] {
        assert_eq!(pipeline_for(asset), Pipeline::Asset, "for {}", asset);
    }
    for script in ["a.ts", "a.tsx", "a.js", "a.jsx", "a.mjs", "a", "/dir.css/file", ".css", "/x/.json", "a.CSS", "a.css.map"] {
        assert_eq!(pipeline_for(script), Pipeline::Script, "for {}", script);
    }
    assert_eq!(dev_pipeline_for("/node_modules/x/style.css", "/app/node_modules/x/style.css"), Pipeline::Vendor);
    assert_eq!(dev_pipeline_for("/src/style.css", "/app/src/style.css"), Pipeline::Css);
}

#[test]
fn graph_keys_are_rooted_and_slashed() {
    assert_eq!(normalize_path_for_graph("src/app.tsx"), "/src/app.tsx");
    assert_eq!(normalize_path_for_graph("/src/app.tsx"), "/src/app.tsx");
    assert_eq!(normalize_path_for_graph("src\\lib\\a.ts"), "/src/lib/a.ts");
    assert_eq!(normalize_path_for_graph("\\src\\a.ts"), "/src/a.ts");
    assert_eq!(normalize_path_for_graph(""), "/");
    assert_eq!(virtual_path("/home/u/app", "/home/u/app/src/main.tsx"), "/src/main.tsx");
    assert_eq!(virtual_path("/home/u/app", "/home/u/app/node_modules/react/index.js"), "/node_modules/react/index.js");
    assert_eq!(virtual_path("/home/u/app", "/elsewhere/x.js"), "/elsewhere/x.js");
    assert_eq!(virtual_path("C:\\app", "C:\\app\\src\\a.ts"), "/src/a.ts");
    assert_eq!(virtual_path("/proj", "/project/src/a.ts"), "/project/src/a.ts");
    assert_eq!(virtual_path("/project", "/project/src/a.ts"), "/src/a.ts");
    assert_eq!(virtual_path("/project/", "/project/src/a.ts"), "/src/a.ts");
    assert_eq!(virtual_path("/project", "/project"), "/");
    assert_eq!(virtual_path("/project", "/project.old/a.ts"), "/project.old/a.ts");
    assert_eq!(virtual_path("", "/project/a.ts"), "/project/a.ts");
}

#[test]
fn routes() {
    assert_eq!(route_for("/src/main.tsx"), Route::Module);
    assert_eq!(route_for("/src/a.js"), Route::Module);
    assert_eq!(route_for("/_nexus/chunk"), Route::Chunk);
    assert_eq!(route_for("/_nexus/chunk.js"), Route::Module);
    assert_eq!(route_for("/index.html"), Route::Static);
    assert_eq!(route_for("/style.css"), Route::Static);
}

#[test]
fn watched_files() {
    for yes in ["/app/src/a.ts", "/app/src/a.tsx", "/a.js", "/a.jsx", "/a.css", "/a.json", "/a.png", "/a.jpg", "/a.jpeg", "/a.svg", "/a.wasm"] {
        assert!(is_watched(yes), "for {}", yes);
    }
    for no in ["/app/node_modules/x/a.js", "/app/a.gif", "/app/a.md", "/app/src", "/app/my-node_modules-copy/a.ts"] {
        assert!(!is_watched(no), "for {}", no);
    }
}

#[test]
fn chunk_entries() {
    assert_eq!(chunk_entry("entry=/src/main.js"), Ok("/src/main.js".to_string()));
    assert_eq!(chunk_entry("entry=%2Fsrc%2Fmain.tsx"), Ok("/src/main.tsx".to_string()));
    assert_eq!(chunk_entry("a=1&entry=/x&b=2"), Ok("/x".to_string()));
    assert_eq!(chunk_entry("entry=/first&entry=/last"), Ok("/last".to_string()));
    assert_eq!(chunk_entry("entry=/first&entry="), Err(RequestError::MissingEntry));
    assert_eq!(chunk_entry("entry=a=b"), Ok("a=b".to_string()));
    assert_eq!(chunk_entry("entry=a+b%20c"), Ok("a+b c".to_string()));
    assert_eq!(chunk_entry("entry=%ff"), Ok("%ff".to_string()));
    for none in ["", "entry", "entry=", "xentry=/a", "a=1&b=2", "Entry=/a", "&&"] {
        assert_eq!(chunk_entry(none), Err(RequestError::MissingEntry), "for {:?}", none);
    }
}

#[test]
fn served_code_gets_its_trailers() {
    assert_eq!(with_source_map_trailer("x;", 12), "x;\n//# sourceMappingURL=/_nexus/sourcemap/12");
    assert_eq!(serve_code("x;", false, 3, "/src/a.ts", false), "x;");
    assert_eq!(serve_code("x;", true, 0, "/src/a.ts", false), "x;\n//# sourceMappingURL=/_nexus/sourcemap/0");
    let component = serve_code("x;", true, 7, "/src/App.tsx", false);
    assert_eq!(component, format!("x;\n//# sourceMappingURL=/_nexus/sourcemap/7{}", REFRESH_FOOTER));
    assert!(component.contains("module.hot.accept();"));
    assert!(component.contains("performReactRefresh"));
    assert_eq!(serve_code("x;", false, 7, "/node_modules/p/App.jsx", true), "x;");
    assert_eq!(serve_code("x;", false, 7, "/src/App.jsx", false), format!("x;{}", REFRESH_FOOTER));
}

#[test]
fn specifiers() {
    assert_eq!(specifier_kind("./a"), SpecifierKind::Relative);
    assert_eq!(specifier_kind("../a"), SpecifierKind::Relative);
    assert_eq!(specifier_kind(".."), SpecifierKind::Relative);
    assert_eq!(specifier_kind("/abs/a"), SpecifierKind::Absolute);
    assert_eq!(specifier_kind("react"), SpecifierKind::Bare);
    assert_eq!(specifier_kind("@scope/pkg/sub"), SpecifierKind::Bare);
    assert_eq!(specifier_kind(".hidden"), SpecifierKind::Bare);
    assert_eq!(check_specifier("./ok"), Ok(()));
    assert_eq!(check_specifier("\0nullbyte"), Err(ResolveError::InvalidPath));
    assert_eq!(resolve_outcome("react", Some("/app/node_modules/react/index.js".to_string())), Ok("/app/node_modules/react/index.js".to_string()));
    assert_eq!(resolve_outcome("react", None), Err(ResolveError::NotFound));
    assert_eq!(resolve_outcome("a\0b", Some("/x".to_string())), Err(ResolveError::InvalidPath));
    assert_eq!(resolve_outcome("a\0b", None), Err(ResolveError::InvalidPath));
}

#[test]
fn resolution_settings() {
    assert_eq!(extensions(), vec![".ts", ".tsx", ".js", ".jsx", ".json"]);
    assert_eq!(main_fields(), vec!["browser", "module", "main"]);
    assert_eq!(condition_names(), vec!["browser", "import", "require"]);
    assert_eq!(entry_candidates(), vec!["./src/main.tsx", "./src/index.tsx", "./src/main.js", "./src/index.js"]);
    assert_eq!(resolution_base("/app/src/main.ts", true), "/app/src");
    assert_eq!(resolution_base("/app/src", false), "/app/src");
    assert_eq!(resolution_base("/main.ts", true), "/");
    assert_eq!(resolution_base("main.ts", true), "");
    assert_eq!(resolution_base("main.ts", true), std::path::Path::new("main.ts").parent().unwrap().to_string_lossy());
    assert_eq!(resolution_base("main.ts", false), "main.ts");
    assert_eq!(resolution_base("/a/b/", true), "/a/b");
}

#[test]
fn vendor_paths() {
    assert!(is_vendor_path("/app/node_modules/react/index.js"));
    assert!(is_vendor_path("node_modules/x.js"));
    assert!(is_vendor_path("C:\\app\\node_modules\\x.js"));
    assert!(is_vendor_path("/app/node_modules"));
    assert!(!is_vendor_path("/app/src/node_modules_like/a.js"));
    assert!(!is_vendor_path("/app/my_node_modules/a.js"));
    assert!(!is_vendor_path(""));
    assert!(contains_segment("a/b/c", "b"));
    assert!(!contains_segment("a/bb/c", "b"));
    assert!(contains_segment("a//c", ""));
    assert!(!contains_segment("a/c", ""));
    assert!(contains_segment("", ""));
}

#[test]
fn text_helpers() {
    assert!(str_eq("héllo", "héllo") && !str_eq("héllo", "hello") && !str_eq("a", "ab") && str_eq("", ""));
    assert!(ends_with("a.tsx", ".tsx") && !ends_with("a.ts", ".tsx") && ends_with("x", "") && !ends_with("", "x"));
    assert!(starts_with("/_nexus/chunk?x", "/_nexus/chunk") && !starts_with("/_nexus", "/_nexus/chunk"));
    assert!(contains_text("abcabc", "cab") && !contains_text("abc", "cb") && contains_text("abc", "") && contains_text("", ""));
    assert_eq!(file_name_of("/a/b/c.png"), "c.png");
    assert_eq!(file_name_of("c.png"), "c.png");
    assert_eq!(file_name_of("/a/b/"), "");
    assert_eq!(extension_of("/a.b/c.tar.gz").as_deref(), Some("gz"));
    assert_eq!(extension_of("/a.b/c"), None);
    assert_eq!(extension_of(".bashrc"), None);
    assert_eq!(extension_of("a."), Some(String::new()));
    assert_eq!(to_decimal(0), "0");
    assert_eq!(to_decimal(907), "907");
    assert_eq!(to_decimal(usize::MAX), usize::MAX.to_string());
    assert_eq!(replace_all("a</body>b</body>", "</body>", "X</body>"), "aX</body>bX</body>");
    assert_eq!(replace_all("aaa", "aa", "b"), "ba");
    assert_eq!(replace_all("abc", "", "x"), "abc");
    assert_eq!(replace_all("", "a", "x"), "");
    assert_eq!(replace_all("héé", "é", "e"), "hee");
}

#[test]
fn test_path_traversal() {
    let attempt = resolve_outcome("../../../windows/system32/cmd.exe", None);
    if let Ok(path) = attempt {
        let _path_str = path;
    }

    let attempt_malformed = resolve_outcome("\0nullbyte", Some("/anything".to_string()));
    assert!(attempt_malformed.is_err(), "Should fail on null byte");
    assert!(check_specifier("\0nullbyte").is_err(), "Should fail on null byte");
}

#[test]
fn analyzed_files() {
    for yes in ["/src/a.ts", "/src/a.tsx", "/a.js", "/a.jsx", "/a.mjs", "/data.json", "/src/noext", "/a.vue"] {
        assert!(is_analyzed(yes), "for {}", yes);
    }
    for no in ["/a.css", "/a.png", "/a.jpg", "/a.jpeg", "/a.gif", "/a.svg", "/a.wasm"] {
        assert!(!is_analyzed(no), "for {}", no);
    }
}
