use nexus_core::compiler::{
    compile, compile_asset, compile_css, css_module, inline_asset, json_asset, media_type_of, try_compile, INJECTOR_HEAD,
    INJECTOR_TAIL, INLINE_LIMIT,
};

#[test]
fn test_compile_ts_strip() {
    let source = "const add = (a: number, b: number): number => a + b;";
    let res = compile(source, "test.ts", false);

    assert!(!res.code.contains(": number"));
    assert!(res.code.contains("const add = (a, b) => a + b"));
}

#[test]
fn test_compile_jsx() {
    let source = "export default () => <h1>Hello</h1>;";
    let res = compile(source, "test.tsx", false);

    assert!(!res.code.contains("<h1>"));
    assert!(res.code.contains("createElement") || res.code.contains("jsx"));
}

#[test]
fn test_sourcemap_generation() {
    let source = "const x: number = 1;";
    let res = compile(source, "test.ts", false);

    assert!(res.sourcemap.is_some());
    let map = res.sourcemap.unwrap();
    assert!(map.contains("\"version\":3"));
    assert!(map.contains("\"sources\":[\"test.ts\"]"));
}

#[test]
fn test_react_refresh_transform_enabled() {
    let source = r#"
    import { useState } from 'react';
    export default function App() {
        const [count, setCount] = useState(0);
        return <div>{count}</div>;
    }
    "#;

    let compiled = compile(source, "src/App.tsx", false);
    println!("Compiled code:\n{}", compiled.code);

    assert!(compiled.code.contains("$RefreshSig$") || compiled.code.contains("_s = $RefreshSig$"));
}

#[test]
fn production_scripts_are_not_compiled_for_refresh() {
    let source = "import { useState } from 'react';\nexport default function App() { const [n] = useState(0); return <b>{n}</b>; }\n";
    let prod = compile(source, "src/App.tsx", true);
    assert!(!prod.code.contains("$RefreshSig$"));
    assert!(!prod.code.contains("<b>"));
    assert!(prod.css.is_none() && prod.asset.is_none());
    let plain = compile("export const x: number = 1;", "src/x.ts", false);
    assert!(!plain.code.contains("$RefreshReg$"));
    assert!(plain.code.contains("export const x = 1;"));
}

#[test]
fn test_compile_json() {
    let bytes = r#"{ "foo": "bar" }"#.as_bytes();
    let result = compile_asset(bytes, "data.json", false);

    assert!(result.code.contains("export default { \"foo\": \"bar\" };"));
}

#[test]
fn test_compile_small_image_inline() {
    let bytes = vec![1, 2, 3, 4, 5];
    let result = compile_asset(&bytes, "icon.png", false);

    assert!(result.code.contains("export default \"data:image/png;base64,"));
    assert!(result.code.contains("image/png"));
}

#[test]
fn test_compile_large_image_url() {
    let bytes = vec![0; 9000];
    let result = compile_asset(&bytes, "/src/large.png", false);

    assert!(result.code.contains("export default \"/src/large.png?raw\";"));
}

#[test]
fn test_mime_guess() {
    let bytes = vec![0];
    let result = compile_asset(&bytes, "test.svg", false);
    assert!(result.code.contains("image/svg+xml"));

    let result2 = compile_asset(&bytes, "test.wasm", false);
    assert!(result2.code.contains("application/wasm"));
}

#[test]
fn asset_code_is_exact() {
    let small = compile_asset(&[1, 2, 3, 4, 5], "icon.png", true);
    assert_eq!(small.code, "export default \"data:image/png;base64,AQIDBAU=\"");
    assert!(small.asset.is_none() && small.css.is_none() && small.sourcemap.is_none());

    let unknown = compile_asset(&[255], "blob.zzz", false);
    assert_eq!(unknown.code, "export default \"data:application/octet-stream;base64,/w==\"");

    let json = compile_asset(b"[1, 2]", "/src/list.json", true);
    assert_eq!(json.code, "export default [1, 2];");
    assert!(json.asset.is_none());

    let broken = compile_asset(&[b'"', 0xff, b'"'], "/src/bad.json", false);
    assert_eq!(broken.code, "export default \"\u{fffd}\";");
}

#[test]
fn asset_at_the_inline_limit() {
    assert_eq!(INLINE_LIMIT, 8 * 1024);
    let at = vec![7u8; 8192];
    let over = vec![7u8; 8193];

    for prod in [false, true] {
        let inline = compile_asset(&at, "/src/logo.png", prod);
        assert!(inline.code.starts_with("export default \"data:image/png;base64,BwcH"));
        assert!(inline.asset.is_none());
    }

    let emitted = compile_asset(&over, "/src/img/logo.png", true);
    assert_eq!(emitted.code, "export default \"/assets/logo.png\"");
    assert_eq!(emitted.asset, Some(("assets/logo.png".to_string(), over.clone())));

    let raw = compile_asset(&over, "/src/img/logo.png", false);
    assert_eq!(raw.code, "export default \"/src/img/logo.png?raw\";");
    assert!(raw.asset.is_none());

    let big_json = compile_asset(&vec![b'1'; 9000], "/big.json", true);
    assert!(big_json.code.starts_with("export default 111"));
    assert!(big_json.asset.is_none());
}

#[test]
fn test_compile_css_injection() {
    let source = ".foo { color: red; }";
    let filename = "style.css";

    let result = compile_css(source, filename, false);
    let code = result.code;

    assert!(code.contains("nexus-style-"));
    assert!(code.contains("document.createElement(\"style\")"));
    assert!(code.contains("style.textContent = \".foo {\\n  color: red;\\n}\\n\""));
    assert!(code.contains("module.hot.accept()"));
    assert!(code.contains("style.remove()"));
}

#[test]
fn test_compile_css_escaping() {
    let source = ".foo { content: \"hello \\\"world\\\"\"; }";
    let filename = "style.css";

    let result = compile_css(source, filename, false);
    assert!(result.code.contains(r#"content: \"hello \\\"world\\\"\""#) || result.code.contains("content"));
}

#[test]
fn css_is_extracted_in_production() {
    let result = compile_css("body { color: red; }", "/src/style.css", true);
    assert_eq!(result.code, "// Extracted CSS");
    assert_eq!(result.css.as_deref(), Some("body {\n  color: red;\n}\n"));
    assert!(result.asset.is_none() && result.sourcemap.is_none());

    let dev = compile_css("body { color: red; }", "/src/style.css", false);
    assert!(dev.css.is_none());
    assert!(dev.code.contains("const styleId = \"nexus-style-\" + module.id;"));
    assert!(dev.code.contains("let style = document.getElementById(styleId);"));
    assert!(dev.code.contains("module.hot.dispose(() => {"));
}

#[test]
fn css_that_does_not_parse_is_kept_as_it_is() {
    let broken = "@media { {{{";
    let prod = compile_css(broken, "/src/broken.css", true);
    let css = prod.css.unwrap();
    assert!(!css.is_empty());
    let dev = compile_css("a{b:c}", "/x.css", false);
    assert!(dev.code.contains("style.textContent = \"a {\\n  b: c;\\n}\\n\";"));
}

#[test]
fn media_type_goes_by_the_extension() {
    assert_eq!(media_type_of("/src/logo.png"), "image/png");
    assert_eq!(media_type_of("LOGO.PNG"), "image/png");
    assert_eq!(media_type_of("a.b/photo.jpeg"), "image/jpeg");
    assert_eq!(media_type_of("/src/app.wasm"), "application/wasm");
    assert_eq!(media_type_of("/src/noext"), "application/octet-stream");
    assert_eq!(media_type_of("/src.png/noext"), "application/octet-stream");
    assert_eq!(media_type_of("/src/.png"), "application/octet-stream");
    assert_eq!(media_type_of("/src/a."), "application/octet-stream");
    assert_eq!(media_type_of("/src/a.unknown-kind"), "application/octet-stream");
    for path in ["/src/logo.png", "x.svg", "/a/b.gif", "plain", ".hidden", "dir.d/file"] {
        assert_eq!(media_type_of(path), mime_guess::from_path(path).first_or_octet_stream().to_string(), "for {}", path);
    }
}

#[test]
fn a_script_that_does_not_parse_is_not_compiled() {
    let broken = "export const = ;\nimport {";
    let failure = try_compile(broken, "/src/bad.ts", true).unwrap_err();
    assert_eq!(failure.path, "/src/bad.ts");
    assert!(failure.errors > 0);
    assert!(try_compile(broken, "/src/bad.ts", false).is_err());
    let kept = compile(broken, "/src/bad.ts", false);
    assert_eq!(kept.code, broken);
    assert!(kept.sourcemap.is_none() && kept.css.is_none() && kept.asset.is_none());

    let fine = try_compile("export const x: number = 1;", "/src/x.ts", true).unwrap();
    assert_eq!(fine.code, compile("export const x: number = 1;", "/src/x.ts", true).code);
    assert!(fine.code.contains("export const x = 1;"));
    assert!(!fine.code.contains("number"));
    assert!(try_compile("const x: number = 1;", "/src/x.js", true).is_err());
}

#[test]
fn json_asset_is_the_text_as_the_default_export() {
    let bytes = br#"{ "foo": "bar" }"#;
    for is_prod in [true, false] {
        let result = compile_asset(bytes, "data.json", is_prod);
        assert_eq!(result.code, r#"export default { "foo": "bar" };"#);
        assert!(result.asset.is_none() && result.css.is_none() && result.sourcemap.is_none());
    }
    let large = format!("[{}]", "1,".repeat(9000) + "1");
    let result = compile_asset(large.as_bytes(), "/src/big.json", true);
    assert_eq!(result.code, format!("export default {};", large));
    assert!(result.asset.is_none());
    assert_eq!(json_asset("{}").code, "export default {};");
    assert_eq!(compile_asset(&[0x7b, 0xff, 0x7d], "x.json", true).code, "export default {\u{fffd}};");
}

#[test]
fn modules_of_assets_and_style_sheets_from_their_parts() {
    let inline = inline_asset("image/png", "AAEC");
    assert_eq!(inline.code, "export default \"data:image/png;base64,AAEC\"");
    assert!(inline.asset.is_none() && inline.css.is_none() && inline.sourcemap.is_none());
    assert_eq!(compile_asset(&[0, 1, 2], "a.png", true).code, inline.code);

    let extracted = css_module(Some("a{}".to_string()), "a { }", true);
    assert_eq!(extracted.code, "// Extracted CSS");
    assert_eq!(extracted.css.as_deref(), Some("a{}"));
    let kept = css_module(None, "a { ", true);
    assert_eq!(kept.css.as_deref(), Some("a { "));
    let injected = css_module(Some("a \"b\"\n".to_string()), "ignored", false);
    assert_eq!(injected.code, format!("{}{}{}", INJECTOR_HEAD, "\"a \\\"b\\\"\\n\"", INJECTOR_TAIL));
    assert!(injected.css.is_none());
}
