//! Compiling one file of a project into the JavaScript that a bundle holds:
//! scripts are parsed and printed, style sheets become an injector or
//! extracted text, and other assets a data URL or a file beside the bundle.

use vstd::prelude::*;
use oxc_allocator::Allocator;
use oxc_codegen::{Codegen, CodegenOptions};
use oxc_parser::Parser;
use oxc_semantic::SemanticBuilder;
use oxc_span::SourceType;
use oxc_transformer::{ReactRefreshOptions, TransformOptions, Transformer};
use vstd::string::StringExecFns;
use vstd::utf8::{decode_utf8, valid_utf8};
use crate::chunker::hex_digit;
use crate::syntax::{parsed_module, read_module};
use crate::text::{ends_with, extension, extension_of, file_name_of, is_suffix, base_name};

verus! {

/// What compiling one file gives.
#[derive(Clone, Debug)]
pub struct CompileResult {
    /// The JavaScript that stands for the file in a bundle.
    pub code: String,
    /// The encoded source map, where the compiler made one.
    pub sourcemap: Option<String>,
    /// Style sheet text to write into the bundle's style sheet.
    pub css: Option<String>,
    /// An asset to write out beside the bundle: its name and its bytes.
    pub asset: Option<(String, Vec<u8>)>,
}

/// The largest asset, in bytes, that is embedded as a data URL.
pub const INLINE_LIMIT: usize = 8192;

/// The standard base64 encoding of `bytes`, with padding.
pub uninterp spec fn base64_text(bytes: Seq<u8>) -> Seq<char>;

/// The media type that the file extension `ext` stands for.
pub uninterp spec fn guessed_mime(ext: Seq<char>) -> Seq<char>;

/// The media type of the file at `path`: that of its extension, and that
/// of no extension where it has none.
pub open spec fn media_type(path: Seq<char>) -> Seq<char> {
    match extension(path) {
        Some(ext) => guessed_mime(ext),
        None => guessed_mime(Seq::empty()),
    }
}

/// The style sheet `source` as the CSS printer writes it, where the CSS
/// parser accepts it.
pub uninterp spec fn printed_css(source: Seq<char>) -> Option<Seq<char>>;

/// What stands for one character inside a JSON string: a backslash and
/// a letter for the quote, the backslash and the five control characters
/// that have one; `\u00` and two hexadecimal digits for any other
/// character below the space; and any other character as it is.
pub open spec fn json_escape(c: char) -> Seq<char> {
    if c == '"' {
        seq!['\\', '"']
    } else if c == '\\' {
        seq!['\\', '\\']
    } else if c == '\u{8}' {
        seq!['\\', 'b']
    } else if c == '\t' {
        seq!['\\', 't']
    } else if c == '\n' {
        seq!['\\', 'n']
    } else if c == '\u{c}' {
        seq!['\\', 'f']
    } else if c == '\r' {
        seq!['\\', 'r']
    } else if (c as u32) < 0x20 {
        seq!['\\', 'u', '0', '0', hex_digit((c as u32 / 16) as nat), hex_digit((c as u32 % 16) as nat)]
    } else {
        seq![c]
    }
}

/// The characters of a text as they stand inside a JSON string.
pub open spec fn json_escaped(text: Seq<char>) -> Seq<char>
    decreases text.len(),
{
    if text.len() == 0 {
        Seq::empty()
    } else {
        json_escaped(text.drop_last()) + json_escape(text.last())
    }
}

/// `text` as a JSON string, with its quotes.
pub open spec fn json_text(text: Seq<char>) -> Seq<char> {
    seq!['"'] + json_escaped(text) + seq!['"']
}

/// `bytes` read as UTF-8, with a replacement character for what is not.
pub uninterp spec fn lossy_text(bytes: Seq<u8>) -> Seq<char>;

/// The text held by an optional string.
pub open spec fn text_in(text: Option<String>) -> Option<Seq<char>> {
    match text {
        Some(t) => Some(t@),
        None => None,
    }
}

/// Encodes bytes in base64. Wraps `Engine::encode` of
/// `base64::engine::general_purpose::STANDARD`; the result is a function
/// of the bytes alone.
#[verifier::external_body]
fn base64_of(bytes: &[u8]) -> (text: String)
    ensures
        text@ == base64_text(bytes@),
{
    base64::Engine::encode(&base64::engine::general_purpose::STANDARD, bytes)
}

/// The media type for a file extension. Wraps `mime_guess::from_ext` with
/// `first_or_octet_stream`: a lookup of the extension in a fixed table,
/// whatever its case.
#[verifier::external_body]
fn mime_of(ext: &str) -> (mime: String)
    ensures
        mime@ == guessed_mime(ext@),
{
    mime_guess::from_ext(ext).first_or_octet_stream().to_string()
}

/// The media type of the file at `path`.
pub fn media_type_of(path: &str) -> (mime: String)
    ensures
        mime@ == media_type(path@),
{
    match extension_of(path) {
        Some(ext) => mime_of(ext.as_str()),
        None => {
            assert(""@ =~= Seq::<char>::empty()) by {
                reveal_strlit("");
            }
            mime_of("")
        },
    }
}

/// Parses a style sheet and prints it again, not minified. Wraps
/// `lightningcss::stylesheet::StyleSheet::parse` and `to_css`, with default
/// options. Nothing is returned where either fails.
#[verifier::external_body]
fn print_css(source: &str) -> (css: Option<String>)
    ensures
        text_in(css) == printed_css(source@),
{
    let options = lightningcss::stylesheet::ParserOptions::default();
    let sheet = lightningcss::stylesheet::StyleSheet::parse(source, options).ok()?;
    let printer = lightningcss::stylesheet::PrinterOptions { minify: false, ..Default::default() };
    sheet.to_css(printer).ok().map(|printed| printed.code)
}

/// Writes a text as a JSON string. Wraps `serde_json::to_string`, which
/// for a text writes into memory and so never fails: it writes a quote,
/// each character as it is or as its escape, and a quote.
#[verifier::external_body]
pub(crate) fn json_of(text: &str) -> (json: String)
    ensures
        json@ == json_text(text@),
{
    serde_json::to_string(text).unwrap_or_default()
}

/// Reads bytes as text. Wraps `String::from_utf8_lossy`, which returns
/// valid UTF-8 as it is and puts U+FFFD in place of what is not.
#[verifier::external_body]
fn lossy_of(bytes: &[u8]) -> (text: String)
    ensures
        text@ == lossy_text(bytes@),
        valid_utf8(bytes@) ==> text@ == decode_utf8(bytes@),
{
    String::from_utf8_lossy(bytes).into_owned()
}

/// The code of a JSON file: its text, as the default export.
pub open spec fn json_module(bytes: Seq<u8>) -> Seq<char> {
    "export default "@ + lossy_text(bytes) + ";"@
}

/// The code of an asset that is embedded: a data URL as the default export.
pub open spec fn inline_module(mime: Seq<char>, encoded: Seq<char>) -> Seq<char> {
    "export default \"data:"@ + mime + ";base64,"@ + encoded + "\""@
}

/// The name under which an asset is written out beside the bundle.
pub open spec fn emitted_name(filename: Seq<char>) -> Seq<char> {
    "assets/"@ + base_name(filename)
}

/// The code of an asset that is written out: its address as the default
/// export.
pub open spec fn emitted_module(filename: Seq<char>) -> Seq<char> {
    "export default \"/"@ + emitted_name(filename) + "\""@
}

/// The code of an asset that the development server hands out raw.
pub open spec fn raw_module(filename: Seq<char>) -> Seq<char> {
    "export default \""@ + filename + "?raw\";"@
}

/// The code that `compile_asset` gives.
pub open spec fn asset_code(bytes: Seq<u8>, filename: Seq<char>, is_prod: bool) -> Seq<char> {
    if is_suffix(filename, ".json"@) {
        json_module(bytes)
    } else if bytes.len() <= INLINE_LIMIT {
        inline_module(media_type(filename), base64_text(bytes))
    } else if is_prod {
        emitted_module(filename)
    } else {
        raw_module(filename)
    }
}

/// The asset that `compile_asset` asks to write out: one that is neither
/// JSON nor small enough to embed, in a production build.
pub open spec fn asset_output(bytes: Seq<u8>, filename: Seq<char>, is_prod: bool) -> Option<
    (Seq<char>, Seq<u8>),
> {
    if !is_suffix(filename, ".json"@) && bytes.len() > INLINE_LIMIT && is_prod {
        Some((emitted_name(filename), bytes))
    } else {
        None
    }
}

fn copy_bytes(bytes: &[u8]) -> (copy: Vec<u8>)
    ensures
        copy@ == bytes@,
{
    let mut copy: Vec<u8> = Vec::new();
    let mut i: usize = 0;
    while i < bytes.len()
        invariant
            i <= bytes.len(),
            copy@ == bytes@.take(i as int),
        decreases bytes.len() - i,
    {
        copy.push(bytes[i]);
        assert(copy@ =~= bytes@.take(i + 1));
        i += 1;
    }
    assert(bytes@.take(bytes.len() as int) =~= bytes@);
    copy
}

/// The module of a JSON file whose text is `text`: it exports the text.
pub fn json_asset(text: &str) -> (result: CompileResult)
    ensures
        result.code@ == "export default "@ + text@ + ";"@,
        result.sourcemap is None,
        result.css is None,
        result.asset is None,
{
    let mut code = String::from_str("export default ");
    code.append(text);
    code.append(";");
    CompileResult { code, sourcemap: None, css: None, asset: None }
}

/// The module of an asset that is embedded, from its media type and its
/// bytes in base64: it exports a data URL.
pub fn inline_asset(mime: &str, encoded: &str) -> (result: CompileResult)
    ensures
        result.code@ == inline_module(mime@, encoded@),
        result.sourcemap is None,
        result.css is None,
        result.asset is None,
{
    let mut code = String::from_str("export default \"data:");
    code.append(mime);
    code.append(";base64,");
    code.append(encoded);
    code.append("\"");
    CompileResult { code, sourcemap: None, css: None, asset: None }
}

/// Compiles a file that is not a script: JSON becomes a module that
/// exports its text; an asset of at most 8 KiB a module that exports a
/// data URL; a larger asset a module that exports its address, which in a
/// production build is a file written out beside the bundle, and in
/// development the file itself, raw.
pub fn compile_asset(bytes: &[u8], filename: &str, is_prod: bool) -> (result: CompileResult)
    ensures
        result.code@ == asset_code(bytes@, filename@, is_prod),
        is_suffix(filename@, ".json"@) && valid_utf8(bytes@) ==> result.code@ == "export default "@
            + decode_utf8(bytes@) + ";"@,
        result.sourcemap is None,
        result.css is None,
        crate::graph::asset_of(result.asset) == asset_output(bytes@, filename@, is_prod),
{
    if ends_with(filename, ".json") {
        let text = lossy_of(bytes);
        return json_asset(text.as_str());
    }
    if bytes.len() <= INLINE_LIMIT {
        let mime = media_type_of(filename);
        let encoded = base64_of(bytes);
        return inline_asset(mime.as_str(), encoded.as_str());
    }
    if is_prod {
        let mut out_path = String::from_str("assets/");
        out_path.append(file_name_of(filename).as_str());
        let mut code = String::from_str("export default \"/");
        code.append(out_path.as_str());
        code.append("\"");
        assert(code@ =~= emitted_module(filename@));
        CompileResult { code, sourcemap: None, css: None, asset: Some((out_path, copy_bytes(bytes))) }
    } else {
        let mut code = String::from_str("export default \"");
        code.append(filename);
        code.append("?raw\";");
        assert(code@ =~= raw_module(filename@));
        CompileResult { code, sourcemap: None, css: None, asset: None }
    }
}

/// What stands before the style sheet text in the injector.
pub const INJECTOR_HEAD: &'static str = r#"
(function() {
    const styleId = "nexus-style-" + module.id;
    let style = document.getElementById(styleId);
    if (!style) {
      style = document.createElement("style");
      style.id = styleId;
      document.head.appendChild(style);
    }
    style.textContent = "#;

/// What stands behind the style sheet text in the injector.
pub const INJECTOR_TAIL: &'static str = r#";

    if (module.hot) {
      module.hot.accept();
      module.hot.dispose(() => {
          style.remove();
      });
    }
})();
"#;

/// The style sheet that goes into the bundle: as the CSS printer writes
/// it, or as it came where the CSS parser refuses it.
pub open spec fn css_content(source: Seq<char>) -> Seq<char> {
    css_content_of(printed_css(source), source)
}

/// A style sheet as a JavaScript string: a JSON string.
pub open spec fn css_literal(css: Seq<char>) -> Seq<char> {
    json_text(css)
}

/// The injector: a script that writes the style sheet into a `style`
/// element of its own, accepts hot updates, and removes the element when
/// it is disposed of.
pub open spec fn injector(css: Seq<char>) -> Seq<char> {
    INJECTOR_HEAD@ + css_literal(css) + INJECTOR_TAIL@
}

/// The style sheet that goes into the bundle, given what the CSS printer
/// made of `source`: that, or `source` where it made nothing.
pub open spec fn css_content_of(printed: Option<Seq<char>>, source: Seq<char>) -> Seq<char> {
    match printed {
        Some(css) => css,
        None => source,
    }
}

/// The module of a style sheet, given what the CSS printer made of
/// `source`. In a production build the style sheet is extracted, and the
/// code is a comment. In development the code is the injector of the
/// style sheet.
pub fn css_module(printed: Option<String>, source: &str, is_prod: bool) -> (result: CompileResult)
    ensures
        result.sourcemap is None,
        result.asset is None,
        is_prod ==> result.code@ == "// Extracted CSS"@ && text_in(result.css) == Some(
            css_content_of(text_in(printed), source@),
        ),
        !is_prod ==> result.code@ == injector(css_content_of(text_in(printed), source@))
            && result.css is None,
{
    let content = match printed {
        Some(css) => css,
        None => String::from_str(source),
    };
    if is_prod {
        return CompileResult {
            code: String::from_str("// Extracted CSS"),
            sourcemap: None,
            css: Some(content),
            asset: None,
        };
    }
    let mut code = String::from_str(INJECTOR_HEAD);
    let literal = json_of(content.as_str());
    code.append(literal.as_str());
    code.append(INJECTOR_TAIL);
    CompileResult { code, sourcemap: None, css: None, asset: None }
}

/// Compiles a style sheet. In a production build the style sheet is
/// extracted, and the code is a comment. In development the code is the
/// injector of the style sheet.
pub fn compile_css(source: &str, filename: &str, is_prod: bool) -> (result: CompileResult)
    ensures
        result.sourcemap is None,
        result.asset is None,
        is_prod ==> result.code@ == "// Extracted CSS"@ && text_in(result.css) == Some(
            css_content(source@),
        ),
        !is_prod ==> result.code@ == injector(css_content(source@)) && result.css is None,
{
    css_module(print_css(source), source, is_prod)
}

/// What the script compiler makes of `source`: the JavaScript it prints,
/// with types and markup compiled away, and the source map. With
/// `refresh`, components are compiled for hot component refresh.
pub uninterp spec fn compiled_script(source: Seq<char>, path: Seq<char>, refresh: bool) -> (
    Seq<char>,
    Option<Seq<char>>,
);

/// Asks the script compiler for hot component refresh.
#[derive(Clone, Copy, Debug)]
pub struct Refresh;

/// Compiles a script: parses it in the dialect that the extension of
/// `path` names, compiles TypeScript and JSX away, and prints the result
/// with a source map that names `path`. Wraps `oxc_parser::Parser::parse`,
/// `oxc_semantic::SemanticBuilder::build`,
/// `oxc_transformer::Transformer::build_with_symbols_and_scopes` and
/// `oxc_codegen::Codegen::build`, with default options but for the two
/// that the arguments set. The result is a function of the arguments
/// alone. It is called only for a source that the parser reads without
/// an error.
#[verifier::external_body]
fn compile_script(source: &str, path: &str, refresh: Option<Refresh>) -> (printed: (
    String,
    Option<String>,
))
    requires
        parsed_module(source@, path@).errors == 0,
    ensures
        (printed.0@, text_in(printed.1)) == compiled_script(source@, path@, refresh is Some),
{
    let arena = Allocator::default();
    let mut program = Parser::new(&arena, source, SourceType::from_path(path).unwrap_or_default()).parse().program;
    let (symbols, scopes) = SemanticBuilder::new().build(&program).semantic.into_symbol_table_and_scope_tree();
    let mut options = TransformOptions::default();
    options.jsx.refresh = refresh.map(|_| ReactRefreshOptions::default());
    let transformer = Transformer::new(&arena, path.as_ref(), &options);
    transformer.build_with_symbols_and_scopes(symbols, scopes, &mut program);
    let mut printer = CodegenOptions::default();
    printer.source_map_path = Some(path.into());
    let printed = Codegen::new().with_options(printer).build(&program);
    (printed.code, printed.map.map(|map| map.to_json_string()))
}

/// Whether a script is compiled for hot component refresh: a file with
/// markup, in development.
pub open spec fn refresh_for(filename: Seq<char>, is_prod: bool) -> bool {
    !is_prod && (is_suffix(filename, ".tsx"@) || is_suffix(filename, ".jsx"@))
}

/// Why a script was not compiled: the parser met syntax errors.
#[derive(Clone, Debug)]
pub struct ParseFailure {
    /// The file.
    pub path: String,
    /// The number of syntax errors.
    pub errors: usize,
}

/// What `try_compile` gives: the compiled script where the parser reads
/// the source without an error, and the failure where it does not.
pub open spec fn compile_outcome(
    source: Seq<char>,
    filename: Seq<char>,
    is_prod: bool,
    outcome: Result<CompileResult, ParseFailure>,
) -> bool {
    let errors = parsed_module(source, filename).errors;
    match outcome {
        Ok(result) => {
            &&& errors == 0
            &&& (result.code@, text_in(result.sourcemap)) == compiled_script(
                source,
                filename,
                refresh_for(filename, is_prod),
            )
            &&& result.css is None
            &&& result.asset is None
        },
        Err(failure) => errors > 0 && failure.path@ == filename && failure.errors == errors,
    }
}

/// Compiles a script, or says that it does not parse. What comes out is
/// the JavaScript and the source map that the script compiler makes of
/// it. Files with markup are compiled for hot component refresh in
/// development. A source with syntax errors is not compiled: the caller
/// keeps what it had of the module, answers the request with the failure
/// in development, and gives up the build in production.
pub fn try_compile(source: &str, filename: &str, is_prod: bool) -> (outcome: Result<
    CompileResult,
    ParseFailure,
>)
    ensures
        compile_outcome(source@, filename@, is_prod, outcome),
{
    let syntax = read_module(source, filename);
    if syntax.errors > 0 {
        return Err(ParseFailure { path: String::from_str(filename), errors: syntax.errors });
    }
    let refresh = if !is_prod && (ends_with(filename, ".tsx") || ends_with(filename, ".jsx")) {
        Some(Refresh)
    } else {
        None
    };
    let (code, sourcemap) = compile_script(source, filename, refresh);
    Ok(CompileResult { code, sourcemap, css: None, asset: None })
}

/// Compiles a script where it parses, as `try_compile` does, and hands a
/// source with syntax errors back as it came, without a source map.
pub fn compile(source: &str, filename: &str, is_prod: bool) -> (result: CompileResult)
    ensures
        parsed_module(source@, filename@).errors == 0 ==> compile_outcome(
            source@,
            filename@,
            is_prod,
            Ok(result),
        ),
        parsed_module(source@, filename@).errors > 0 ==> result.code@ == source@
            && result.sourcemap is None,
        result.css is None,
        result.asset is None,
{
    match try_compile(source, filename, is_prod) {
        Ok(result) => result,
        Err(_) => CompileResult {
            code: String::from_str(source),
            sourcemap: None,
            css: None,
            asset: None,
        },
    }
}

} // verus!
