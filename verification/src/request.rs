//! What the development server decides about a request before it touches a
//! file: whether the path is safe, which compiler the file goes to, and
//! which entry a chunk request names.

use vstd::prelude::*;
use vstd::string::{StringExecFns, StrSliceExecFns};
use crate::paths::{contains_segment, has_segment, is_separator, vendor_path, is_vendor_path};
use crate::text::{
    chars_of,
    contains_text,
    ends_with,
    extension,
    extension_of,
    has_part,
    is_prefix,
    is_suffix,
    push_char,
    starts_with,
    str_eq,
    after_last,
    lemma_after_last,
    to_decimal,
    decimal_text,
};

verus! {

/// Why a request is refused.
#[derive(Clone, Copy, Debug, PartialEq, Eq, Structural)]
pub enum RequestError {
    /// The path leaves the project, or holds an empty segment.
    PathEscape,
    /// A chunk request names no entry.
    MissingEntry,
}

/// The path without the `/` at its beginning, where there is one.
pub open spec fn unrooted(path: Seq<char>) -> Seq<char> {
    if path.len() > 0 && path[0] == '/' {
        path.skip(1)
    } else {
        path
    }
}

/// Every segment of the path names a file or a directory: none is empty,
/// `.` or `..`.
pub open spec fn all_segments_normal(path: Seq<char>) -> bool {
    !has_segment(path, ""@) && !has_segment(path, "."@) && !has_segment(path, ".."@)
}

/// The path of the file that a request asks for, relative to the project
/// root. A path with a segment that is empty, `.` or `..` is refused, and
/// so is the root itself.
pub fn request_file(path: &str) -> (file: Result<String, RequestError>)
    ensures
        file == if all_segments_normal(unrooted(path@)) {
            Ok::<String, RequestError>(file->Ok_0)
        } else {
            Err::<String, RequestError>(RequestError::PathEscape)
        },
        file is Ok ==> file->Ok_0@ == unrooted(path@),
{
    let chars = chars_of(path);
    let from: usize = if chars.len() > 0 && chars[0] == '/' {
        1
    } else {
        0
    };
    let mut rest = String::new();
    let mut i: usize = from;
    while i < chars.len()
        invariant
            from <= i <= chars.len(),
            rest@ == chars@.subrange(from as int, i as int),
        decreases chars.len() - i,
    {
        push_char(&mut rest, chars[i]);
        assert(rest@ =~= chars@.subrange(from as int, i + 1));
        i += 1;
    }
    assert(chars@.subrange(from as int, chars.len() as int) =~= unrooted(path@));
    if contains_segment(rest.as_str(), "") || contains_segment(rest.as_str(), ".")
        || contains_segment(rest.as_str(), "..") {
        Err(RequestError::PathEscape)
    } else {
        Ok(rest)
    }
}

/// The compiler that a file goes to.
#[derive(Clone, Copy, Debug, PartialEq, Eq, Structural)]
pub enum Pipeline {
    /// The file is handed out as it is: vendor code.
    Vendor,
    /// A style sheet.
    Css,
    /// JSON, an image or another binary asset.
    Asset,
    /// A script.
    Script,
}

/// An extension that marks an asset.
pub open spec fn asset_extension(ext: Seq<char>) -> bool {
    ext == "png"@ || ext == "jpg"@ || ext == "jpeg"@ || ext == "gif"@ || ext == "svg"@ || ext
        == "wasm"@ || ext == "json"@
}

/// The compiler for a file, by its extension: `css` is a style sheet;
/// `json`, `png`, `jpg`, `jpeg`, `gif`, `svg` and `wasm` are assets; all
/// else is a script.
pub open spec fn pipeline_of(path: Seq<char>) -> Pipeline {
    match extension(path) {
        Some(ext) => if ext == "css"@ {
            Pipeline::Css
        } else if asset_extension(ext) {
            Pipeline::Asset
        } else {
            Pipeline::Script
        },
        None => Pipeline::Script,
    }
}

/// The compiler for the file at `path`.
pub fn pipeline_for(path: &str) -> (pipeline: Pipeline)
    ensures
        pipeline == pipeline_of(path@),
{
    match extension_of(path) {
        Some(ext) => {
            let e = ext.as_str();
            if str_eq(e, "css") {
                Pipeline::Css
            } else if str_eq(e, "png") || str_eq(e, "jpg") || str_eq(e, "jpeg") || str_eq(e, "gif")
                || str_eq(e, "svg") || str_eq(e, "wasm") || str_eq(e, "json") {
                Pipeline::Asset
            } else {
                Pipeline::Script
            }
        },
        None => Pipeline::Script,
    }
}

/// Whether the bundler reads the imports and exports of the file at
/// `path`: it does of a script and of a `json` module, which is compiled
/// to a script, and not of a style sheet or of any other asset.
pub open spec fn analyzed_path(path: Seq<char>) -> bool {
    pipeline_of(path) == Pipeline::Script || extension(path) == Some("json"@)
}

/// Whether the bundler reads the imports and exports of the file at
/// `path`.
pub fn is_analyzed(path: &str) -> (analyzed: bool)
    ensures
        analyzed == analyzed_path(path@),
{
    match pipeline_for(path) {
        Pipeline::Script => true,
        _ => match extension_of(path) {
            Some(ext) => str_eq(ext.as_str(), "json"),
            None => false,
        },
    }
}

/// The compiler for a file of the development server: vendor code is
/// handed out as it is, all else goes by the extension of the request.
pub fn dev_pipeline_for(path: &str, fs_path: &str) -> (pipeline: Pipeline)
    ensures
        pipeline == if vendor_path(fs_path@) {
            Pipeline::Vendor
        } else {
            pipeline_of(path@)
        },
{
    if is_vendor_path(fs_path) {
        Pipeline::Vendor
    } else {
        pipeline_for(path)
    }
}

/// A host path with forward slashes.
pub open spec fn slashed(path: Seq<char>) -> Seq<char> {
    path.map_values(|c: char| if c == '\\' { '/' } else { c })
}

/// The key of a path in the graph: with forward slashes, and with a `/`
/// at its beginning.
pub open spec fn graph_key(path: Seq<char>) -> Seq<char> {
    if is_prefix(slashed(path), "/"@) {
        slashed(path)
    } else {
        "/"@ + slashed(path)
    }
}

/// The key of a path in the graph: backslashes become slashes, and the
/// path gets a `/` at its beginning where it has none.
pub fn normalize_path_for_graph(path: &str) -> (key: String)
    ensures
        key@ == graph_key(path@),
{
    let chars = chars_of(path);
    let rooted = chars.len() > 0 && (chars[0] == '/' || chars[0] == '\\');
    proof {
        reveal_strlit("/");
        if chars.len() > 0 {
            assert(slashed(path@).subrange(0, 1) =~= seq![slashed(path@)[0]]);
            assert("/"@ =~= seq!['/']);
        }
    }
    let mut key = String::new();
    if !rooted {
        key.append("/");
    }
    let ghost head = key@;
    let mut i: usize = 0;
    while i < chars.len()
        invariant
            i <= chars.len(),
            chars@ == path@,
            key@ == head + slashed(path@).take(i as int),
        decreases chars.len() - i,
    {
        let c = if chars[i] == '\\' {
            '/'
        } else {
            chars[i]
        };
        push_char(&mut key, c);
        assert(key@ =~= head + slashed(path@).take(i + 1));
        i += 1;
    }
    assert(slashed(path@).take(chars.len() as int) =~= slashed(path@));
    assert(key@ =~= graph_key(path@));
    key
}

/// The file at `fs_path` lies in the directory `root`: the path begins
/// with the root, and the root ends where a segment of the path ends. A
/// file in `/project` does not lie in `/proj`.
pub open spec fn inside_root(root: Seq<char>, fs_path: Seq<char>) -> bool {
    is_prefix(fs_path, root) && (root.len() == 0 || fs_path.len() == root.len() || is_separator(
        root.last(),
    ) || is_separator(fs_path[root.len() as int]))
}

/// The virtual path of a host path: what stands behind the project root,
/// as a graph key; the whole path as a graph key where the file lies
/// outside the root.
pub open spec fn virtual_path_of(root: Seq<char>, fs_path: Seq<char>) -> Seq<char> {
    if inside_root(root, fs_path) {
        graph_key(fs_path.skip(root.len() as int))
    } else {
        graph_key(fs_path)
    }
}

/// The virtual path of the file at `fs_path` in the project at `root`.
pub fn virtual_path(root: &str, fs_path: &str) -> (path: String)
    ensures
        path@ == virtual_path_of(root@, fs_path@),
{
    let chars = chars_of(fs_path);
    let base = chars_of(root);
    let skip = base.len();
    let inside = starts_with(fs_path, root) && (skip == 0 || chars.len() == skip || base[skip - 1]
        == '/' || base[skip - 1] == '\\' || chars[skip] == '/' || chars[skip] == '\\');
    if inside {
        let mut rest = String::new();
        let mut i: usize = skip;
        while i < chars.len()
            invariant
                skip <= i <= chars.len(),
                rest@ == chars@.subrange(skip as int, i as int),
            decreases chars.len() - i,
        {
            push_char(&mut rest, chars[i]);
            assert(rest@ =~= chars@.subrange(skip as int, i + 1));
            i += 1;
        }
        assert(chars@.subrange(skip as int, chars.len() as int) =~= fs_path@.skip(
            root@.len() as int,
        ));
        normalize_path_for_graph(rest.as_str())
    } else {
        normalize_path_for_graph(fs_path)
    }
}

/// What the server does with a request.
#[derive(Clone, Copy, Debug, PartialEq, Eq, Structural)]
pub enum Route {
    /// Compile the module and hand it out.
    Module,
    /// Hand out the bundle of an entry.
    Chunk,
    /// Hand out a file of the project as it is.
    Static,
}

/// A path that ends like a script.
pub open spec fn script_path(path: Seq<char>) -> bool {
    is_suffix(path, ".ts"@) || is_suffix(path, ".tsx"@) || is_suffix(path, ".js"@) || is_suffix(
        path,
        ".jsx"@,
    )
}

/// What the server does with a request for `path`: scripts are compiled,
/// paths below `/_nexus/chunk` are bundles, all else is a static file.
pub fn route_for(path: &str) -> (route: Route)
    ensures
        route == if script_path(path@) {
            Route::Module
        } else if is_prefix(path@, "/_nexus/chunk"@) {
            Route::Chunk
        } else {
            Route::Static
        },
{
    if ends_with(path, ".ts") || ends_with(path, ".tsx") || ends_with(path, ".js") || ends_with(
        path,
        ".jsx",
    ) {
        Route::Module
    } else if starts_with(path, "/_nexus/chunk") {
        Route::Chunk
    } else {
        Route::Static
    }
}

/// A file whose changes the watcher reports: not below `node_modules`, and
/// with the extension of a script, a style sheet or an asset.
pub open spec fn watched_path(path: Seq<char>) -> bool {
    !has_part(path, "node_modules"@) && (is_suffix(path, ".js"@) || is_suffix(path, ".ts"@)
        || is_suffix(path, ".jsx"@) || is_suffix(path, ".tsx"@) || is_suffix(path, ".css"@)
        || is_suffix(path, ".json"@) || is_suffix(path, ".png"@) || is_suffix(path, ".jpg"@)
        || is_suffix(path, ".jpeg"@) || is_suffix(path, ".svg"@) || is_suffix(path, ".wasm"@))
}

/// Whether the watcher reports changes of the file at `path`.
pub fn is_watched(path: &str) -> (watched: bool)
    ensures
        watched == watched_path(path@),
{
    if contains_text(path, "node_modules") {
        return false;
    }
    ends_with(path, ".js") || ends_with(path, ".ts") || ends_with(path, ".jsx") || ends_with(
        path,
        ".tsx",
    ) || ends_with(path, ".css") || ends_with(path, ".json") || ends_with(path, ".png")
        || ends_with(path, ".jpg") || ends_with(path, ".jpeg") || ends_with(path, ".svg")
        || ends_with(path, ".wasm")
}

/// The line that tells the browser where the source map of module `id`
/// is.
pub open spec fn source_map_trailer(id: nat) -> Seq<char> {
    "\n//# sourceMappingURL=/_nexus/sourcemap/"@ + decimal_text(id)
}

/// The code of a module with the line that names its source map.
pub fn with_source_map_trailer(code: &str, id: usize) -> (out: String)
    ensures
        out@ == code@ + source_map_trailer(id as nat),
{
    let mut out = String::from_str(code);
    out.append("\n//# sourceMappingURL=/_nexus/sourcemap/");
    out.append(to_decimal(id).as_str());
    assert(out@ =~= code@ + source_map_trailer(id as nat));
    out
}

/// What is put behind a component module in development: the module
/// registers its components for hot refresh, accepts its own replacement,
/// and asks for a refresh.
pub const REFRESH_FOOTER: &'static str = r#"
if (module.hot) {
  window.$RefreshReg$ = (prev, id) => {
    const fullId = module.id + ' ' + id;
    if (window.__NEXUS_REFRESH__) window.__NEXUS_REFRESH__.register(prev, fullId);
  };

  module.hot.accept();

  if (window.__NEXUS_REFRESH__ && !window.__nexus_is_refreshing) {
    window.__nexus_is_refreshing = true;
    setTimeout(() => {
      window.__NEXUS_REFRESH__.performReactRefresh();
      window.__nexus_is_refreshing = false;
    }, 30);
  }
}
"#;

/// A module that gets the refresh footer: a file with markup that is not
/// vendor code.
pub open spec fn takes_refresh_footer(path: Seq<char>, is_vendor: bool) -> bool {
    !is_vendor && (is_suffix(path, ".tsx"@) || is_suffix(path, ".jsx"@))
}

/// What the development server hands out for a module: the compiled code,
/// the line that names the source map where there is one, and the refresh
/// footer for a component module.
pub open spec fn served_code(
    code: Seq<char>,
    has_map: bool,
    id: nat,
    path: Seq<char>,
    is_vendor: bool,
) -> Seq<char> {
    code + (if has_map {
        source_map_trailer(id)
    } else {
        Seq::empty()
    }) + (if takes_refresh_footer(path, is_vendor) {
        REFRESH_FOOTER@
    } else {
        Seq::empty()
    })
}

/// What the development server hands out for module `id` at `path`.
pub fn serve_code(code: &str, has_map: bool, id: usize, path: &str, is_vendor: bool) -> (out: String)
    ensures
        out@ == served_code(code@, has_map, id as nat, path@, is_vendor),
{
    let mut out = if has_map {
        with_source_map_trailer(code, id)
    } else {
        String::from_str(code)
    };
    if !is_vendor && (ends_with(path, ".tsx") || ends_with(path, ".jsx")) {
        out.append(REFRESH_FOOTER);
    }
    assert(out@ =~= served_code(code@, has_map, id as nat, path@, is_vendor));
    out
}

/// `text` with percent escapes decoded, where what comes out is UTF-8.
pub uninterp spec fn percent_decoded(text: Seq<char>) -> Option<Seq<char>>;

/// Decodes percent escapes. Wraps `urlencoding::decode`, which returns a
/// text without `%` as it is.
#[verifier::external_body]
fn percent_decode(text: &str) -> (decoded: Option<String>)
    ensures
        crate::graph::text_of(decoded) == percent_decoded(text@),
        !text@.contains('%') ==> crate::graph::text_of(decoded) == Some(text@),
{
    urlencoding::decode(text).ok().map(|decoded| decoded.into_owned())
}

/// The value of the last pair of a query whose key is `entry`: what stands
/// behind `entry=` in the last of the pieces between `&` that begin so.
pub open spec fn entry_in(query: Seq<char>) -> Option<Seq<char>>
    decreases query.len(),
{
    let k = after_last(query, '&');
    let piece = query.skip(k);
    if is_prefix(piece, "entry="@) {
        Some(piece.skip(6))
    } else if k <= 0 || k > query.len() {
        None
    } else {
        entry_in(query.take(k - 1))
    }
}

/// The entry that a query names, decoded; as it is written where it
/// cannot be decoded.
pub open spec fn decoded_entry(value: Seq<char>) -> Seq<char> {
    match percent_decoded(value) {
        Some(decoded) => decoded,
        None => value,
    }
}

/// What `chunk_entry` gives for a query.
pub open spec fn chunk_entry_of(query: Seq<char>) -> Result<Seq<char>, RequestError> {
    match entry_in(query) {
        Some(value) => if value.len() == 0 {
            Err(RequestError::MissingEntry)
        } else {
            Ok(decoded_entry(value))
        },
        None => Err(RequestError::MissingEntry),
    }
}

/// The text of a result that holds a string.
pub open spec fn text_or_error(found: Result<String, RequestError>) -> Result<
    Seq<char>,
    RequestError,
> {
    match found {
        Ok(text) => Ok(text@),
        Err(e) => Err(e),
    }
}

/// The path of the entry that a chunk request names in its query: the
/// value of its last `entry` pair, with percent escapes decoded. A query
/// without such a pair, or with an empty one, is refused. A value without
/// `%` is the entry as it stands.
pub fn chunk_entry(query: &str) -> (entry: Result<String, RequestError>)
    ensures
        text_or_error(entry) == chunk_entry_of(query@),
        entry_in(query@) matches Some(value) ==> value.len() > 0 && !value.contains('%')
            ==> text_or_error(entry) == Ok::<Seq<char>, RequestError>(value),
{
    let chars = chars_of(query);
    let key = chars_of("entry=");
    proof {
        reveal_strlit("entry=");
    }
    let mut end: usize = chars.len();
    assert(chars@.take(end as int) =~= query@);
    loop
        invariant
            end <= chars.len(),
            chars@ == query@,
            key@ == "entry="@,
            key@.len() == 6,
            entry_in(query@) == entry_in(query@.take(end as int)),
        decreases end,
    {
        let ghost prefix = query@.take(end as int);
        let mut k: usize = end;
        while k > 0 && chars[k - 1] != '&'
            invariant
                k <= end <= chars.len(),
                chars@ == query@,
                forall|i: int| k <= i < end ==> chars@[i] != '&',
            decreases k,
        {
            k -= 1;
        }
        proof {
            lemma_after_last(prefix, '&', k as int);
        }
        let mut matches = end - k >= 6;
        let mut j: usize = 0;
        while matches && j < 6
            invariant
                j <= 6,
                k <= end <= chars.len(),
                key@.len() == 6,
                matches ==> end - k >= 6 && forall|i: int| 0 <= i < j ==> chars@[k + i] == key@[i],
                !matches ==> !is_prefix(chars@.subrange(k as int, end as int), key@),
            decreases 6 - j,
        {
            if chars[k + j] != key[j] {
                matches = false;
                assert(chars@.subrange(k as int, end as int).subrange(0, 6)[j as int] != key@[j as int]);
            }
            j += 1;
        }
        assert(prefix.skip(k as int) =~= chars@.subrange(k as int, end as int));
        if matches {
            assert(chars@.subrange(k as int, end as int).subrange(0, 6) =~= key@);
            let mut value = String::new();
            let mut i: usize = k + 6;
            while i < end
                invariant
                    k + 6 <= i <= end,
                    end <= chars.len(),
                    value@ == chars@.subrange(k + 6, i as int),
                decreases end - i,
            {
                push_char(&mut value, chars[i]);
                assert(value@ =~= chars@.subrange(k + 6, i + 1));
                i += 1;
            }
            assert(value@ =~= prefix.skip(k as int).skip(6));
            if value.as_str().unicode_len() == 0 {
                return Err(RequestError::MissingEntry);
            }
            return match percent_decode(value.as_str()) {
                Some(decoded) => Ok(decoded),
                None => Ok(value),
            };
        }
        if k == 0 {
            return Err(RequestError::MissingEntry);
        }
        assert(prefix.take(k - 1) =~= query@.take(k - 1));
        end = k - 1;
    }
}

} // verus!
