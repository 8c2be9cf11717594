//! The text of what is emitted: modules wrapped for the loader's registry,
//! the files of a bundle, and the page that loads them.

use vstd::prelude::*;
use vstd::string::StringExecFns;
use crate::cjs::{cjs_text, transform_cjs};
use crate::compiler::{json_of, json_text};
use crate::graph::{GraphView, Module, ModuleGraph, ModuleId, ModuleView, names_of};
use crate::names::NameSet;
use crate::partition::{Chunk, map_lines};
use crate::runtime::NEXUS_RUNTIME_JS;
use crate::shake::{shaken_text, transform_tree_shake};
use crate::syntax::module_syntax;
use crate::text::{contains_text, has_part, replace_all, replaced};

verus! {

/// A module wrapped for the registry: a call that registers, under the
/// module's path, a factory with the module's code as its body.
pub open spec fn registered(path: Seq<char>, body: Seq<char>) -> Seq<char> {
    "__nexus_register__(\""@ + path + "\", function(require, module, exports) {\n"@ + body
        + "\n});\n"@
}

/// Wraps the code of a module for the registry.
pub fn register_module(path: &str, body: &str) -> (out: String)
    ensures
        out@ == registered(path@, body@),
{
    let mut out = String::from_str("__nexus_register__(\"");
    out.append(path);
    out.append("\", function(require, module, exports) {\n");
    out.append(body);
    out.append("\n});\n");
    assert(out@ =~= registered(path@, body@));
    out
}

/// The call that starts the application: it requires the entry.
pub open spec fn bootstrap(entry: Seq<char>) -> Seq<char> {
    "__nexus_require__(\""@ + entry + "\");\n"@
}

/// The call that starts the application.
pub fn bootstrap_call(entry: &str) -> (out: String)
    ensures
        out@ == bootstrap(entry@),
{
    let mut out = String::from_str("__nexus_require__(\"");
    out.append(entry);
    out.append("\");\n");
    assert(out@ =~= bootstrap(entry@));
    out
}

/// Names between braces, each in quotes, with a comma and a blank between
/// them.
pub open spec fn braced_names(names: Seq<Seq<char>>) -> Seq<char> {
    "{"@ + quoted_names(names) + "}"@
}

/// Names in quotes, with a comma and a blank between them.
pub open spec fn quoted_names(names: Seq<Seq<char>>) -> Seq<char>
    decreases names.len(),
{
    if names.len() == 0 {
        Seq::empty()
    } else if names.len() == 1 {
        "\""@ + names[0] + "\""@
    } else {
        quoted_names(names.drop_last()) + ", "@ + "\""@ + names.last() + "\""@
    }
}

/// The comment that tells which exports of a module are used.
pub open spec fn uses_comment(names: Seq<Seq<char>>) -> Seq<char> {
    "// Using: "@ + braced_names(names) + "\n"@
}

fn uses_line(used: &NameSet) -> (out: String)
    ensures
        out@ == uses_comment(used.listed()),
{
    let names = used.names();
    let ghost list = names_of(names@);
    let mut out = String::from_str("// Using: ");
    out.append("{");
    let ghost head = out@;
    let mut i: usize = 0;
    assert(list.take(0) =~= Seq::<Seq<char>>::empty());
    assert(head + quoted_names(list.take(0)) =~= head);
    while i < names.len()
        invariant
            i <= names.len(),
            list == names_of(names@),
            out@ == head + quoted_names(list.take(i as int)),
        decreases names.len() - i,
    {
        let ghost before = out@;
        assert(list.take(i + 1).drop_last() =~= list.take(i as int));
        assert(list.take(i + 1).last() == names[i as int]@);
        if i > 0 {
            out.append(", ");
        }
        out.append("\"");
        out.append(names[i].as_str());
        out.append("\"");
        assert(out@ =~= head + quoted_names(list.take(i + 1))) by {
            if i == 0 {
                assert(before =~= head);
                assert(list.take(1)[0] == names[0]@);
            }
        }
        i += 1;
    }
    assert(list.take(names.len() as int) =~= list);
    out.append("}");
    out.append("\n");
    assert(out@ =~= uses_comment(used.listed()));
    out
}

/// The code of a module in a production bundle: the source shaken for the
/// names in `used`, and what comes of it lowered with the paths in
/// `imports`.
pub open spec fn processed(
    source: Seq<char>,
    path: Seq<char>,
    used: Set<Seq<char>>,
    imports: Map<Seq<char>, Seq<char>>,
) -> Seq<char> {
    let shaken = shaken_text(source, module_syntax(source, path), used);
    cjs_text(shaken, module_syntax(shaken, path), imports)
}

/// The code of a module in a development bundle: the source lowered with
/// the paths in `imports`.
pub open spec fn lowered(source: Seq<char>, path: Seq<char>, imports: Map<Seq<char>, Seq<char>>) -> Seq<
    char,
> {
    cjs_text(source, module_syntax(source, path), imports)
}

/// Shakes and lowers a module for a production bundle.
pub fn process_module(module: &Module, used: &NameSet) -> (body: String)
    ensures
        body@ == processed(module@.source, module@.path, used@, module@.imports),
{
    let shaken = transform_tree_shake(module.source.as_str(), module.path.as_str(), used);
    transform_cjs(shaken.as_str(), module.path.as_str(), &module.imports)
}

/// A module of a production bundle: wrapped for the registry, with a
/// comment that tells which of its exports are used.
pub open spec fn bundled(module: ModuleView, used: NameSet) -> Seq<char> {
    registered(
        module.path,
        uses_comment(used.listed()) + processed(module.source, module.path, used@, module.imports),
    )
}

/// The first `upto` of the modules `ids` as they stand in a production
/// bundle, one after the other: each shaken for the names that are used of
/// it, lowered and wrapped.
pub open spec fn bundled_all(g: GraphView, ids: Seq<ModuleId>, used: Seq<NameSet>, upto: int) -> Seq<
    char,
>
    decreases upto,
{
    if upto <= 0 {
        Seq::empty()
    } else {
        bundled_all(g, ids, used, upto - 1) + bundled(
            g.modules[ids[upto - 1].0 as int],
            used[ids[upto - 1].0 as int],
        )
    }
}

/// The text of the modules `ids` in a production bundle: each module
/// shaken, lowered and wrapped, in the order of `ids`.
pub fn emit_modules(graph: &ModuleGraph, ids: &Vec<ModuleId>, used_exports: &Vec<NameSet>) -> (out:
    String)
    requires
        used_exports.len() == graph@.len(),
        forall|k: int| 0 <= k < ids.len() ==> graph@.valid(#[trigger] ids[k]),
    ensures
        out@ == bundled_all(graph@, ids@, used_exports@, ids.len() as int),
{
    let mut out = String::new();
    let mut i: usize = 0;
    while i < ids.len()
        invariant
            i <= ids.len(),
            used_exports.len() == graph@.len(),
            forall|k: int| 0 <= k < ids.len() ==> graph@.valid(#[trigger] ids[k]),
            out@ == bundled_all(graph@, ids@, used_exports@, i as int),
        decreases ids.len() - i,
    {
        let id = ids[i];
        let used = &used_exports[id.0];
        let ghost before = out@;
        match graph.module(id) {
            Some(module) => {
                let body = process_module(module, used);
                let mut inner = uses_line(used);
                inner.append(body.as_str());
                let wrapped = register_module(module.path.as_str(), inner.as_str());
                out.append(wrapped.as_str());
                assert(out@ =~= before + bundled(graph@.modules[id.0 as int], *used));
            },
            None => {},
        }
        i += 1;
    }
    out
}

/// A text as a JSON string.
pub open spec fn json_literal(text: Seq<char>) -> Seq<char> {
    json_text(text)
}

/// The members of a JSON object, one for each line of a chunk map.
pub open spec fn json_members(lines: Seq<(Seq<char>, Seq<char>)>) -> Seq<char>
    decreases lines.len(),
{
    if lines.len() == 0 {
        Seq::empty()
    } else if lines.len() == 1 {
        json_literal(lines[0].0) + ":"@ + json_literal(lines[0].1)
    } else {
        json_members(lines.drop_last()) + ","@ + json_literal(lines.last().0) + ":"@
            + json_literal(lines.last().1)
    }
}

/// The statement that hands the chunk map to the loader.
pub open spec fn chunk_map_script(lines: Seq<(Seq<char>, Seq<char>)>) -> Seq<char> {
    "\nwindow.__nexus_chunk_map__ = {"@ + json_members(lines) + "};\n"@
}

fn push_json(out: &mut String, text: &str)
    ensures
        final(out)@ == old(out)@ + json_literal(text@),
{
    let json = json_of(text);
    out.append(json.as_str());
}

/// The statement that hands the chunk map to the loader.
pub fn chunk_map_statement(chunk_map: &Vec<(String, String)>) -> (out: String)
    ensures
        out@ == chunk_map_script(map_lines(chunk_map@)),
{
    let ghost lines = map_lines(chunk_map@);
    let mut out = String::from_str("\nwindow.__nexus_chunk_map__ = {");
    let ghost head = out@;
    let mut i: usize = 0;
    assert(lines.take(0) =~= Seq::<(Seq<char>, Seq<char>)>::empty());
    assert(head + json_members(lines.take(0)) =~= head);
    while i < chunk_map.len()
        invariant
            i <= chunk_map.len(),
            lines == map_lines(chunk_map@),
            out@ == head + json_members(lines.take(i as int)),
        decreases chunk_map.len() - i,
    {
        let ghost before = out@;
        assert(lines.take(i + 1).drop_last() =~= lines.take(i as int));
        assert(lines.take(i + 1).last() == (chunk_map[i as int].0@, chunk_map[i as int].1@));
        if i > 0 {
            out.append(",");
        }
        push_json(&mut out, chunk_map[i].0.as_str());
        out.append(":");
        push_json(&mut out, chunk_map[i].1.as_str());
        assert(out@ =~= head + json_members(lines.take(i + 1))) by {
            if i == 0 {
                assert(before =~= head);
                assert(lines.take(1)[0] == (chunk_map[0].0@, chunk_map[0].1@));
            }
        }
        i += 1;
    }
    assert(lines.take(chunk_map.len() as int) =~= lines);
    out.append("};\n");
    assert(out@ =~= chunk_map_script(lines));
    out
}

/// What stands behind the modules in the file of a chunk: in the entry
/// chunk the chunk map, where it holds anything, and the call that starts
/// the application; nothing in other chunks.
pub open spec fn chunk_tail(
    is_entry: bool,
    lines: Seq<(Seq<char>, Seq<char>)>,
    entry: Seq<char>,
) -> Seq<char> {
    if is_entry {
        (if lines.len() > 0 {
            chunk_map_script(lines)
        } else {
            Seq::empty()
        }) + "\n"@ + bootstrap(entry)
    } else {
        Seq::empty()
    }
}

/// The file of a chunk: its modules, each shaken, lowered and wrapped, and
/// behind them what the entry chunk ends with.
pub open spec fn chunk_file(
    g: GraphView,
    chunk: Chunk,
    used: Seq<NameSet>,
    lines: Seq<(Seq<char>, Seq<char>)>,
    entry: Seq<char>,
) -> Seq<char> {
    bundled_all(g, chunk.modules@, used, chunk.modules.len() as int) + chunk_tail(
        chunk.is_entry,
        lines,
        entry,
    )
}

/// The vendor file: the loader, and behind it the vendor modules, each
/// shaken, lowered and wrapped.
pub open spec fn vendor_file(g: GraphView, vendor: Seq<ModuleId>, used: Seq<NameSet>) -> Seq<char> {
    NEXUS_RUNTIME_JS@ + "\n"@ + bundled_all(g, vendor, used, vendor.len() as int)
}

/// The file of a chunk: its modules, and behind them, in the entry chunk,
/// the chunk map and the call that starts the application.
pub fn emit_chunk(
    graph: &ModuleGraph,
    chunk: &Chunk,
    used_exports: &Vec<NameSet>,
    chunk_map: &Vec<(String, String)>,
    entry_path: &str,
) -> (out: String)
    requires
        used_exports.len() == graph@.len(),
        forall|k: int| 0 <= k < chunk.modules.len() ==> graph@.valid(#[trigger] chunk.modules[k]),
    ensures
        out@ == chunk_file(graph@, *chunk, used_exports@, map_lines(chunk_map@), entry_path@),
{
    let mut out = emit_modules(graph, &chunk.modules, used_exports);
    let ghost modules_text = out@;
    if chunk.is_entry {
        if chunk_map.len() > 0 {
            out.append(chunk_map_statement(chunk_map).as_str());
        }
        out.append("\n");
        out.append(bootstrap_call(entry_path).as_str());
    }
    assert(out@ =~= modules_text + chunk_tail(chunk.is_entry, map_lines(chunk_map@), entry_path@));
    out
}

/// The vendor file: the loader, and behind it the vendor modules.
pub fn emit_vendor(graph: &ModuleGraph, vendor: &Vec<ModuleId>, used_exports: &Vec<NameSet>) -> (out:
    String)
    requires
        used_exports.len() == graph@.len(),
        forall|k: int| 0 <= k < vendor.len() ==> graph@.valid(#[trigger] vendor[k]),
    ensures
        out@ == vendor_file(graph@, vendor@, used_exports@),
{
    let modules = emit_modules(graph, vendor, used_exports);
    let mut out = String::from_str(NEXUS_RUNTIME_JS);
    out.append("\n");
    out.append(modules.as_str());
    assert(out@ =~= NEXUS_RUNTIME_JS@ + "\n"@ + modules@);
    out
}

/// The style sheets of the first `upto` of the modules `ids`, each with a
/// line break behind it.
pub open spec fn style_text(g: GraphView, ids: Seq<ModuleId>, upto: int) -> Seq<char>
    decreases upto,
{
    if upto <= 0 {
        Seq::empty()
    } else {
        let rest = style_text(g, ids, upto - 1);
        match g.modules[ids[upto - 1].0 as int].css {
            Some(css) => rest + css + "\n"@,
            None => rest,
        }
    }
}

/// The style sheet of a bundle: the style sheets of the modules `ids`, in
/// their order.
pub fn emit_styles(graph: &ModuleGraph, ids: &Vec<ModuleId>) -> (out: String)
    requires
        forall|k: int| 0 <= k < ids.len() ==> graph@.valid(#[trigger] ids[k]),
    ensures
        out@ == style_text(graph@, ids@, ids.len() as int),
{
    let mut out = String::new();
    let mut i: usize = 0;
    while i < ids.len()
        invariant
            i <= ids.len(),
            forall|k: int| 0 <= k < ids.len() ==> graph@.valid(#[trigger] ids[k]),
            out@ == style_text(graph@, ids@, i as int),
        decreases ids.len() - i,
    {
        let ghost before = out@;
        match graph.module(ids[i]) {
            Some(module) => {
                match &module.css {
                    Some(css) => {
                        out.append(css.as_str());
                        out.append("\n");
                        assert(out@ =~= before + css@ + "\n"@);
                    },
                    None => {},
                }
            },
            None => {},
        }
        i += 1;
    }
    out
}

/// The tags that load a bundle.
pub const BUNDLE_TAGS: &'static str = r#"
    <link rel="stylesheet" href="/assets/style.css">
    <script src="/assets/vendor.js"></script>
    <script src="/assets/main.js"></script>
"#;

/// The page with the tags that load the bundle: before each `</body>`, or
/// at the end of a page without one.
pub open spec fn page_with_tags(html: Seq<char>) -> Seq<char> {
    if has_part(html, "</body>"@) {
        replaced(html, "</body>"@, BUNDLE_TAGS@ + "</body>"@)
    } else {
        html + BUNDLE_TAGS@
    }
}

/// Puts the tags that load the bundle into a page.
pub fn inject_tags(html: &str) -> (out: String)
    ensures
        out@ == page_with_tags(html@),
{
    if contains_text(html, "</body>") {
        let mut with = String::from_str(BUNDLE_TAGS);
        with.append("</body>");
        replace_all(html, "</body>", with.as_str())
    } else {
        let mut out = String::from_str(html);
        out.append(BUNDLE_TAGS);
        out
    }
}

/// The page that loads a bundle, for a project without a page of its own.
pub fn default_page() -> (out: String)
    ensures
        out@ == "<!DOCTYPE html><html><body>"@ + BUNDLE_TAGS@ + "</body></html>"@,
{
    let mut out = String::from_str("<!DOCTYPE html><html><body>");
    out.append(BUNDLE_TAGS);
    out.append("</body></html>");
    out
}

} // verus!
