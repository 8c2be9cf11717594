//! Lowering ES module syntax to the calls of the runtime loader: imports
//! become `require` calls, exports become properties of `exports`, and
//! dynamic imports go through the loader's own `import`.

use vstd::prelude::*;
use vstd::string::StringExecFns;
use crate::graph::ImportMap;
use crate::rewrite::{Edit, Replacement, edits_of, push_replacement, rewritable, rewritten, splice};
use crate::syntax::{
    DynamicImport,
    DynamicImportView,
    ExportSpecifier,
    ExportSpecifierView,
    ImportSpecifier,
    ImportSpecifierView,
    ModuleItem,
    ModuleItemView,
    ModuleSyntax,
    ModuleSyntaxView,
    bindings_of,
    dynamics_of,
    entries_of,
    items_of,
    module_syntax,
    read_module,
};

verus! {

/// The path that a specifier resolves to; the specifier itself where the
/// table does not hold it.
pub open spec fn resolved_or(imports: Map<Seq<char>, Seq<char>>, source: Seq<char>) -> Seq<char> {
    if imports.dom().contains(source) {
        imports[source]
    } else {
        source
    }
}

/// `require("<target>")`
pub open spec fn require_call(target: Seq<char>) -> Seq<char> {
    "require(\""@ + target + "\")"@
}

/// The declaration that stands for one binding of an import statement.
pub open spec fn binding_line(specifier: ImportSpecifierView, target: Seq<char>) -> Seq<char> {
    match specifier {
        ImportSpecifierView::Default { local } => "const "@ + local + " = "@ + require_call(target)
            + ".default;"@,
        ImportSpecifierView::Namespace { local } => "const "@ + local + " = "@ + require_call(target)
            + ";"@,
        ImportSpecifierView::Named { imported, local } => "const "@ + local + " = "@ + require_call(
            target,
        ) + "."@ + imported + ";"@,
    }
}

/// The declarations for the bindings of an import statement, one on each
/// line.
pub open spec fn binding_lines(specifiers: Seq<ImportSpecifierView>, target: Seq<char>) -> Seq<char>
    decreases specifiers.len(),
{
    if specifiers.len() == 0 {
        Seq::empty()
    } else if specifiers.len() == 1 {
        binding_line(specifiers[0], target)
    } else {
        binding_lines(specifiers.drop_last(), target) + "\n"@ + binding_line(
            specifiers.last(),
            target,
        )
    }
}

/// The statement that defines `exported` on `exports`, with a getter that
/// returns `value`.
pub open spec fn define_property(exported: Seq<char>, value: Seq<char>) -> Seq<char> {
    "Object.defineProperty(exports, \""@ + exported
        + "\", { enumerable: true, get: function() { return "@ + value + "; } });"@
}

/// For each declared name a line break and the statement that defines it
/// on `exports`.
pub open spec fn define_names(names: Seq<Seq<char>>) -> Seq<char>
    decreases names.len(),
{
    if names.len() == 0 {
        Seq::empty()
    } else {
        define_names(names.drop_last()) + "\n"@ + define_property(names.last(), names.last())
    }
}

/// What the getter of an exported name returns: the local binding, or the
/// property of the module that the list re-exports from.
pub open spec fn export_value(target: Option<Seq<char>>, local: Seq<char>) -> Seq<char> {
    match target {
        Some(t) => require_call(t) + "."@ + local,
        None => local,
    }
}

/// The statements that define the names of an export list on `exports`,
/// one on each line.
pub open spec fn define_list(specifiers: Seq<ExportSpecifierView>, target: Option<Seq<char>>) -> Seq<
    char,
>
    decreases specifiers.len(),
{
    if specifiers.len() == 0 {
        Seq::empty()
    } else if specifiers.len() == 1 {
        define_property(specifiers[0].exported, export_value(target, specifiers[0].local))
    } else {
        define_list(specifiers.drop_last(), target) + "\n"@ + define_property(
            specifiers.last().exported,
            export_value(target, specifiers.last().local),
        )
    }
}

/// The target of a re-export, resolved.
pub open spec fn list_target(imports: Map<Seq<char>, Seq<char>>, source: Option<Seq<char>>) -> Option<
    Seq<char>,
> {
    match source {
        Some(from) => Some(resolved_or(imports, from)),
        None => None,
    }
}

/// The replacements that lower one statement.
pub open spec fn item_edits(item: ModuleItemView, imports: Map<Seq<char>, Seq<char>>) -> Seq<Edit> {
    match item {
        ModuleItemView::Import { start, end, source, specifiers } => seq![
            Edit {
                start: start as int,
                end: end as int,
                text: if specifiers.len() == 0 {
                    require_call(resolved_or(imports, source)) + ";"@
                } else {
                    binding_lines(specifiers, resolved_or(imports, source))
                },
            },
        ],
        ModuleItemView::ExportDefault { start, value_start, .. } => seq![
            Edit { start: start as int, end: value_start as int, text: "exports.default = "@ },
        ],
        ModuleItemView::ExportDeclaration { start, end, declaration_start, names } => if names.len()
            == 0 {
            Seq::empty()
        } else {
            seq![
                Edit { start: start as int, end: declaration_start as int, text: Seq::empty() },
                Edit { start: end as int, end: end as int, text: define_names(names) },
            ]
        },
        ModuleItemView::ExportList { start, end, entries, from } => if entries.len() == 0 {
            Seq::empty()
        } else {
            seq![
                Edit {
                    start: start as int,
                    end: end as int,
                    text: define_list(entries, list_target(imports, from)),
                },
            ]
        },
        ModuleItemView::ExportAll { .. } => Seq::empty(),
    }
}

/// The replacements that lower the statements, in source order.
pub open spec fn statement_edits(items: Seq<ModuleItemView>, imports: Map<Seq<char>, Seq<char>>) -> Seq<
    Edit,
>
    decreases items.len(),
{
    if items.len() == 0 {
        Seq::empty()
    } else {
        statement_edits(items.drop_last(), imports) + item_edits(items.last(), imports)
    }
}

/// `__nexus_import__("<target>")`
pub open spec fn import_call(target: Seq<char>) -> Seq<char> {
    "__nexus_import__(\""@ + target + "\")"@
}

/// The replacements that lower the dynamic imports whose specifier is
/// known, in source order. An import that begins inside the import that
/// was replaced before it gets none: it goes with that one.
pub open spec fn dynamic_edits(imports_found: Seq<DynamicImportView>, imports: Map<Seq<char>, Seq<char>>) -> Seq<
    Edit,
>
    decreases imports_found.len(),
{
    if imports_found.len() == 0 {
        Seq::empty()
    } else {
        let rest = dynamic_edits(imports_found.drop_last(), imports);
        let last = imports_found.last();
        match last.source {
            Some(source) => if rest.len() > 0 && rest.last().end > last.start {
                rest
            } else {
                rest.push(
                    Edit {
                        start: last.start as int,
                        end: last.end as int,
                        text: import_call(resolved_or(imports, source)),
                    },
                )
            },
            None => rest,
        }
    }
}

/// Two lists of replacements in one, from the `i`-th of `a` and the `j`-th
/// of `b` on: always the one that begins first, and that of `a` where both
/// begin at the same place.
pub open spec fn merged(a: Seq<Edit>, b: Seq<Edit>, i: int, j: int) -> Seq<Edit>
    decreases (if i < a.len() { a.len() - i } else { 0 }) + (if j < b.len() { b.len() - j } else { 0 }),
{
    if i < 0 || j < 0 {
        Seq::empty()
    } else if i >= a.len() {
        b.subrange(if j <= b.len() { j } else { b.len() as int }, b.len() as int)
    } else if j >= b.len() {
        a.subrange(i, a.len() as int)
    } else if a[i].start <= b[j].start {
        seq![a[i]] + merged(a, b, i + 1, j)
    } else {
        seq![b[j]] + merged(a, b, i, j + 1)
    }
}

/// All replacements that lower a module, in the order of the text.
pub open spec fn cjs_edits(syntax: ModuleSyntaxView, imports: Map<Seq<char>, Seq<char>>) -> Seq<Edit> {
    merged(
        statement_edits(syntax.items, imports),
        dynamic_edits(syntax.dynamic_imports, imports),
        0,
        0,
    )
}

/// The lowered text of a module: the source with the replacements made;
/// the source as it is where the parser met a syntax error, or where the
/// replacements cannot be made.
pub open spec fn cjs_text(source: Seq<char>, syntax: ModuleSyntaxView, imports: Map<Seq<char>, Seq<char>>) -> Seq<
    char,
> {
    if syntax.errors > 0 || !rewritable(source, cjs_edits(syntax, imports)) {
        source
    } else {
        rewritten(source, cjs_edits(syntax, imports))
    }
}

fn resolved<'a>(imports: &'a ImportMap, source: &'a String) -> (target: &'a String)
    ensures
        target@ == resolved_or(imports@, source@),
{
    match imports.get(source.as_str()) {
        Some(path) => path,
        None => source,
    }
}

fn push_require(out: &mut String, target: &str)
    ensures
        final(out)@ == old(out)@ + require_call(target@),
{
    out.append("require(\"");
    out.append(target);
    out.append("\")");
    assert(out@ =~= old(out)@ + require_call(target@));
}

fn push_binding_line(out: &mut String, specifier: &ImportSpecifier, target: &str)
    ensures
        final(out)@ == old(out)@ + binding_line(specifier@, target@),
{
    out.append("const ");
    match specifier {
        ImportSpecifier::Default { local } => {
            out.append(local.as_str());
            out.append(" = ");
            push_require(out, target);
            out.append(".default;");
        },
        ImportSpecifier::Namespace { local } => {
            out.append(local.as_str());
            out.append(" = ");
            push_require(out, target);
            out.append(";");
        },
        ImportSpecifier::Named { imported, local } => {
            out.append(local.as_str());
            out.append(" = ");
            push_require(out, target);
            out.append(".");
            out.append(imported.as_str());
            out.append(";");
        },
    }
    assert(out@ =~= old(out)@ + binding_line(specifier@, target@));
}

fn import_text(specifiers: &Vec<ImportSpecifier>, target: &str) -> (text: String)
    ensures
        text@ == if specifiers.len() == 0 {
            require_call(target@) + ";"@
        } else {
            binding_lines(bindings_of(specifiers@), target@)
        },
{
    let ghost all = bindings_of(specifiers@);
    let mut text = String::new();
    if specifiers.len() == 0 {
        push_require(&mut text, target);
        text.append(";");
        assert(text@ =~= require_call(target@) + ";"@);
        return text;
    }
    let mut i: usize = 0;
    while i < specifiers.len()
        invariant
            i <= specifiers.len(),
            all == bindings_of(specifiers@),
            text@ == binding_lines(all.take(i as int), target@),
        decreases specifiers.len() - i,
    {
        let ghost before = text@;
        assert(all.take(i + 1).drop_last() =~= all.take(i as int));
        assert(all.take(i + 1).last() == specifiers@[i as int]@);
        if i > 0 {
            text.append("\n");
        }
        push_binding_line(&mut text, &specifiers[i], target);
        assert(text@ =~= binding_lines(all.take(i + 1), target@)) by {
            if i == 0 {
                assert(before =~= Seq::<char>::empty());
                assert(all.take(1)[0] == specifiers@[0]@);
            }
        }
        i += 1;
    }
    assert(all.take(specifiers.len() as int) =~= all);
    text
}

fn push_define(out: &mut String, exported: &str, target: Option<&str>, local: &str)
    ensures
        final(out)@ == old(out)@ + define_property(
            exported@,
            export_value(
                match target {
                    Some(t) => Some(t@),
                    None => None,
                },
                local@,
            ),
        ),
{
    out.append("Object.defineProperty(exports, \"");
    out.append(exported);
    out.append("\", { enumerable: true, get: function() { return ");
    match target {
        Some(t) => {
            push_require(out, t);
            out.append(".");
            out.append(local);
        },
        None => {
            out.append(local);
        },
    }
    out.append("; } });");
    assert(out@ =~= old(out)@ + define_property(
        exported@,
        export_value(
            match target {
                Some(t) => Some(t@),
                None => None,
            },
            local@,
        ),
    ));
}

fn names_text(names: &Vec<String>) -> (text: String)
    ensures
        text@ == define_names(crate::graph::names_of(names@)),
{
    let ghost all = crate::graph::names_of(names@);
    let mut text = String::new();
    let mut i: usize = 0;
    while i < names.len()
        invariant
            i <= names.len(),
            all == crate::graph::names_of(names@),
            text@ == define_names(all.take(i as int)),
        decreases names.len() - i,
    {
        let ghost before = text@;
        assert(all.take(i + 1).drop_last() =~= all.take(i as int));
        assert(all.take(i + 1).last() == names[i as int]@);
        text.append("\n");
        push_define(&mut text, names[i].as_str(), None, names[i].as_str());
        assert(text@ =~= before + "\n"@ + define_property(names[i as int]@, names[i as int]@));
        i += 1;
    }
    assert(all.take(names.len() as int) =~= all);
    text
}

fn list_text(specifiers: &Vec<ExportSpecifier>, target: Option<&str>) -> (text: String)
    ensures
        text@ == define_list(
            entries_of(specifiers@),
            match target {
                Some(t) => Some(t@),
                None => None,
            },
        ),
{
    let ghost all = entries_of(specifiers@);
    let ghost goal: Option<Seq<char>> = match target {
        Some(t) => Some(t@),
        None => None,
    };
    let mut text = String::new();
    let mut i: usize = 0;
    while i < specifiers.len()
        invariant
            i <= specifiers.len(),
            goal == (match target {
                Some(t) => Some(t@),
                None => None,
            }),
            all == entries_of(specifiers@),
            text@ == define_list(all.take(i as int), goal),
        decreases specifiers.len() - i,
    {
        let ghost before = text@;
        assert(all.take(i + 1).drop_last() =~= all.take(i as int));
        assert(all.take(i + 1).last() == specifiers@[i as int]@);
        if i > 0 {
            text.append("\n");
        }
        push_define(
            &mut text,
            specifiers[i].exported.as_str(),
            target,
            specifiers[i].local.as_str(),
        );
        assert(text@ =~= define_list(all.take(i + 1), goal)) by {
            if i == 0 {
                assert(before =~= Seq::<char>::empty());
                assert(all.take(1)[0] == specifiers@[0]@);
            }
        }
        i += 1;
    }
    assert(all.take(specifiers.len() as int) =~= all);
    text
}

fn push_item_replacements(out: &mut Vec<Replacement>, item: &ModuleItem, imports: &ImportMap)
    ensures
        edits_of(final(out)@) == edits_of(old(out)@) + item_edits(item@, imports@),
{
    let ghost before = edits_of(out@);
    match item {
        ModuleItem::Import { start, end, source, specifiers } => {
            let text = import_text(specifiers, resolved(imports, source).as_str());
            push_replacement(out, *start, *end, text);
        },
        ModuleItem::ExportDefault { start, value_start, .. } => {
            push_replacement(out, *start, *value_start, String::from_str("exports.default = "));
        },
        ModuleItem::ExportDeclaration { start, end, declaration_start, names } => {
            if names.len() > 0 {
                push_replacement(out, *start, *declaration_start, String::new());
                push_replacement(out, *end, *end, names_text(names));
            }
        },
        ModuleItem::ExportList { start, end, entries: specifiers, from: source } => {
            if specifiers.len() > 0 {
                let text = match source {
                    Some(from) => list_text(specifiers, Some(resolved(imports, from).as_str())),
                    None => list_text(specifiers, None),
                };
                push_replacement(out, *start, *end, text);
            }
        },
        ModuleItem::ExportAll { .. } => {},
    }
    assert(edits_of(out@) =~= before + item_edits(item@, imports@));
}

fn statement_replacements(items: &Vec<ModuleItem>, imports: &ImportMap) -> (reps: Vec<Replacement>)
    ensures
        edits_of(reps@) == statement_edits(items_of(items@), imports@),
{
    let ghost all = items_of(items@);
    let mut reps: Vec<Replacement> = Vec::new();
    assert(edits_of(reps@) =~= Seq::<Edit>::empty());
    let mut i: usize = 0;
    while i < items.len()
        invariant
            i <= items.len(),
            all == items_of(items@),
            edits_of(reps@) == statement_edits(all.take(i as int), imports@),
        decreases items.len() - i,
    {
        assert(all.take(i + 1).drop_last() =~= all.take(i as int));
        assert(all.take(i + 1).last() == items@[i as int]@);
        push_item_replacements(&mut reps, &items[i], imports);
        i += 1;
    }
    assert(all.take(items.len() as int) =~= all);
    reps
}

fn dynamic_replacements(found: &Vec<DynamicImport>, imports: &ImportMap) -> (reps: Vec<Replacement>)
    ensures
        edits_of(reps@) == dynamic_edits(dynamics_of(found@), imports@),
{
    let ghost all = dynamics_of(found@);
    let mut reps: Vec<Replacement> = Vec::new();
    assert(edits_of(reps@) =~= Seq::<Edit>::empty());
    let mut i: usize = 0;
    while i < found.len()
        invariant
            i <= found.len(),
            all == dynamics_of(found@),
            edits_of(reps@) == dynamic_edits(all.take(i as int), imports@),
        decreases found.len() - i,
    {
        assert(all.take(i + 1).drop_last() =~= all.take(i as int));
        assert(all.take(i + 1).last() == found@[i as int]@);
        match &found[i].source {
            Some(source) => {
                let inside = reps.len() > 0 && reps[reps.len() - 1].end > found[i].start;
                assert(inside == (edits_of(reps@).len() > 0 && edits_of(reps@).last().end
                    > found[i as int].start));
                if !inside {
                    let mut text = String::from_str("__nexus_import__(\"");
                    text.append(resolved(imports, source).as_str());
                    text.append("\")");
                    assert(text@ =~= import_call(resolved_or(imports@, source@)));
                    push_replacement(&mut reps, found[i].start, found[i].end, text);
                }
            },
            None => {},
        }
        i += 1;
    }
    assert(all.take(found.len() as int) =~= all);
    reps
}

fn merge(a: &Vec<Replacement>, b: &Vec<Replacement>) -> (all: Vec<Replacement>)
    ensures
        edits_of(all@) == merged(edits_of(a@), edits_of(b@), 0, 0),
{
    let ghost x = edits_of(a@);
    let ghost y = edits_of(b@);
    let mut all: Vec<Replacement> = Vec::new();
    assert(edits_of(all@) =~= Seq::<Edit>::empty());
    let mut i: usize = 0;
    let mut j: usize = 0;
    while i < a.len() || j < b.len()
        invariant
            i <= a.len(),
            j <= b.len(),
            x == edits_of(a@),
            y == edits_of(b@),
            edits_of(all@) + merged(x, y, i as int, j as int) == merged(x, y, 0, 0),
        decreases (a.len() - i) + (b.len() - j),
    {
        let ghost before = edits_of(all@);
        let from_a = if i >= a.len() {
            false
        } else if j >= b.len() {
            true
        } else {
            a[i].start <= b[j].start
        };
        if from_a {
            push_replacement(&mut all, a[i].start, a[i].end, a[i].text.clone());
            assert(x[i as int] == a[i as int]@);
            assert(seq![x[i as int]] + merged(x, y, i + 1, j as int) =~= merged(
                x,
                y,
                i as int,
                j as int,
            )) by {
                if j >= b.len() {
                    assert(x.subrange(i as int, x.len() as int) =~= seq![x[i as int]] + x.subrange(
                        i + 1,
                        x.len() as int,
                    ));
                    assert(y.subrange(j as int, y.len() as int) =~= Seq::<Edit>::empty());
                    lemma_merged_tail(x, y, i + 1, j as int);
                }
            }
            assert(edits_of(all@) + merged(x, y, i + 1, j as int) =~= before + merged(
                x,
                y,
                i as int,
                j as int,
            ));
            i += 1;
        } else {
            push_replacement(&mut all, b[j].start, b[j].end, b[j].text.clone());
            assert(y[j as int] == b[j as int]@);
            assert(seq![y[j as int]] + merged(x, y, i as int, j + 1) =~= merged(
                x,
                y,
                i as int,
                j as int,
            )) by {
                if i >= a.len() {
                    assert(y.subrange(j as int, y.len() as int) =~= seq![y[j as int]] + y.subrange(
                        j + 1,
                        y.len() as int,
                    ));
                }
            }
            assert(edits_of(all@) + merged(x, y, i as int, j + 1) =~= before + merged(
                x,
                y,
                i as int,
                j as int,
            ));
            j += 1;
        }
    }
    assert(merged(x, y, i as int, j as int) =~= Seq::<Edit>::empty());
    assert(edits_of(all@) + Seq::<Edit>::empty() =~= edits_of(all@));
    all
}

/// Once the second list is used up, what is left of the merge is what is
/// left of the first.
proof fn lemma_merged_tail(a: Seq<Edit>, b: Seq<Edit>, i: int, j: int)
    requires
        0 <= i <= a.len(),
        j >= b.len(),
        0 <= j,
    ensures
        merged(a, b, i, j) =~= a.subrange(i, a.len() as int),
{
    if i >= a.len() {
        assert(b.subrange(b.len() as int, b.len() as int) =~= Seq::<Edit>::empty());
    }
}

/// Lowers a module whose syntax is known: each import statement becomes
/// `require` calls, each export a property of `exports`, each dynamic
/// import with a known specifier a call of the loader. Specifiers are
/// replaced by the paths that `imports` gives, and stay where it gives
/// none. The text is returned as it is where the parser met syntax errors,
/// and where the spans of the syntax do not fit the text.
pub fn transform_cjs_syntax(source: &str, syntax: &ModuleSyntax, imports: &ImportMap) -> (out: String)
    ensures
        out@ == cjs_text(source@, syntax@, imports@),
{
    if syntax.errors > 0 {
        return String::from_str(source);
    }
    let statements = statement_replacements(&syntax.items, imports);
    let dynamics = dynamic_replacements(&syntax.dynamic_imports, imports);
    let all = merge(&statements, &dynamics);
    match splice(source, &all) {
        Some(text) => text,
        None => String::from_str(source),
    }
}

/// Lowers a source file: reads its module syntax in the dialect that the
/// extension of `path` names, and lowers it.
pub fn transform_cjs(source: &str, path: &str, imports: &ImportMap) -> (out: String)
    ensures
        out@ == cjs_text(source@, module_syntax(source@, path@), imports@),
{
    let syntax = read_module(source, path);
    transform_cjs_syntax(source, &syntax, imports)
}

} // verus!
