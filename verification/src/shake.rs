//! The tree shaker: exports that nothing uses are erased from a module,
//! declaration and all.

use vstd::prelude::*;
use vstd::string::StringExecFns;
use crate::names::NameSet;
use vstd::utf8::{encode_utf8, encode_utf8_decode_utf8};
use crate::rewrite::{
    Edit,
    Replacement,
    edits_of,
    push_replacement,
    rewritable,
    rewritten,
    splice,
    spliced,
};
use crate::syntax::{
    ExportSpecifier,
    ExportSpecifierView,
    ModuleItem,
    ModuleItemView,
    ModuleSyntax,
    ModuleSyntaxView,
    entries_of,
    items_of,
    module_syntax,
    read_module,
};

verus! {

/// One of the names is used.
pub open spec fn any_used(names: Seq<Seq<char>>, used: Set<Seq<char>>) -> bool {
    exists|i: int| 0 <= i < names.len() && used.contains(#[trigger] names[i])
}

/// One name of an export list as it is written: the name alone, or the
/// local name, `as`, and the exported name.
pub open spec fn specifier_text(specifier: ExportSpecifierView) -> Seq<char> {
    if specifier.local == specifier.exported {
        specifier.local
    } else {
        specifier.local + " as "@ + specifier.exported
    }
}

/// The number of names of an export list whose exported name is used.
pub open spec fn kept_count(specifiers: Seq<ExportSpecifierView>, used: Set<Seq<char>>) -> nat
    decreases specifiers.len(),
{
    if specifiers.len() == 0 {
        0
    } else {
        kept_count(specifiers.drop_last(), used) + if used.contains(specifiers.last().exported) {
            1nat
        } else {
            0nat
        }
    }
}

/// The names of an export list whose exported name is used, as they are
/// written, in source order, with a comma and a blank between them.
pub open spec fn kept_text(specifiers: Seq<ExportSpecifierView>, used: Set<Seq<char>>) -> Seq<char>
    decreases specifiers.len(),
{
    if specifiers.len() == 0 {
        Seq::empty()
    } else {
        let rest = kept_text(specifiers.drop_last(), used);
        if !used.contains(specifiers.last().exported) {
            rest
        } else if kept_count(specifiers.drop_last(), used) == 0 {
            specifier_text(specifiers.last())
        } else {
            rest + ", "@ + specifier_text(specifiers.last())
        }
    }
}

/// An export list with the given names, with `from` where it re-exports.
pub open spec fn export_statement(names: Seq<char>, source: Option<Seq<char>>) -> Seq<char> {
    match source {
        Some(from) => "export { "@ + names + " } from \""@ + from + "\";"@,
        None => "export { "@ + names + " };"@,
    }
}

/// The replacement that erases a statement.
pub open spec fn erased(start: usize, end: usize) -> Edit {
    Edit { start: start as int, end: end as int, text: Seq::empty() }
}

/// The replacements that shake one statement: a default export goes
/// unless `default` is used; a declaration goes unless one of the names it
/// binds is used; an export list keeps the names that are used, and goes
/// where none is.
pub open spec fn shake_item(item: ModuleItemView, used: Set<Seq<char>>) -> Seq<Edit> {
    match item {
        ModuleItemView::ExportDefault { start, end, .. } => if used.contains("default"@) {
            Seq::empty()
        } else {
            seq![erased(start, end)]
        },
        ModuleItemView::ExportDeclaration { start, end, names, .. } => if any_used(names, used) {
            Seq::empty()
        } else {
            seq![erased(start, end)]
        },
        ModuleItemView::ExportList { start, end, entries, from } => if entries.len() == 0 {
            Seq::empty()
        } else if kept_count(entries, used) == 0 {
            seq![erased(start, end)]
        } else {
            seq![
                Edit {
                    start: start as int,
                    end: end as int,
                    text: export_statement(kept_text(entries, used), from),
                },
            ]
        },
        _ => Seq::empty(),
    }
}

/// The replacements that shake the statements, in source order.
pub open spec fn shake_edits(items: Seq<ModuleItemView>, used: Set<Seq<char>>) -> Seq<Edit>
    decreases items.len(),
{
    if items.len() == 0 {
        Seq::empty()
    } else {
        shake_edits(items.drop_last(), used) + shake_item(items.last(), used)
    }
}

/// The shaken text of a module: the source with the replacements made; the
/// source as it is where the parser met a syntax error, or where the
/// replacements cannot be made.
pub open spec fn shaken_text(source: Seq<char>, syntax: ModuleSyntaxView, used: Set<Seq<char>>) -> Seq<
    char,
> {
    if syntax.errors > 0 || !rewritable(source, shake_edits(syntax.items, used)) {
        source
    } else {
        rewritten(source, shake_edits(syntax.items, used))
    }
}

/// Where no statement of a module is to be changed for the names in
/// use, shaking hands the source back as it came.
pub proof fn law_nothing_to_shake_changes_nothing(
    source: Seq<char>,
    syntax: ModuleSyntaxView,
    used: Set<Seq<char>>,
)
    requires
        shake_edits(syntax.items, used).len() == 0,
    ensures
        shaken_text(source, syntax, used) == source,
{
    let bytes = encode_utf8(source);
    assert(spliced(bytes, shake_edits(syntax.items, used), 0, 0) =~= bytes);
    encode_utf8_decode_utf8(source);
}

fn uses_any(names: &Vec<String>, used: &NameSet) -> (found: bool)
    ensures
        found == any_used(crate::graph::names_of(names@), used@),
{
    let ghost all = crate::graph::names_of(names@);
    let mut i: usize = 0;
    while i < names.len()
        invariant
            i <= names.len(),
            all == crate::graph::names_of(names@),
            forall|k: int| 0 <= k < i ==> !used@.contains(#[trigger] all[k]),
        decreases names.len() - i,
    {
        if used.contains(names[i].as_str()) {
            assert(all[i as int] == names[i as int]@);
            return true;
        }
        i += 1;
    }
    false
}

fn push_specifier_text(out: &mut String, specifier: &ExportSpecifier)
    ensures
        final(out)@ == old(out)@ + specifier_text(specifier@),
{
    if crate::text::str_eq(specifier.local.as_str(), specifier.exported.as_str()) {
        out.append(specifier.local.as_str());
    } else {
        out.append(specifier.local.as_str());
        out.append(" as ");
        out.append(specifier.exported.as_str());
        assert(out@ =~= old(out)@ + specifier_text(specifier@));
    }
}

fn kept_names(specifiers: &Vec<ExportSpecifier>, used: &NameSet) -> (found: (usize, String))
    ensures
        found.0 == kept_count(entries_of(specifiers@), used@),
        found.1@ == kept_text(entries_of(specifiers@), used@),
{
    let ghost all = entries_of(specifiers@);
    let mut text = String::new();
    let mut count: usize = 0;
    let mut i: usize = 0;
    while i < specifiers.len()
        invariant
            i <= specifiers.len(),
            count <= i,
            all == entries_of(specifiers@),
            count == kept_count(all.take(i as int), used@),
            text@ == kept_text(all.take(i as int), used@),
        decreases specifiers.len() - i,
    {
        let ghost before = text@;
        assert(all.take(i + 1).drop_last() =~= all.take(i as int));
        assert(all.take(i + 1).last() == specifiers@[i as int]@);
        if used.contains(specifiers[i].exported.as_str()) {
            if count > 0 {
                text.append(", ");
            }
            push_specifier_text(&mut text, &specifiers[i]);
            assert(text@ =~= kept_text(all.take(i + 1), used@)) by {
                if count == 0 {
                    lemma_nothing_kept(all.take(i as int), used@);
                    assert(before =~= Seq::<char>::empty());
                }
            }
            count += 1;
        }
        i += 1;
    }
    assert(all.take(specifiers.len() as int) =~= all);
    (count, text)
}

/// Where no name is kept, the text of the kept names is empty.
proof fn lemma_nothing_kept(specifiers: Seq<ExportSpecifierView>, used: Set<Seq<char>>)
    requires
        kept_count(specifiers, used) == 0,
    ensures
        kept_text(specifiers, used) =~= Seq::<char>::empty(),
    decreases specifiers.len(),
{
    if specifiers.len() > 0 {
        lemma_nothing_kept(specifiers.drop_last(), used);
    }
}

fn push_shake(out: &mut Vec<Replacement>, item: &ModuleItem, used: &NameSet)
    ensures
        edits_of(final(out)@) == edits_of(old(out)@) + shake_item(item@, used@),
{
    let ghost before = edits_of(out@);
    match item {
        ModuleItem::ExportDefault { start, end, .. } => {
            if !used.contains("default") {
                push_replacement(out, *start, *end, String::new());
            }
        },
        ModuleItem::ExportDeclaration { start, end, names, .. } => {
            if !uses_any(names, used) {
                push_replacement(out, *start, *end, String::new());
            }
        },
        ModuleItem::ExportList { start, end, entries: specifiers, from: source } => {
            if specifiers.len() > 0 {
                let (count, names) = kept_names(specifiers, used);
                if count == 0 {
                    push_replacement(out, *start, *end, String::new());
                } else {
                    let mut text = String::from_str("export { ");
                    text.append(names.as_str());
                    match source {
                        Some(from) => {
                            text.append(" } from \"");
                            text.append(from.as_str());
                            text.append("\";");
                        },
                        None => {
                            text.append(" };");
                        },
                    }
                    assert(text@ =~= export_statement(
                        kept_text(entries_of(specifiers@), used@),
                        crate::graph::text_of(*source),
                    ));
                    push_replacement(out, *start, *end, text);
                }
            }
        },
        _ => {},
    }
    assert(edits_of(out@) =~= before + shake_item(item@, used@));
}

/// Shakes a module whose syntax is known: erases each export statement
/// that exports nothing of what `used` holds, and cuts each export list
/// down to the names that `used` holds. What is not an export stays. The
/// text is returned as it is where the parser met syntax errors, and where
/// the spans of the syntax do not fit the text.
pub fn transform_tree_shake_syntax(source: &str, syntax: &ModuleSyntax, used: &NameSet) -> (out:
    String)
    ensures
        out@ == shaken_text(source@, syntax@, used@),
{
    let ghost all = items_of(syntax.items@);
    if syntax.errors > 0 {
        return String::from_str(source);
    }
    let mut reps: Vec<Replacement> = Vec::new();
    assert(edits_of(reps@) =~= Seq::<Edit>::empty());
    let mut i: usize = 0;
    while i < syntax.items.len()
        invariant
            i <= syntax.items.len(),
            all == items_of(syntax.items@),
            edits_of(reps@) == shake_edits(all.take(i as int), used@),
        decreases syntax.items.len() - i,
    {
        assert(all.take(i + 1).drop_last() =~= all.take(i as int));
        assert(all.take(i + 1).last() == syntax.items@[i as int]@);
        push_shake(&mut reps, &syntax.items[i], used);
        i += 1;
    }
    assert(all.take(syntax.items.len() as int) =~= all);
    match splice(source, &reps) {
        Some(text) => text,
        None => String::from_str(source),
    }
}

/// Shakes a source file: reads its module syntax in the dialect that the
/// extension of `path` names, and shakes it.
pub fn transform_tree_shake(source: &str, path: &str, used_exports: &NameSet) -> (out: String)
    ensures
        out@ == shaken_text(source@, module_syntax(source@, path@), used_exports@),
{
    let syntax = read_module(source, path);
    transform_tree_shake_syntax(source, &syntax, used_exports)
}

} // verus!
