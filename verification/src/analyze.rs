//! The analyzer: from the module syntax of a source file to the names it
//! exports and the import edges it asks for.

use vstd::prelude::*;
use crate::graph::{ImportInfo, ImportInfoView, ImportKind, names_of, sites_of};
use crate::syntax::{
    DynamicImportView,
    ExportSpecifier,
    ExportSpecifierView,
    ImportSpecifier,
    ImportSpecifierView,
    ModuleItem,
    ModuleItemView,
    ModuleSyntax,
    ModuleSyntaxView,
    bindings_of,
    dynamics_of,
    entries_of,
    items_of,
    module_syntax,
    read_module,
};

verus! {

/// The import edge of the given kind: its flags follow from the kind.
pub open spec fn edge(source: Seq<char>, kind: ImportKind, specifiers: Seq<Seq<char>>) -> ImportInfoView {
    ImportInfoView {
        source,
        kind,
        specifiers,
        is_dynamic: kind == ImportKind::Dynamic,
        is_star: kind == ImportKind::StaticNamespace || kind == ImportKind::ReExportStar,
    }
}

/// The names under which an export list exports.
pub open spec fn exported_names(specifiers: Seq<ExportSpecifierView>) -> Seq<Seq<char>> {
    specifiers.map_values(|s: ExportSpecifierView| s.exported)
}

/// The names that an export list takes, from the module itself or from the
/// module it re-exports from.
pub open spec fn local_names(specifiers: Seq<ExportSpecifierView>) -> Seq<Seq<char>> {
    specifiers.map_values(|s: ExportSpecifierView| s.local)
}

/// The names that one statement exports.
pub open spec fn item_exports(item: ModuleItemView) -> Seq<Seq<char>> {
    match item {
        ModuleItemView::ExportDefault { .. } => seq!["default"@],
        ModuleItemView::ExportDeclaration { names, .. } => names,
        ModuleItemView::ExportList { entries, .. } => exported_names(entries),
        _ => Seq::empty(),
    }
}

/// The names that the statements export, in source order.
pub open spec fn exports_of(items: Seq<ModuleItemView>) -> Seq<Seq<char>>
    decreases items.len(),
{
    if items.len() == 0 {
        Seq::empty()
    } else {
        exports_of(items.drop_last()) + item_exports(items.last())
    }
}

/// The names that the named bindings of an import statement take from the
/// other module, in source order.
pub open spec fn named_imports(specifiers: Seq<ImportSpecifierView>) -> Seq<Seq<char>>
    decreases specifiers.len(),
{
    if specifiers.len() == 0 {
        Seq::empty()
    } else {
        let rest = named_imports(specifiers.drop_last());
        match specifiers.last() {
            ImportSpecifierView::Named { imported, .. } => rest.push(imported),
            _ => rest,
        }
    }
}

/// One edge for each default binding and each namespace binding of an
/// import statement, in source order.
pub open spec fn binding_edges(source: Seq<char>, specifiers: Seq<ImportSpecifierView>) -> Seq<
    ImportInfoView,
>
    decreases specifiers.len(),
{
    if specifiers.len() == 0 {
        Seq::empty()
    } else {
        let rest = binding_edges(source, specifiers.drop_last());
        match specifiers.last() {
            ImportSpecifierView::Default { .. } => rest.push(
                edge(source, ImportKind::StaticDefault, seq!["default"@]),
            ),
            ImportSpecifierView::Namespace { .. } => rest.push(
                edge(source, ImportKind::StaticNamespace, Seq::empty()),
            ),
            ImportSpecifierView::Named { .. } => rest,
        }
    }
}

/// The edges of one import statement: a bare edge where it binds nothing;
/// else an edge for each default and namespace binding, and after them one
/// edge that holds all named bindings, where there are any.
pub open spec fn import_edges(source: Seq<char>, specifiers: Seq<ImportSpecifierView>) -> Seq<
    ImportInfoView,
> {
    if specifiers.len() == 0 {
        seq![edge(source, ImportKind::StaticBare, Seq::empty())]
    } else if named_imports(specifiers).len() == 0 {
        binding_edges(source, specifiers)
    } else {
        binding_edges(source, specifiers).push(
            edge(source, ImportKind::StaticNamed, named_imports(specifiers)),
        )
    }
}

/// The edges that one statement asks for.
pub open spec fn item_edges(item: ModuleItemView) -> Seq<ImportInfoView> {
    match item {
        ModuleItemView::Import { source, specifiers, .. } => import_edges(source, specifiers),
        ModuleItemView::ExportList { entries, from: Some(from), .. } => seq![
            edge(from, ImportKind::ReExportNamed, local_names(entries)),
        ],
        ModuleItemView::ExportAll { source, .. } => seq![
            edge(source, ImportKind::ReExportStar, Seq::empty()),
        ],
        _ => Seq::empty(),
    }
}

/// Where a statement begins in the text.
pub open spec fn item_start(item: ModuleItemView) -> usize {
    match item {
        ModuleItemView::Import { start, .. } => start,
        ModuleItemView::ExportDefault { start, .. } => start,
        ModuleItemView::ExportDeclaration { start, .. } => start,
        ModuleItemView::ExportList { start, .. } => start,
        ModuleItemView::ExportAll { start, .. } => start,
    }
}

/// The edge that a dynamic import asks for: one where its specifier is
/// known, none else.
pub open spec fn dynamic_edge(import: DynamicImportView) -> Seq<ImportInfoView> {
    match import.source {
        Some(source) => seq![edge(source, ImportKind::Dynamic, Seq::empty())],
        None => Seq::empty(),
    }
}

/// The edges of the statements from the `i`-th on and of the dynamic
/// imports from the `j`-th on, in the order of the text: always those of
/// the one that begins first, and those of the statement where both begin
/// at the same place.
pub open spec fn edges_from(
    items: Seq<ModuleItemView>,
    dynamics: Seq<DynamicImportView>,
    i: int,
    j: int,
) -> Seq<ImportInfoView>
    decreases (if i < items.len() {
        items.len() - i
    } else {
        0
    }) + (if j < dynamics.len() {
        dynamics.len() - j
    } else {
        0
    }),
{
    if i < 0 || j < 0 || (i >= items.len() && j >= dynamics.len()) {
        Seq::empty()
    } else if j >= dynamics.len() || (i < items.len() && item_start(items[i]) <= dynamics[j].start) {
        item_edges(items[i]) + edges_from(items, dynamics, i + 1, j)
    } else {
        dynamic_edge(dynamics[j]) + edges_from(items, dynamics, i, j + 1)
    }
}

/// The import edges of a module, those of its statements and those of its
/// dynamic imports, in the order in which they stand in the text.
pub open spec fn edges_of(syntax: ModuleSyntaxView) -> Seq<ImportInfoView> {
    edges_from(syntax.items, syntax.dynamic_imports, 0, 0)
}

/// Each edge is the specifier as written, with a flag that tells a dynamic
/// import.
pub open spec fn dependencies_of(edges: Seq<ImportInfoView>) -> Seq<(Seq<char>, bool)> {
    edges.map_values(|e: ImportInfoView| (e.source, e.is_dynamic))
}

/// The texts of a list of specifiers with their flags.
pub open spec fn flagged_of(list: Seq<(String, bool)>) -> Seq<(Seq<char>, bool)> {
    list.map_values(|d: (String, bool)| (d.0@, d.1))
}

fn make_edge(source: &String, kind: ImportKind, specifiers: Vec<String>) -> (info: ImportInfo)
    ensures
        info@ == edge(source@, kind, names_of(specifiers@)),
{
    let is_dynamic = match kind {
        ImportKind::Dynamic => true,
        _ => false,
    };
    let is_star = match kind {
        ImportKind::StaticNamespace => true,
        ImportKind::ReExportStar => true,
        _ => false,
    };
    ImportInfo { source: source.clone(), kind, specifiers, is_dynamic, is_star }
}

fn push_edge(out: &mut Vec<ImportInfo>, info: ImportInfo)
    ensures
        sites_of(final(out)@) == sites_of(old(out)@).push(info@),
{
    out.push(info);
    assert(sites_of(out@) =~= sites_of(old(out)@).push(info@));
}

fn push_name(out: &mut Vec<String>, name: String)
    ensures
        names_of(final(out)@) == names_of(old(out)@).push(name@),
{
    out.push(name);
    assert(names_of(out@) =~= names_of(old(out)@).push(name@));
}

fn no_names() -> (names: Vec<String>)
    ensures
        names_of(names@) == Seq::<Seq<char>>::empty(),
{
    let names: Vec<String> = Vec::new();
    assert(names_of(names@) =~= Seq::<Seq<char>>::empty());
    names
}

fn push_names(out: &mut Vec<String>, names: &Vec<String>)
    ensures
        names_of(final(out)@) == names_of(old(out)@) + names_of(names@),
{
    let mut i: usize = 0;
    assert(names_of(names@).take(0) =~= Seq::<Seq<char>>::empty());
    assert(names_of(out@) + Seq::<Seq<char>>::empty() =~= names_of(out@));
    while i < names.len()
        invariant
            i <= names.len(),
            names_of(out@) == names_of(old(out)@) + names_of(names@).take(i as int),
        decreases names.len() - i,
    {
        let ghost before = names_of(out@);
        push_name(out, names[i].clone());
        assert(names_of(names@).take(i + 1) =~= names_of(names@).take(i as int).push(names[i as int]@));
        assert(before.push(names[i as int]@) =~= names_of(old(out)@) + names_of(names@).take(i + 1));
        i += 1;
    }
    assert(names_of(names@).take(names.len() as int) =~= names_of(names@));
}

fn push_import_edges(out: &mut Vec<ImportInfo>, source: &String, specifiers: &Vec<ImportSpecifier>)
    ensures
        sites_of(final(out)@) == sites_of(old(out)@) + import_edges(source@, bindings_of(specifiers@)),
{
    let ghost start = sites_of(out@);
    let ghost all = bindings_of(specifiers@);
    if specifiers.len() == 0 {
        push_edge(out, make_edge(source, ImportKind::StaticBare, no_names()));
        assert(sites_of(out@) =~= start + import_edges(source@, all));
        return ;
    }
    let mut named: Vec<String> = no_names();
    let mut i: usize = 0;
    assert(all.take(0) =~= Seq::<ImportSpecifierView>::empty());
    assert(start + Seq::<ImportInfoView>::empty() =~= start);
    while i < specifiers.len()
        invariant
            i <= specifiers.len(),
            all == bindings_of(specifiers@),
            names_of(named@) == named_imports(all.take(i as int)),
            sites_of(out@) == start + binding_edges(source@, all.take(i as int)),
        decreases specifiers.len() - i,
    {
        let ghost edges = binding_edges(source@, all.take(i as int));
        assert(all.take(i + 1).drop_last() =~= all.take(i as int));
        assert(all.take(i + 1).last() == specifiers@[i as int]@);
        match &specifiers[i] {
            ImportSpecifier::Default { .. } => {
                let mut names = no_names();
                push_name(&mut names, "default".to_string());
                assert(names_of(names@) =~= seq!["default"@]);
                push_edge(out, make_edge(source, ImportKind::StaticDefault, names));
                assert(sites_of(out@) =~= start + edges.push(
                    edge(source@, ImportKind::StaticDefault, seq!["default"@]),
                ));
            },
            ImportSpecifier::Namespace { .. } => {
                push_edge(out, make_edge(source, ImportKind::StaticNamespace, no_names()));
                assert(sites_of(out@) =~= start + edges.push(
                    edge(source@, ImportKind::StaticNamespace, Seq::empty()),
                ));
            },
            ImportSpecifier::Named { imported, .. } => {
                push_name(&mut named, imported.clone());
            },
        }
        i += 1;
    }
    assert(all.take(specifiers.len() as int) =~= all);
    if named.len() > 0 {
        assert(names_of(named@).len() == named.len());
        push_edge(out, make_edge(source, ImportKind::StaticNamed, named));
        assert(sites_of(out@) =~= start + import_edges(source@, all));
    } else {
        assert(names_of(named@).len() == named.len());
    }
}

fn names_in_list(specifiers: &Vec<ExportSpecifier>, exported: bool) -> (names: Vec<String>)
    ensures
        names_of(names@) == if exported {
            exported_names(entries_of(specifiers@))
        } else {
            local_names(entries_of(specifiers@))
        },
{
    let mut names: Vec<String> = no_names();
    let mut i: usize = 0;
    while i < specifiers.len()
        invariant
            i <= specifiers.len(),
            names_of(names@) == if exported {
                exported_names(entries_of(specifiers@)).take(i as int)
            } else {
                local_names(entries_of(specifiers@)).take(i as int)
            },
        decreases specifiers.len() - i,
    {
        let ghost before = names_of(names@);
        if exported {
            push_name(&mut names, specifiers[i].exported.clone());
            assert(before.push(specifiers[i as int].exported@) =~= exported_names(
                entries_of(specifiers@),
            ).take(i + 1));
        } else {
            push_name(&mut names, specifiers[i].local.clone());
            assert(before.push(specifiers[i as int].local@) =~= local_names(
                entries_of(specifiers@),
            ).take(i + 1));
        }
        i += 1;
    }
    assert(exported_names(entries_of(specifiers@)).take(specifiers.len() as int)
        =~= exported_names(entries_of(specifiers@)));
    assert(local_names(entries_of(specifiers@)).take(specifiers.len() as int) =~= local_names(
        entries_of(specifiers@),
    ));
    names
}

fn start_of(item: &ModuleItem) -> (start: usize)
    ensures
        start == item_start(item@),
{
    match item {
        ModuleItem::Import { start, .. } => *start,
        ModuleItem::ExportDefault { start, .. } => *start,
        ModuleItem::ExportDeclaration { start, .. } => *start,
        ModuleItem::ExportList { start, .. } => *start,
        ModuleItem::ExportAll { start, .. } => *start,
    }
}

/// Appends what one statement exports and the edges it asks for.
fn push_item(exports: &mut Vec<String>, imports: &mut Vec<ImportInfo>, item: &ModuleItem)
    ensures
        names_of(final(exports)@) == names_of(old(exports)@) + item_exports(item@),
        sites_of(final(imports)@) == sites_of(old(imports)@) + item_edges(item@),
{
    let ghost names_before = names_of(exports@);
    let ghost sites_before = sites_of(imports@);
    match item {
        ModuleItem::Import { source, specifiers, .. } => {
            push_import_edges(imports, source, specifiers);
            assert(names_before + Seq::<Seq<char>>::empty() =~= names_before);
        },
        ModuleItem::ExportDefault { .. } => {
            push_name(exports, "default".to_string());
            assert(names_before.push("default"@) =~= names_before + seq!["default"@]);
            assert(sites_before + Seq::<ImportInfoView>::empty() =~= sites_before);
        },
        ModuleItem::ExportDeclaration { names, .. } => {
            push_names(exports, names);
            assert(sites_before + Seq::<ImportInfoView>::empty() =~= sites_before);
        },
        ModuleItem::ExportList { entries: specifiers, from: source, .. } => {
            let exported = names_in_list(specifiers, true);
            push_names(exports, &exported);
            match source {
                Some(from) => {
                    let locals = names_in_list(specifiers, false);
                    let info = make_edge(from, ImportKind::ReExportNamed, locals);
                    push_edge(imports, info);
                    assert(sites_before.push(info@) =~= sites_before + seq![info@]);
                },
                None => {
                    assert(sites_before + Seq::<ImportInfoView>::empty() =~= sites_before);
                },
            }
        },
        ModuleItem::ExportAll { source, .. } => {
            let info = make_edge(source, ImportKind::ReExportStar, no_names());
            push_edge(imports, info);
            assert(sites_before.push(info@) =~= sites_before + seq![info@]);
            assert(names_before + Seq::<Seq<char>>::empty() =~= names_before);
        },
    }
}

/// The exported names and the import edges of a module, from its syntax,
/// both in the order of the text. With syntax errors, they are those of
/// the statements that could be read.
pub fn analyze_syntax(syntax: &ModuleSyntax) -> (found: (Vec<String>, Vec<ImportInfo>))
    ensures
        names_of(found.0@) == exports_of(syntax@.items),
        sites_of(found.1@) == edges_of(syntax@),
{
    let ghost items = syntax@.items;
    let ghost dynamics = syntax@.dynamic_imports;
    let mut exports: Vec<String> = no_names();
    let mut imports: Vec<ImportInfo> = Vec::new();
    assert(sites_of(imports@) =~= Seq::<ImportInfoView>::empty());
    let mut i: usize = 0;
    let mut k: usize = 0;
    assert(items.take(0) =~= Seq::<ModuleItemView>::empty());
    assert(sites_of(imports@) + edges_from(items, dynamics, 0, 0) =~= edges_from(items, dynamics, 0, 0));
    while i < syntax.items.len() || k < syntax.dynamic_imports.len()
        invariant
            i <= syntax.items.len(),
            k <= syntax.dynamic_imports.len(),
            items == items_of(syntax.items@),
            dynamics == dynamics_of(syntax.dynamic_imports@),
            names_of(exports@) == exports_of(items.take(i as int)),
            sites_of(imports@) + edges_from(items, dynamics, i as int, k as int) == edges_from(
                items,
                dynamics,
                0,
                0,
            ),
        decreases (syntax.items.len() - i) + (syntax.dynamic_imports.len() - k),
    {
        let ghost sites_before = sites_of(imports@);
        let statement_next = if k >= syntax.dynamic_imports.len() {
            true
        } else if i < syntax.items.len() {
            start_of(&syntax.items[i]) <= syntax.dynamic_imports[k].start
        } else {
            false
        };
        if statement_next {
            assert(items.take(i + 1).drop_last() =~= items.take(i as int));
            assert(items.take(i + 1).last() == syntax.items@[i as int]@);
            push_item(&mut exports, &mut imports, &syntax.items[i]);
            assert(sites_of(imports@) + edges_from(items, dynamics, i + 1, k as int) =~= sites_before
                + edges_from(items, dynamics, i as int, k as int));
            i += 1;
        } else {
            match &syntax.dynamic_imports[k].source {
                Some(source) => {
                    let info = make_edge(source, ImportKind::Dynamic, no_names());
                    push_edge(&mut imports, info);
                },
                None => {},
            }
            assert(sites_of(imports@) =~= sites_before + dynamic_edge(dynamics[k as int]));
            assert(sites_of(imports@) + edges_from(items, dynamics, i as int, k + 1) =~= sites_before
                + edges_from(items, dynamics, i as int, k as int));
            k += 1;
        }
    }
    assert(items.take(syntax.items.len() as int) =~= items);
    assert(sites_of(imports@) + Seq::<ImportInfoView>::empty() =~= sites_of(imports@));
    (exports, imports)
}

/// The exported names and the import edges of a source file: those of its
/// module syntax, read in the dialect that the extension of `path` names.
pub fn analyze_module(source: &str, path: &str) -> (found: (Vec<String>, Vec<ImportInfo>))
    ensures
        names_of(found.0@) == exports_of(module_syntax(source@, path@).items),
        sites_of(found.1@) == edges_of(module_syntax(source@, path@)),
{
    let syntax = read_module(source, path);
    analyze_syntax(&syntax)
}

/// For each import edge, the specifier as written and whether the import
/// is dynamic.
pub fn dependencies_of_edges(edges: &Vec<ImportInfo>) -> (deps: Vec<(String, bool)>)
    ensures
        flagged_of(deps@) == dependencies_of(sites_of(edges@)),
{
    let mut deps: Vec<(String, bool)> = Vec::new();
    let mut i: usize = 0;
    while i < edges.len()
        invariant
            i <= edges.len(),
            flagged_of(deps@) == dependencies_of(sites_of(edges@)).take(i as int),
        decreases edges.len() - i,
    {
        let ghost before = flagged_of(deps@);
        deps.push((edges[i].source.clone(), edges[i].is_dynamic));
        assert(flagged_of(deps@) =~= before.push((edges[i as int].source@, edges[i as int].is_dynamic)));
        assert(flagged_of(deps@) =~= dependencies_of(sites_of(edges@)).take(i + 1));
        i += 1;
    }
    assert(dependencies_of(sites_of(edges@)).take(edges.len() as int) =~= dependencies_of(
        sites_of(edges@),
    ));
    deps
}

/// The specifiers that a source file imports, each with a flag that tells
/// a dynamic import: one for each import edge of its module syntax.
pub fn extract_dependencies_detailed(source: &str, path: &str) -> (deps: Vec<(String, bool)>)
    ensures
        flagged_of(deps@) == dependencies_of(edges_of(module_syntax(source@, path@))),
{
    let syntax = read_module(source, path);
    let found = analyze_syntax(&syntax);
    dependencies_of_edges(&found.1)
}

/// The specifiers that a source file imports: one for each import edge of
/// its module syntax.
pub fn extract_dependencies(source: &str, path: &str) -> (deps: Vec<String>)
    ensures
        names_of(deps@) == edges_of(module_syntax(source@, path@)).map_values(
            |e: ImportInfoView| e.source,
        ),
{
    let syntax = read_module(source, path);
    let found = analyze_syntax(&syntax);
    let mut deps: Vec<String> = no_names();
    let mut i: usize = 0;
    let ghost all = edges_of(syntax@).map_values(|e: ImportInfoView| e.source);
    while i < found.1.len()
        invariant
            i <= found.1.len(),
            sites_of(found.1@) == edges_of(syntax@),
            all == edges_of(syntax@).map_values(|e: ImportInfoView| e.source),
            names_of(deps@) == all.take(i as int),
        decreases found.1.len() - i,
    {
        let ghost before = names_of(deps@);
        push_name(&mut deps, found.1[i].source.clone());
        assert(sites_of(found.1@)[i as int].source == found.1[i as int].source@);
        assert(before.push(found.1[i as int].source@) =~= all.take(i + 1));
        i += 1;
    }
    assert(all.take(found.1.len() as int) =~= all);
    deps
}

} // verus!
