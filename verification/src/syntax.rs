//! The module syntax of a source file: its import and export statements
//! and its dynamic imports, as the parser reports them.

use vstd::prelude::*;
use vstd::string::StringExecFns;
use crate::graph::text_of;
use crate::rewrite::lemma_boundary_shift;
use crate::text::{chars_of, push_char};
use vstd::utf8::{
    decode_utf8,
    encode_utf8,
    encode_utf8_decode_utf8,
    valid_utf8,
    is_char_boundary,
    encode_utf8_valid_utf8,
    valid_utf8_split,
    is_char_boundary_iff_not_is_continuation_byte,
    is_char_boundary_start_end_of_seq,
};

verus! {

/// The parser's arena.
#[verifier::external_type_specification]
#[verifier::external_body]
pub struct ExAllocator(oxc_allocator::Allocator);

/// What the parser returns: the syntax tree, the module record and the
/// syntax errors.
#[verifier::external_type_specification]
#[verifier::external_body]
pub struct ExParserReturn<'a>(oxc_parser::ParserReturn<'a>);

/// The kinds of statement that the bundler reads.
#[derive(Clone, Copy, Debug, PartialEq, Eq, Structural)]
pub enum StatementKind {
    /// `import ... from 'm'` and `import 'm'`
    Import,
    /// `export default ...`
    ExportDefault,
    /// `export const ...`, `export { ... }`, `export { ... } from 'm'`
    ExportNamed,
    /// `export * from 'm'`
    ExportAll,
    /// Any other statement.
    Other,
}

/// The form of one binding of an import statement.
#[derive(Clone, Copy, Debug, PartialEq, Eq, Structural)]
pub enum BindingKind {
    /// `import X from 'm'`
    Default,
    /// `import * as N from 'm'`
    Namespace,
    /// `import { a as b } from 'm'`
    Named,
}

/// One binding of an import statement. `local` is the name that the
/// importing module uses.
#[derive(Clone, Debug)]
pub enum ImportSpecifier {
    /// `import X from 'm'`
    Default { local: String },
    /// `import * as N from 'm'`
    Namespace { local: String },
    /// `import { a as b } from 'm'`: `imported` is the name in the other
    /// module.
    Named { imported: String, local: String },
}

/// One name of an export list.
#[derive(Clone, Debug)]
pub struct ExportSpecifier {
    /// The name inside the module, or in the module that the list re-exports
    /// from.
    pub local: String,
    /// The name under which it is exported.
    pub exported: String,
}

/// One import or export statement at the top level of a module. `start`
/// and `end` are the byte offsets of the statement in the source.
#[derive(Clone, Debug)]
pub enum ModuleItem {
    /// `import ... from 'm'`; without specifiers, `import 'm'`.
    Import { start: usize, end: usize, source: String, specifiers: Vec<ImportSpecifier> },
    /// `export default ...`; the exported expression, function or class
    /// begins at `value_start`.
    ExportDefault { start: usize, end: usize, value_start: usize },
    /// `export const ...`, `export function ...`, `export class ...`; the
    /// declaration begins at `declaration_start` and binds `names`.
    ExportDeclaration { start: usize, end: usize, declaration_start: usize, names: Vec<String> },
    /// `export { a, b as c }`; `from` is the module that the list re-exports
    /// from, where it names one.
    ExportList { start: usize, end: usize, entries: Vec<ExportSpecifier>, from: Option<String> },
    /// `export * from 'm'`
    ExportAll { start: usize, end: usize, source: String },
}

/// One `import(...)` expression, from byte offset `start` up to `end`.
#[derive(Clone, Debug)]
pub struct DynamicImport {
    pub start: usize,
    pub end: usize,
    /// The specifier, where the argument is a string literal.
    pub source: Option<String>,
}

/// The module syntax of one source file.
#[derive(Clone, Debug)]
pub struct ModuleSyntax {
    /// The import and export statements, in source order.
    pub items: Vec<ModuleItem>,
    /// The dynamic imports, each once, in source order.
    pub dynamic_imports: Vec<DynamicImport>,
    /// The number of syntax errors that the parser met. With errors, the
    /// statements are those that the parser could still read.
    pub errors: usize,
}

/// The mathematical value of an [`ImportSpecifier`].
pub enum ImportSpecifierView {
    Default { local: Seq<char> },
    Namespace { local: Seq<char> },
    Named { imported: Seq<char>, local: Seq<char> },
}

impl View for ImportSpecifier {
    type V = ImportSpecifierView;

    open spec fn view(&self) -> ImportSpecifierView {
        match *self {
            ImportSpecifier::Default { local } => ImportSpecifierView::Default { local: local@ },
            ImportSpecifier::Namespace { local } => ImportSpecifierView::Namespace { local: local@ },
            ImportSpecifier::Named { imported, local } => ImportSpecifierView::Named {
                imported: imported@,
                local: local@,
            },
        }
    }
}

/// The mathematical value of an [`ExportSpecifier`].
pub struct ExportSpecifierView {
    pub local: Seq<char>,
    pub exported: Seq<char>,
}

impl View for ExportSpecifier {
    type V = ExportSpecifierView;

    open spec fn view(&self) -> ExportSpecifierView {
        ExportSpecifierView { local: self.local@, exported: self.exported@ }
    }
}

/// The values of a list of import bindings.
pub open spec fn bindings_of(list: Seq<ImportSpecifier>) -> Seq<ImportSpecifierView> {
    list.map_values(|s: ImportSpecifier| s@)
}

/// The values of an export list.
pub open spec fn entries_of(list: Seq<ExportSpecifier>) -> Seq<ExportSpecifierView> {
    list.map_values(|s: ExportSpecifier| s@)
}

/// The mathematical value of a [`ModuleItem`].
pub enum ModuleItemView {
    Import { start: usize, end: usize, source: Seq<char>, specifiers: Seq<ImportSpecifierView> },
    ExportDefault { start: usize, end: usize, value_start: usize },
    ExportDeclaration { start: usize, end: usize, declaration_start: usize, names: Seq<Seq<char>> },
    ExportList { start: usize, end: usize, entries: Seq<ExportSpecifierView>, from: Option<Seq<char>> },
    ExportAll { start: usize, end: usize, source: Seq<char> },
}

impl View for ModuleItem {
    type V = ModuleItemView;

    open spec fn view(&self) -> ModuleItemView {
        match *self {
            ModuleItem::Import { start, end, source, specifiers } => ModuleItemView::Import {
                start,
                end,
                source: source@,
                specifiers: bindings_of(specifiers@),
            },
            ModuleItem::ExportDefault { start, end, value_start } => ModuleItemView::ExportDefault {
                start,
                end,
                value_start,
            },
            ModuleItem::ExportDeclaration {
                start,
                end,
                declaration_start,
                names,
            } => ModuleItemView::ExportDeclaration {
                start,
                end,
                declaration_start,
                names: crate::graph::names_of(names@),
            },
            ModuleItem::ExportList { start, end, entries, from } => ModuleItemView::ExportList {
                start,
                end,
                entries: entries_of(entries@),
                from: crate::graph::text_of(from),
            },
            ModuleItem::ExportAll { start, end, source } => ModuleItemView::ExportAll {
                start,
                end,
                source: source@,
            },
        }
    }
}

/// The mathematical value of a [`DynamicImport`].
pub struct DynamicImportView {
    pub start: usize,
    pub end: usize,
    pub source: Option<Seq<char>>,
}

impl View for DynamicImport {
    type V = DynamicImportView;

    open spec fn view(&self) -> DynamicImportView {
        DynamicImportView {
            start: self.start,
            end: self.end,
            source: crate::graph::text_of(self.source),
        }
    }
}

/// The mathematical value of a [`ModuleSyntax`].
pub struct ModuleSyntaxView {
    pub items: Seq<ModuleItemView>,
    pub dynamic_imports: Seq<DynamicImportView>,
    pub errors: usize,
}

/// The values of a list of statements.
pub open spec fn items_of(list: Seq<ModuleItem>) -> Seq<ModuleItemView> {
    list.map_values(|item: ModuleItem| item@)
}

/// The values of a list of dynamic imports.
pub open spec fn dynamics_of(list: Seq<DynamicImport>) -> Seq<DynamicImportView> {
    list.map_values(|d: DynamicImport| d@)
}

impl View for ModuleSyntax {
    type V = ModuleSyntaxView;

    open spec fn view(&self) -> ModuleSyntaxView {
        ModuleSyntaxView {
            items: items_of(self.items@),
            dynamic_imports: dynamics_of(self.dynamic_imports@),
            errors: self.errors,
        }
    }
}

/// The text that stands in `source` from byte `from` up to byte `to`,
/// where both are places between two characters of it.
pub open spec fn text_between(source: Seq<char>, from: int, to: int) -> Option<Seq<char>> {
    let bytes = encode_utf8(source);
    if 0 <= from <= to <= bytes.len() && is_char_boundary(bytes, from) && is_char_boundary(bytes, to) {
        Some(decode_utf8(bytes.subrange(from, to)))
    } else {
        None
    }
}

/// The number of the imports at the beginning of `list` that begin before
/// byte `start`.
pub open spec fn begun_before(list: Seq<DynamicImportView>, start: usize) -> int
    decreases list.len(),
{
    if list.len() == 0 || list[0].start >= start {
        0
    } else {
        1 + begun_before(list.skip(1), start)
    }
}

/// `list` with `entry` put in by where it begins; the list as it is where
/// it holds an import that begins at the same place.
pub open spec fn with_import(list: Seq<DynamicImportView>, entry: DynamicImportView) -> Seq<
    DynamicImportView,
> {
    let k = begun_before(list, entry.start);
    if k < list.len() && list[k].start == entry.start {
        list
    } else {
        list.insert(k, entry)
    }
}

/// The first `upto` of `imports`, each once, in the order of the text.
pub open spec fn arranged(imports: Seq<DynamicImportView>, upto: int) -> Seq<DynamicImportView>
    decreases upto,
{
    if upto <= 0 {
        Seq::empty()
    } else {
        with_import(arranged(imports, upto - 1), imports[upto - 1])
    }
}

/// Each import of `list` begins behind the beginning of the one before
/// it: the list is in the order of the text, and holds no import twice.
pub open spec fn in_text_order(list: Seq<DynamicImportView>) -> bool {
    forall|i: int, j: int| 0 <= i < j < list.len() ==> list[i].start < list[j].start
}

/// The imports that `begun_before` counts begin before `start`, and the
/// one behind them does not.
pub proof fn lemma_begun_before(list: Seq<DynamicImportView>, start: usize)
    ensures
        0 <= begun_before(list, start) <= list.len(),
        forall|i: int| 0 <= i < begun_before(list, start) ==> (#[trigger] list[i]).start < start,
        begun_before(list, start) < list.len() ==> list[begun_before(list, start)].start >= start,
    decreases list.len(),
{
    if list.len() > 0 && list[0].start < start {
        let rest = list.skip(1);
        lemma_begun_before(rest, start);
        let k = begun_before(rest, start);
        assert forall|i: int| 0 <= i < k + 1 implies (#[trigger] list[i]).start < start by {
            if i > 0 {
                assert(rest[i - 1] == list[i]);
            }
        }
        if k + 1 < list.len() {
            assert(rest[k] == list[k + 1]);
        }
    }
}

/// Putting an import into a list in text order leaves a list in text
/// order.
pub proof fn lemma_with_import_order(list: Seq<DynamicImportView>, entry: DynamicImportView)
    requires
        in_text_order(list),
    ensures
        in_text_order(with_import(list, entry)),
{
    lemma_begun_before(list, entry.start);
    let k = begun_before(list, entry.start);
    let out = with_import(list, entry);
    if !(k < list.len() && list[k].start == entry.start) {
        assert forall|i: int, j: int| 0 <= i < j < out.len() implies out[i].start < out[j].start by {
            if j < k {
                assert(out[i] == list[i] && out[j] == list[j]);
            } else if j == k {
                assert(out[i] == list[i]);
            } else if i < k {
                assert(out[i] == list[i] && out[j] == list[j - 1]);
                if j - 1 > k {
                    assert(list[k].start < list[j - 1].start);
                }
            } else if i == k {
                assert(out[j] == list[j - 1]);
                if j - 1 > k {
                    assert(list[k].start < list[j - 1].start);
                }
            } else {
                assert(out[i] == list[i - 1] && out[j] == list[j - 1]);
            }
        }
    }
}

/// What `arranged` gives is in text order.
pub proof fn lemma_arranged_order(imports: Seq<DynamicImportView>, upto: int)
    ensures
        in_text_order(arranged(imports, upto)),
    decreases upto,
{
    if upto > 0 {
        lemma_arranged_order(imports, upto - 1);
        lemma_with_import_order(arranged(imports, upto - 1), imports[upto - 1]);
    }
}

/// What the parser reports of one binding of an import statement: its
/// form, its local name and, for a named binding, the imported name.
pub type Binding = (BindingKind, Seq<char>, Option<Seq<char>>);

/// What the parser reports of one top-level statement, as far as the
/// bundler reads it.
pub struct StatementView {
    /// The kind of the statement.
    pub kind: StatementKind,
    /// The two ends of its span.
    pub start: u32,
    pub end: u32,
    /// The module specifier of an import or export statement.
    pub source: Option<Seq<char>>,
    /// The bindings of an import statement.
    pub bindings: Seq<Binding>,
    /// For `export default`: where what it exports begins, and whether
    /// that is TypeScript syntax.
    pub default_value: Option<(u32, bool)>,
    /// Where the declaration of an export statement begins.
    pub declaration_start: Option<u32>,
    /// For each declarator of an exported variable declaration, the names
    /// that it binds.
    pub variables: Seq<Seq<Seq<char>>>,
    /// The name of an exported function or class.
    pub declared_name: Option<Seq<char>>,
    /// The names of an export list: local name and exported name.
    pub entries: Seq<(Seq<char>, Seq<char>)>,
}

/// What the parser reports of a source file, as far as the bundler reads
/// it.
pub struct ParsedView {
    /// The number of syntax errors.
    pub errors: nat,
    /// The top-level statements, in source order.
    pub statements: Seq<StatementView>,
    /// The parser's record of `import(...)` expressions: for each time
    /// that it read one, the two ends of its span and the two ends of the
    /// span of its argument, in the order in which it read them. Where
    /// the parser read a piece of the text twice, the record holds its
    /// imports twice.
    pub dynamic_imports: Seq<(u32, u32, u32, u32)>,
}

/// What the parser reports of `source`, parsed in the dialect that the
/// extension of `path` names.
pub uninterp spec fn parsed_module(source: Seq<char>, path: Seq<char>) -> ParsedView;

/// The top-level statements that a parse result holds.
pub uninterp spec fn statements_in(parsed: oxc_parser::ParserReturn<'_>) -> Seq<StatementView>;

/// The record of `import(...)` expressions that a parse result holds, as
/// the parser wrote it.
pub uninterp spec fn dynamic_imports_in(parsed: oxc_parser::ParserReturn<'_>) -> Seq<
    (u32, u32, u32, u32),
>;

/// The number of syntax errors that a parse result holds.
pub uninterp spec fn error_count_in(parsed: oxc_parser::ParserReturn<'_>) -> nat;

/// What a parse result holds.
pub open spec fn report_of(parsed: oxc_parser::ParserReturn<'_>) -> ParsedView {
    ParsedView {
        errors: error_count_in(parsed),
        statements: statements_in(parsed),
        dynamic_imports: dynamic_imports_in(parsed),
    }
}

/// The statement at `index`, where there is one.
pub open spec fn statement_at(statements: Seq<StatementView>, index: int) -> Option<StatementView> {
    if 0 <= index < statements.len() {
        Some(statements[index])
    } else {
        None
    }
}

/// The kind and the span of the statement at `index`.
pub open spec fn head_at(statements: Seq<StatementView>, index: int) -> Option<
    (StatementKind, u32, u32),
> {
    match statement_at(statements, index) {
        Some(st) => Some((st.kind, st.start, st.end)),
        None => None,
    }
}

/// The module specifier of the statement at `index`.
pub open spec fn source_at(statements: Seq<StatementView>, index: int) -> Option<Seq<char>> {
    match statement_at(statements, index) {
        Some(st) => st.source,
        None => None,
    }
}

/// The bindings of the statement at `index`.
pub open spec fn bindings_at(statements: Seq<StatementView>, index: int) -> Seq<Binding> {
    match statement_at(statements, index) {
        Some(st) => st.bindings,
        None => Seq::empty(),
    }
}

/// The text of a binding.
pub open spec fn binding_text(binding: Option<(BindingKind, String, Option<String>)>) -> Option<
    Binding,
> {
    match binding {
        Some((kind, local, imported)) => Some((kind, local@, crate::graph::text_of(imported))),
        None => None,
    }
}

/// The element of a list at `at`, where there is one.
pub open spec fn element_at<T>(list: Seq<T>, at: int) -> Option<T> {
    if 0 <= at < list.len() {
        Some(list[at])
    } else {
        None
    }
}

/// What `export default` exports in the statement at `index`.
pub open spec fn default_value_at(statements: Seq<StatementView>, index: int) -> Option<(u32, bool)> {
    match statement_at(statements, index) {
        Some(st) => st.default_value,
        None => None,
    }
}

/// Where the declaration of the statement at `index` begins.
pub open spec fn declaration_start_at(statements: Seq<StatementView>, index: int) -> Option<u32> {
    match statement_at(statements, index) {
        Some(st) => st.declaration_start,
        None => None,
    }
}

/// The declarators of the statement at `index`.
pub open spec fn variables_at(statements: Seq<StatementView>, index: int) -> Seq<Seq<Seq<char>>> {
    match statement_at(statements, index) {
        Some(st) => st.variables,
        None => Seq::empty(),
    }
}

/// The names that the declarator at `at` binds; none where there is no
/// such declarator.
pub open spec fn variable_names_at(statements: Seq<StatementView>, index: int, at: int) -> Seq<
    Seq<char>,
> {
    match element_at(variables_at(statements, index), at) {
        Some(names) => names,
        None => Seq::empty(),
    }
}

/// The name of the function or class that the statement at `index`
/// declares.
pub open spec fn declared_name_at(statements: Seq<StatementView>, index: int) -> Option<Seq<char>> {
    match statement_at(statements, index) {
        Some(st) => st.declared_name,
        None => None,
    }
}

/// The export list of the statement at `index`.
pub open spec fn entries_at(statements: Seq<StatementView>, index: int) -> Seq<
    (Seq<char>, Seq<char>),
> {
    match statement_at(statements, index) {
        Some(st) => st.entries,
        None => Seq::empty(),
    }
}

/// The texts of a pair of names.
pub open spec fn pair_text(pair: Option<(String, String)>) -> Option<(Seq<char>, Seq<char>)> {
    match pair {
        Some((a, b)) => Some((a@, b@)),
        None => None,
    }
}

/// A fresh arena. Wraps `oxc_allocator::Allocator::default`.
#[verifier::external_body]
fn new_arena() -> oxc_allocator::Allocator {
    oxc_allocator::Allocator::default()
}

/// Parses `source` in the dialect that the extension of `path` names, as a
/// JavaScript module where it names none. Wraps `oxc_parser::Parser::parse`
/// and `oxc_span::SourceType::from_path`. What comes out is a function of
/// the two texts alone.
#[verifier::external_body]
fn parse_source<'a>(
    arena: &'a oxc_allocator::Allocator,
    source: &'a str,
    path: &str,
) -> (parsed: oxc_parser::ParserReturn<'a>)
    ensures
        report_of(parsed) == parsed_module(source@, path@),
{
    let dialect = oxc_span::SourceType::from_path(path).unwrap_or_default();
    oxc_parser::Parser::new(arena, source, dialect).parse()
}

/// The number of syntax errors: the length of `ParserReturn::errors`.
#[verifier::external_body]
fn syntax_error_count(parsed: &oxc_parser::ParserReturn<'_>) -> (count: usize)
    ensures
        count == error_count_in(*parsed),
{
    parsed.errors.len()
}

/// The number of top-level statements: the length of `Program::body`.
#[verifier::external_body]
fn statement_count(parsed: &oxc_parser::ParserReturn<'_>) -> (count: usize)
    ensures
        count == statements_in(*parsed).len(),
{
    parsed.program.body.len()
}

/// The kind of the top-level statement at `index` and the two ends of its
/// span, read from `Program::body`.
#[verifier::external_body]
fn statement_head(parsed: &oxc_parser::ParserReturn<'_>, index: usize) -> (head: Option<
    (StatementKind, u32, u32),
>)
    ensures
        head == head_at(statements_in(*parsed), index as int),
{
    let statement = parsed.program.body.get(index)?;
    let kind = match statement {
        oxc_ast::ast::Statement::ImportDeclaration(_) => StatementKind::Import,
        oxc_ast::ast::Statement::ExportDefaultDeclaration(_) => StatementKind::ExportDefault,
        oxc_ast::ast::Statement::ExportNamedDeclaration(_) => StatementKind::ExportNamed,
        oxc_ast::ast::Statement::ExportAllDeclaration(_) => StatementKind::ExportAll,
        _ => StatementKind::Other,
    };
    let span = oxc_span::GetSpan::span(statement);
    Some((kind, span.start, span.end))
}

/// The module specifier of the import or export statement at `index`: the
/// value of its `source` literal.
#[verifier::external_body]
fn statement_source(parsed: &oxc_parser::ParserReturn<'_>, index: usize) -> (source: Option<String>)
    ensures
        crate::graph::text_of(source) == source_at(statements_in(*parsed), index as int),
{
    match parsed.program.body.get(index)? {
        oxc_ast::ast::Statement::ImportDeclaration(d) => Some(d.source.value.to_string()),
        oxc_ast::ast::Statement::ExportAllDeclaration(d) => Some(d.source.value.to_string()),
        oxc_ast::ast::Statement::ExportNamedDeclaration(d) => d.source.as_ref().map(
            |s| s.value.to_string(),
        ),
        _ => None,
    }
}

/// The number of specifiers of the import statement at `index`: the length
/// of `ImportDeclaration::specifiers`.
#[verifier::external_body]
fn import_specifier_count(parsed: &oxc_parser::ParserReturn<'_>, index: usize) -> (count: usize)
    ensures
        count == bindings_at(statements_in(*parsed), index as int).len(),
{
    match parsed.program.body.get(index) {
        Some(oxc_ast::ast::Statement::ImportDeclaration(d)) => d.specifiers.as_ref().map_or(
            0,
            |list| list.len(),
        ),
        _ => 0,
    }
}

/// The specifier at `at` of the import statement at `index`: its form, its
/// local name and, for a named import, the imported name.
#[verifier::external_body]
fn import_specifier(parsed: &oxc_parser::ParserReturn<'_>, index: usize, at: usize) -> (binding:
    Option<(BindingKind, String, Option<String>)>)
    ensures
        binding_text(binding) == element_at(
            bindings_at(statements_in(*parsed), index as int),
            at as int,
        ),
{
    let Some(oxc_ast::ast::Statement::ImportDeclaration(d)) = parsed.program.body.get(index) else {
        return None;
    };
    match d.specifiers.as_ref()?.get(at)? {
        oxc_ast::ast::ImportDeclarationSpecifier::ImportSpecifier(s) => Some(
            (BindingKind::Named, s.local.name.to_string(), Some(s.imported.name().to_string())),
        ),
        oxc_ast::ast::ImportDeclarationSpecifier::ImportDefaultSpecifier(s) => Some(
            (BindingKind::Default, s.local.name.to_string(), None),
        ),
        oxc_ast::ast::ImportDeclarationSpecifier::ImportNamespaceSpecifier(s) => Some(
            (BindingKind::Namespace, s.local.name.to_string(), None),
        ),
    }
}

/// Of the `export default` statement at `index`: where what it exports
/// begins, and whether that is TypeScript syntax, such as an interface or
/// a declaration marked `declare`. Wraps
/// `ExportDefaultDeclarationKind::is_typescript_syntax`.
#[verifier::external_body]
fn export_default_value(parsed: &oxc_parser::ParserReturn<'_>, index: usize) -> (value: Option<
    (u32, bool),
>)
    ensures
        value == default_value_at(statements_in(*parsed), index as int),
{
    match parsed.program.body.get(index) {
        Some(oxc_ast::ast::Statement::ExportDefaultDeclaration(d)) => Some(
            (oxc_span::GetSpan::span(&d.declaration).start, d.declaration.is_typescript_syntax()),
        ),
        _ => None,
    }
}

/// Where the declaration of the export statement at `index` begins, where
/// the statement holds one.
#[verifier::external_body]
fn export_declaration_start(parsed: &oxc_parser::ParserReturn<'_>, index: usize) -> (start: Option<
    u32,
>)
    ensures
        start == declaration_start_at(statements_in(*parsed), index as int),
{
    match parsed.program.body.get(index) {
        Some(oxc_ast::ast::Statement::ExportNamedDeclaration(d)) => d.declaration.as_ref().map(
            |declaration| oxc_span::GetSpan::span(declaration).start,
        ),
        _ => None,
    }
}

/// The number of declarators of the variable declaration that the export
/// statement at `index` holds; 0 where it holds none.
#[verifier::external_body]
fn export_variable_count(parsed: &oxc_parser::ParserReturn<'_>, index: usize) -> (count: usize)
    ensures
        count == variables_at(statements_in(*parsed), index as int).len(),
{
    match parsed.program.body.get(index) {
        Some(oxc_ast::ast::Statement::ExportNamedDeclaration(d)) => match &d.declaration {
            Some(oxc_ast::ast::Declaration::VariableDeclaration(v)) => v.declarations.len(),
            _ => 0,
        },
        _ => 0,
    }
}

/// The names that the declarator at `at` binds, in the variable declaration
/// that the export statement at `index` holds. Wraps
/// `BindingPattern::get_binding_identifiers`.
#[verifier::external_body]
fn export_variable_names(parsed: &oxc_parser::ParserReturn<'_>, index: usize, at: usize) -> (names:
    Vec<String>)
    ensures
        crate::graph::names_of(names@) == variable_names_at(
            statements_in(*parsed),
            index as int,
            at as int,
        ),
{
    match parsed.program.body.get(index) {
        Some(oxc_ast::ast::Statement::ExportNamedDeclaration(d)) => match &d.declaration {
            Some(oxc_ast::ast::Declaration::VariableDeclaration(v)) => v.declarations.get(
                at,
            ).map_or(
                Vec::new(),
                |one| one.id.get_binding_identifiers().iter().map(|b| b.name.to_string()).collect(),
            ),
            _ => Vec::new(),
        },
        _ => Vec::new(),
    }
}

/// The name of the function or class that the export statement at `index`
/// declares.
#[verifier::external_body]
fn export_declared_name(parsed: &oxc_parser::ParserReturn<'_>, index: usize) -> (name: Option<
    String,
>)
    ensures
        crate::graph::text_of(name) == declared_name_at(statements_in(*parsed), index as int),
{
    match parsed.program.body.get(index) {
        Some(oxc_ast::ast::Statement::ExportNamedDeclaration(d)) => match &d.declaration {
            Some(oxc_ast::ast::Declaration::FunctionDeclaration(f)) => f.id.as_ref().map(
                |id| id.name.to_string(),
            ),
            Some(oxc_ast::ast::Declaration::ClassDeclaration(c)) => c.id.as_ref().map(
                |id| id.name.to_string(),
            ),
            _ => None,
        },
        _ => None,
    }
}

/// The number of specifiers in the list of the export statement at `index`.
#[verifier::external_body]
fn export_specifier_count(parsed: &oxc_parser::ParserReturn<'_>, index: usize) -> (count: usize)
    ensures
        count == entries_at(statements_in(*parsed), index as int).len(),
{
    match parsed.program.body.get(index) {
        Some(oxc_ast::ast::Statement::ExportNamedDeclaration(d)) => d.specifiers.len(),
        _ => 0,
    }
}

/// The specifier at `at` in the list of the export statement at `index`:
/// its local name and its exported name.
#[verifier::external_body]
fn export_specifier(parsed: &oxc_parser::ParserReturn<'_>, index: usize, at: usize) -> (pair: Option<
    (String, String),
>)
    ensures
        pair_text(pair) == element_at(entries_at(statements_in(*parsed), index as int), at as int),
{
    match parsed.program.body.get(index) {
        Some(oxc_ast::ast::Statement::ExportNamedDeclaration(d)) => d.specifiers.get(at).map(
            |s| (s.local.name().to_string(), s.exported.name().to_string()),
        ),
        _ => None,
    }
}

/// The number of `import(...)` expressions: the length of
/// `ModuleRecord::dynamic_imports`.
#[verifier::external_body]
fn dynamic_import_count(parsed: &oxc_parser::ParserReturn<'_>) -> (count: usize)
    ensures
        count == dynamic_imports_in(*parsed).len(),
{
    parsed.module_record.dynamic_imports.len()
}

/// Of the `import(...)` expression at `index`: the two ends of its span,
/// and the two ends of the span of its argument.
#[verifier::external_body]
fn dynamic_import_spans(parsed: &oxc_parser::ParserReturn<'_>, index: usize) -> (spans: Option<
    (u32, u32, u32, u32),
>)
    ensures
        spans == element_at(dynamic_imports_in(*parsed), index as int),
{
    parsed.module_record.dynamic_imports.get(index).map(
        |d| (d.span.start, d.span.end, d.module_request.start, d.module_request.end),
    )
}

/// The value of a string literal. Wraps `oxc_parser::Parser::parse_expression`,
/// in the dialect that `oxc_span::SourceType::from_path` gives for `path`:
/// where the parser reads `text` as an expression without an error, and
/// the expression is a string literal, the result is the value that the
/// parser gives for it; else there is none.
#[verifier::external_body]
fn literal_of(text: &str, path: &str) -> (value: Option<String>)
    ensures
        text_of(value) == string_literal(text@, path@),
{
    let arena = oxc_allocator::Allocator::default();
    let dialect = oxc_span::SourceType::from_path(path).unwrap_or_default();
    match oxc_parser::Parser::new(&arena, text, dialect).parse_expression() {
        Ok(oxc_ast::ast::Expression::StringLiteral(literal)) => Some(literal.value.to_string()),
        _ => None,
    }
}

/// The text that stands in `source` from byte `from` up to byte `to`.
pub fn slice_between<'a>(source: &'a str, from: usize, to: usize) -> (found: Option<&'a str>)
    ensures
        match found {
            Some(text) => text_between(source@, from as int, to as int) == Some(text@),
            None => text_between(source@, from as int, to as int) is None,
        },
{
    let bytes = source.as_bytes();
    if to > bytes.len() || from > to {
        return None;
    }
    if !source.is_char_boundary(from) || !source.is_char_boundary(to) {
        return None;
    }
    let (head, _) = source.split_at(to);
    proof {
        let whole = bytes@;
        let front = whole.subrange(0, to as int);
        encode_utf8_valid_utf8(source@);
        valid_utf8_split(whole, to as int);
        assert(encode_utf8(head@) =~= front);
        if from == to {
            is_char_boundary_start_end_of_seq(front);
        } else {
            is_char_boundary_iff_not_is_continuation_byte(whole, from as int);
            is_char_boundary_iff_not_is_continuation_byte(front, from as int);
        }
    }
    let (_, inner) = head.split_at(from);
    proof {
        assert(encode_utf8(inner@) =~= bytes@.subrange(from as int, to as int));
        encode_utf8_decode_utf8(inner@);
    }
    Some(inner)
}

/// The value of the string literal that stands in `source` from byte
/// `start` up to byte `end`, where one stands there and nothing else.
pub fn literal_value(source: &str, path: &str, start: usize, end: usize) -> (value: Option<String>)
    ensures
        text_of(value) == literal_text(source@, path@, start as int, end as int),
{
    match slice_between(source, start, end) {
        Some(text) => literal_of(text, path),
        None => None,
    }
}

/// Puts an import into a list that is in the order of the text, unless the
/// list holds an import that begins at the same place.
pub fn put_import(list: &mut Vec<DynamicImport>, entry: DynamicImport)
    ensures
        dynamics_of(final(list)@) == with_import(dynamics_of(old(list)@), entry@),
{
    let ghost all = dynamics_of(list@);
    let mut k: usize = 0;
    assert(all.skip(0) =~= all);
    while k < list.len() && list[k].start < entry.start
        invariant
            k <= list.len(),
            all == dynamics_of(list@),
            list@ == old(list)@,
            begun_before(all, entry.start) == k + begun_before(all.skip(k as int), entry.start),
        decreases list.len() - k,
    {
        assert(all.skip(k as int)[0] == all[k as int]);
        assert(all.skip(k as int).skip(1) =~= all.skip(k + 1));
        k += 1;
    }
    proof {
        if k < list.len() {
            assert(all.skip(k as int)[0] == all[k as int]);
        }
        assert(begun_before(all, entry.start) == k);
    }
    if k < list.len() && list[k].start == entry.start {
        return ;
    }
    list.insert(k, entry);
    assert(dynamics_of(list@) =~= all.insert(k as int, entry@));
}

/// The binding of an import statement that the parser's report gives; a
/// named binding without an imported name gives none.
pub open spec fn binding_from(binding: Binding) -> Option<ImportSpecifierView> {
    match binding {
        (BindingKind::Default, local, _) => Some(ImportSpecifierView::Default { local }),
        (BindingKind::Namespace, local, _) => Some(ImportSpecifierView::Namespace { local }),
        (BindingKind::Named, local, Some(imported)) => Some(
            ImportSpecifierView::Named { imported, local },
        ),
        (BindingKind::Named, _, None) => None,
    }
}

/// The bindings of an import statement, from the first `upto` that the
/// parser reports.
pub open spec fn bindings_from(list: Seq<Binding>, upto: int) -> Seq<ImportSpecifierView>
    decreases upto,
{
    if upto <= 0 {
        Seq::empty()
    } else {
        let rest = bindings_from(list, upto - 1);
        match binding_from(list[upto - 1]) {
            Some(binding) => rest.push(binding),
            None => rest,
        }
    }
}

/// The names of an export list, as the parser reports them.
pub open spec fn entries_from(list: Seq<(Seq<char>, Seq<char>)>) -> Seq<ExportSpecifierView> {
    list.map_values(
        |pair: (Seq<char>, Seq<char>)| ExportSpecifierView { local: pair.0, exported: pair.1 },
    )
}

/// The names that the first `upto` declarators bind, one declarator after
/// the other.
pub open spec fn variable_names(variables: Seq<Seq<Seq<char>>>, upto: int) -> Seq<Seq<char>>
    decreases upto,
{
    if upto <= 0 {
        Seq::empty()
    } else {
        variable_names(variables, upto - 1) + variables[upto - 1]
    }
}

/// The names that an exported declaration binds: those of its declarators,
/// and the name of a function or class.
pub open spec fn declared_names(st: StatementView) -> Seq<Seq<char>> {
    let names = variable_names(st.variables, st.variables.len() as int);
    match st.declared_name {
        Some(name) => names.push(name),
        None => names,
    }
}

/// What the bundler makes of one statement of the parser's report: import
/// and export statements become items, all else and what is TypeScript
/// alone is passed over.
pub open spec fn item_from(st: StatementView) -> Option<ModuleItemView> {
    match st.kind {
        StatementKind::Import => match st.source {
            Some(source) => Some(
                ModuleItemView::Import {
                    start: st.start as usize,
                    end: st.end as usize,
                    source,
                    specifiers: bindings_from(st.bindings, st.bindings.len() as int),
                },
            ),
            None => None,
        },
        StatementKind::ExportDefault => match st.default_value {
            Some((value_start, false)) => Some(
                ModuleItemView::ExportDefault {
                    start: st.start as usize,
                    end: st.end as usize,
                    value_start: value_start as usize,
                },
            ),
            _ => None,
        },
        StatementKind::ExportNamed => match st.declaration_start {
            Some(declaration_start) => Some(
                ModuleItemView::ExportDeclaration {
                    start: st.start as usize,
                    end: st.end as usize,
                    declaration_start: declaration_start as usize,
                    names: declared_names(st),
                },
            ),
            None => Some(
                ModuleItemView::ExportList {
                    start: st.start as usize,
                    end: st.end as usize,
                    entries: entries_from(st.entries),
                    from: st.source,
                },
            ),
        },
        StatementKind::ExportAll => match st.source {
            Some(source) => Some(
                ModuleItemView::ExportAll { start: st.start as usize, end: st.end as usize, source },
            ),
            None => None,
        },
        StatementKind::Other => None,
    }
}

/// The items of the first `upto` statements of the parser's report.
pub open spec fn items_from(statements: Seq<StatementView>, upto: int) -> Seq<ModuleItemView>
    decreases upto,
{
    if upto <= 0 {
        Seq::empty()
    } else {
        let rest = items_from(statements, upto - 1);
        match item_from(statements[upto - 1]) {
            Some(item) => rest.push(item),
            None => rest,
        }
    }
}

/// The value of the string literal that `text` is, in the dialect that
/// the extension of `path` names, where the parser reads `text` as one
/// string literal and nothing else.
pub uninterp spec fn string_literal(text: Seq<char>, path: Seq<char>) -> Option<Seq<char>>;

/// The value of the string literal that stands in `source` from byte
/// `from` up to byte `to`, where one stands there and nothing else.
pub open spec fn literal_text(source: Seq<char>, path: Seq<char>, from: int, to: int) -> Option<
    Seq<char>,
> {
    match text_between(source, from, to) {
        Some(text) => string_literal(text, path),
        None => None,
    }
}

/// The dynamic import that the bundler makes of the spans that the parser
/// reports: the specifier is the value of the argument, where that is a
/// string literal.
pub open spec fn dynamic_from(source: Seq<char>, path: Seq<char>, spans: (u32, u32, u32, u32)) -> DynamicImportView {
    DynamicImportView {
        start: spans.0 as usize,
        end: spans.1 as usize,
        source: literal_text(source, path, spans.2 as int, spans.3 as int),
    }
}

/// The dynamic imports that the bundler makes of the parser's record.
/// The record holds an import once for each time that the parser read it,
/// in the order in which it read them; the bundler holds each once, in
/// the order of the text.
pub open spec fn dynamics_from(
    record: Seq<(u32, u32, u32, u32)>,
    source: Seq<char>,
    path: Seq<char>,
) -> Seq<DynamicImportView> {
    arranged(
        record.map_values(|spans: (u32, u32, u32, u32)| dynamic_from(source, path, spans)),
        record.len() as int,
    )
}

/// The module syntax that the bundler makes of the parser's report.
pub open spec fn syntax_from(report: ParsedView, source: Seq<char>, path: Seq<char>) -> ModuleSyntaxView {
    ModuleSyntaxView {
        items: items_from(report.statements, report.statements.len() as int),
        dynamic_imports: dynamics_from(report.dynamic_imports, source, path),
        errors: report.errors as usize,
    }
}

/// The module syntax of a source file: what the bundler makes of what the
/// parser reports of `source`, in the dialect that the extension of
/// `path` names.
pub open spec fn module_syntax(source: Seq<char>, path: Seq<char>) -> ModuleSyntaxView {
    syntax_from(parsed_module(source, path), source, path)
}

fn read_import_specifiers(parsed: &oxc_parser::ParserReturn<'_>, index: usize) -> (specifiers: Vec<
    ImportSpecifier,
>)
    ensures
        bindings_of(specifiers@) == bindings_from(
            bindings_at(statements_in(*parsed), index as int),
            bindings_at(statements_in(*parsed), index as int).len() as int,
        ),
{
    let ghost list = bindings_at(statements_in(*parsed), index as int);
    let mut specifiers: Vec<ImportSpecifier> = Vec::new();
    let count = import_specifier_count(parsed, index);
    let mut at: usize = 0;
    assert(bindings_of(specifiers@) =~= bindings_from(list, 0));
    while at < count
        invariant
            at <= count,
            count == list.len(),
            list == bindings_at(statements_in(*parsed), index as int),
            bindings_of(specifiers@) == bindings_from(list, at as int),
        decreases count - at,
    {
        let ghost before = bindings_of(specifiers@);
        match import_specifier(parsed, index, at) {
            Some((BindingKind::Default, local, _)) => {
                specifiers.push(ImportSpecifier::Default { local });
                assert(bindings_of(specifiers@) =~= before.push(
                    ImportSpecifierView::Default { local: local@ },
                ));
            },
            Some((BindingKind::Namespace, local, _)) => {
                specifiers.push(ImportSpecifier::Namespace { local });
                assert(bindings_of(specifiers@) =~= before.push(
                    ImportSpecifierView::Namespace { local: local@ },
                ));
            },
            Some((BindingKind::Named, local, Some(imported))) => {
                specifiers.push(ImportSpecifier::Named { imported, local });
                assert(bindings_of(specifiers@) =~= before.push(
                    ImportSpecifierView::Named { imported: imported@, local: local@ },
                ));
            },
            _ => {},
        }
        at += 1;
    }
    specifiers
}

fn read_export_specifiers(parsed: &oxc_parser::ParserReturn<'_>, index: usize) -> (specifiers: Vec<
    ExportSpecifier,
>)
    ensures
        entries_of(specifiers@) == entries_from(entries_at(statements_in(*parsed), index as int)),
{
    let ghost list = entries_at(statements_in(*parsed), index as int);
    let mut specifiers: Vec<ExportSpecifier> = Vec::new();
    let count = export_specifier_count(parsed, index);
    let mut at: usize = 0;
    assert(entries_of(specifiers@) =~= entries_from(list).take(0));
    while at < count
        invariant
            at <= count,
            count == list.len(),
            list == entries_at(statements_in(*parsed), index as int),
            entries_of(specifiers@) == entries_from(list).take(at as int),
        decreases count - at,
    {
        let ghost before = entries_of(specifiers@);
        match export_specifier(parsed, index, at) {
            Some((local, exported)) => {
                specifiers.push(ExportSpecifier { local, exported });
                assert(entries_of(specifiers@) =~= before.push(
                    ExportSpecifierView { local: local@, exported: exported@ },
                ));
            },
            None => {},
        }
        assert(entries_of(specifiers@) =~= entries_from(list).take(at + 1));
        at += 1;
    }
    assert(entries_from(list).take(count as int) =~= entries_from(list));
    specifiers
}

fn read_declared_names(parsed: &oxc_parser::ParserReturn<'_>, index: usize) -> (names: Vec<String>)
    requires
        index < statements_in(*parsed).len(),
    ensures
        crate::graph::names_of(names@) == declared_names(statements_in(*parsed)[index as int]),
{
    let ghost st = statements_in(*parsed)[index as int];
    let mut names: Vec<String> = Vec::new();
    let count = export_variable_count(parsed, index);
    let mut at: usize = 0;
    assert(crate::graph::names_of(names@) =~= variable_names(st.variables, 0));
    while at < count
        invariant
            at <= count,
            index < statements_in(*parsed).len(),
            st == statements_in(*parsed)[index as int],
            count == st.variables.len(),
            crate::graph::names_of(names@) == variable_names(st.variables, at as int),
        decreases count - at,
    {
        let ghost before = crate::graph::names_of(names@);
        let mut bound = export_variable_names(parsed, index, at);
        let ghost more = crate::graph::names_of(bound@);
        names.append(&mut bound);
        assert(crate::graph::names_of(names@) =~= before + more);
        at += 1;
    }
    let ghost before = crate::graph::names_of(names@);
    match export_declared_name(parsed, index) {
        Some(name) => {
            names.push(name);
            assert(crate::graph::names_of(names@) =~= before.push(name@));
        },
        None => {},
    }
    names
}

fn read_item(
    parsed: &oxc_parser::ParserReturn<'_>,
    index: usize,
    kind: StatementKind,
    start: u32,
    end: u32,
) -> (item: Option<ModuleItem>)
    requires
        index < statements_in(*parsed).len(),
        kind == statements_in(*parsed)[index as int].kind,
        start == statements_in(*parsed)[index as int].start,
        end == statements_in(*parsed)[index as int].end,
    ensures
        match item {
            Some(found) => item_from(statements_in(*parsed)[index as int]) == Some(found@),
            None => item_from(statements_in(*parsed)[index as int]) is None,
        },
{
    match kind {
        StatementKind::Import => match statement_source(parsed, index) {
            Some(source) => Some(
                ModuleItem::Import {
                    start: start as usize,
                    end: end as usize,
                    source,
                    specifiers: read_import_specifiers(parsed, index),
                },
            ),
            None => None,
        },
        StatementKind::ExportDefault => match export_default_value(parsed, index) {
            Some((value_start, false)) => Some(
                ModuleItem::ExportDefault {
                    start: start as usize,
                    end: end as usize,
                    value_start: value_start as usize,
                },
            ),
            _ => None,
        },
        StatementKind::ExportNamed => match export_declaration_start(parsed, index) {
            Some(declaration_start) => Some(
                ModuleItem::ExportDeclaration {
                    start: start as usize,
                    end: end as usize,
                    declaration_start: declaration_start as usize,
                    names: read_declared_names(parsed, index),
                },
            ),
            None => Some(
                ModuleItem::ExportList {
                    start: start as usize,
                    end: end as usize,
                    entries: read_export_specifiers(parsed, index),
                    from: statement_source(parsed, index),
                },
            ),
        },
        StatementKind::ExportAll => match statement_source(parsed, index) {
            Some(source) => Some(
                ModuleItem::ExportAll { start: start as usize, end: end as usize, source },
            ),
            None => None,
        },
        StatementKind::Other => None,
    }
}

/// Parses `source`, in the dialect that the extension of `path` names, and
/// reads its module syntax. What the statements are is the parser's word.
/// The dynamic imports are those of the parser's record, each once and in
/// the order of the text. The specifier of one is the value that the
/// parser gives for its argument, where that is a string literal: any
/// other expression, one made of literals too, has none.
pub fn read_module(source: &str, path: &str) -> (syntax: ModuleSyntax)
    ensures
        syntax@ == module_syntax(source@, path@),
        in_text_order(syntax@.dynamic_imports),
        syntax.errors == parsed_module(source@, path@).errors,
{
    let arena = new_arena();
    let parsed = parse_source(&arena, source, path);
    let ghost report = parsed_module(source@, path@);
    let errors = syntax_error_count(&parsed);
    let mut items: Vec<ModuleItem> = Vec::new();
    let count = statement_count(&parsed);
    let mut index: usize = 0;
    assert(items_of(items@) =~= items_from(report.statements, 0));
    while index < count
        invariant
            index <= count,
            report == report_of(parsed),
            count == report.statements.len(),
            items_of(items@) == items_from(report.statements, index as int),
        decreases count - index,
    {
        let ghost before = items_of(items@);
        match statement_head(&parsed, index) {
            Some((kind, start, end)) => {
                match read_item(&parsed, index, kind, start, end) {
                    Some(item) => {
                        items.push(item);
                        assert(items_of(items@) =~= before.push(item@));
                    },
                    None => {},
                }
            },
            None => {},
        }
        index += 1;
    }
    let ghost wanted = report.dynamic_imports.map_values(
        |spans: (u32, u32, u32, u32)| dynamic_from(source@, path@, spans),
    );
    let mut dynamic_imports: Vec<DynamicImport> = Vec::new();
    let dynamic_count = dynamic_import_count(&parsed);
    let mut at: usize = 0;
    assert(dynamics_of(dynamic_imports@) =~= arranged(wanted, 0));
    while at < dynamic_count
        invariant
            at <= dynamic_count,
            report == report_of(parsed),
            dynamic_count == report.dynamic_imports.len(),
            wanted == report.dynamic_imports.map_values(
                |spans: (u32, u32, u32, u32)| dynamic_from(source@, path@, spans),
            ),
            dynamics_of(dynamic_imports@) == arranged(wanted, at as int),
        decreases dynamic_count - at,
    {
        match dynamic_import_spans(&parsed, at) {
            Some((start, end, from, to)) => {
                let value = literal_value(source, path, from as usize, to as usize);
                let found = DynamicImport { start: start as usize, end: end as usize, source: value };
                assert(found@ == dynamic_from(source@, path@, (start, end, from, to)));
                put_import(&mut dynamic_imports, found);
            },
            None => {},
        }
        at += 1;
    }
    proof {
        lemma_arranged_order(wanted, dynamic_count as int);
    }
    ModuleSyntax { items, dynamic_imports, errors }
}

} // verus!
