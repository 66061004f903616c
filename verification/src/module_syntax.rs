//! Whether a parsed file is an ES module, and when a parse is retried as
//! one.
//!
//! The parser's own verdict is not enough: TypeScript's CommonJS
//! constructs (`import =`, `export =`) report a module too, but compile to
//! `require` / `module.exports`.

use vstd::prelude::*;
use vstd::string::StringSliceAdditionalSpecFns;
use crate::text::bytes_equal;
use crate::unix_path::{extension, extension_bytes};
use crate::transform_options::ModuleTarget;

verus! {

broadcast use {vstd::seq::group_seq_axioms, vstd::seq_lib::group_seq_properties};

/// The kinds of top-level statement that decide the module format.
#[derive(Clone, Copy, PartialEq, Eq, Structural, Debug)]
pub enum StatementKind {
    ImportDeclaration,
    ExportAllDeclaration,
    ExportDefaultDeclaration,
    ExportDeclaration,
    ExportNamedDeclaration,
    ExportFromDeclaration,
    /// `export = value`
    TsExportAssignment,
    /// `import x = require("...")`
    TsImportEqualsDeclaration,
    Other,
}

/// What the module decisions read of a parsed program.
pub struct ProgramSummary {
    /// The kinds of the top-level statements, in order.
    pub statements: Vec<StatementKind>,
    /// Whether the program uses `import.meta`.
    pub has_import_meta: bool,
    /// Whether the parser resolved the program to an ES module (top-level
    /// await included).
    pub source_is_module: bool,
}

/// An `import` or `export` declaration of ECMAScript.
pub open spec fn is_esm_statement(kind: StatementKind) -> bool {
    matches!(
        kind,
        StatementKind::ImportDeclaration | StatementKind::ExportAllDeclaration
            | StatementKind::ExportDefaultDeclaration | StatementKind::ExportDeclaration
            | StatementKind::ExportNamedDeclaration | StatementKind::ExportFromDeclaration
    )
}

/// TypeScript's CommonJS constructs.
pub open spec fn is_ts_commonjs_statement(kind: StatementKind) -> bool {
    kind == StatementKind::TsExportAssignment || kind == StatementKind::TsImportEqualsDeclaration
}

/// An `import`/`export` declaration among the statements.
pub open spec fn esm_statements(statements: Seq<StatementKind>) -> bool {
    exists|i: int| 0 <= i < statements.len() && is_esm_statement(#[trigger] statements[i])
}

/// `import =` or `export =` among the statements.
pub open spec fn ts_commonjs_statements(statements: Seq<StatementKind>) -> bool {
    exists|i: int| 0 <= i < statements.len() && is_ts_commonjs_statement(#[trigger] statements[i])
}

/// The program carries ECMAScript module syntax: an `import`/`export`
/// declaration or `import.meta`.
pub open spec fn esm_syntax(p: ProgramSummary) -> bool {
    p.has_import_meta || esm_statements(p.statements@)
}

/// The program holds `import =` or `export =`.
pub open spec fn ts_commonjs_syntax(p: ProgramSummary) -> bool {
    ts_commonjs_statements(p.statements@)
}

/// A program with these statements, `import.meta` or not, resolved to a
/// module by the parser or not, is an ES module whose output keeps module
/// syntax: it has `import`/`export`/`import.meta`, or the parser resolved
/// it to a module (top-level await) and it holds no TypeScript CommonJS
/// construct.
pub open spec fn module_output(
    statements: Seq<StatementKind>,
    has_import_meta: bool,
    source_is_module: bool,
) -> bool {
    (has_import_meta || esm_statements(statements)) || (source_is_module
        && !ts_commonjs_statements(statements))
}

/// The program is an ES module whose output keeps module syntax.
pub open spec fn esm_output(p: ProgramSummary) -> bool {
    module_output(p.statements@, p.has_import_meta, p.source_is_module)
}

/// Whether the program carries ECMAScript module syntax.
pub fn has_esm_syntax(program: &ProgramSummary) -> (res: bool)
    ensures
        res == esm_syntax(*program),
{
    if program.has_import_meta {
        return true;
    }
    let mut i: usize = 0;
    while i < program.statements.len()
        invariant
            i <= program.statements@.len(),
            forall|k: int| 0 <= k < i ==> !is_esm_statement(#[trigger] program.statements@[k]),
        decreases program.statements@.len() - i,
    {
        let kind = program.statements[i];
        match kind {
            StatementKind::ImportDeclaration | StatementKind::ExportAllDeclaration
            | StatementKind::ExportDefaultDeclaration | StatementKind::ExportDeclaration
            | StatementKind::ExportNamedDeclaration | StatementKind::ExportFromDeclaration => {
                assert(is_esm_statement(program.statements@[i as int]));
                return true;
            },
            _ => {},
        }
        i += 1;
    }
    false
}

/// Whether the program holds `import =` or `export =`.
fn has_ts_commonjs_syntax(program: &ProgramSummary) -> (res: bool)
    ensures
        res == ts_commonjs_syntax(*program),
{
    let mut i: usize = 0;
    while i < program.statements.len()
        invariant
            i <= program.statements@.len(),
            forall|k: int|
                0 <= k < i ==> !is_ts_commonjs_statement(#[trigger] program.statements@[k]),
        decreases program.statements@.len() - i,
    {
        let kind = program.statements[i];
        match kind {
            StatementKind::TsExportAssignment | StatementKind::TsImportEqualsDeclaration => {
                assert(is_ts_commonjs_statement(program.statements@[i as int]));
                return true;
            },
            _ => {},
        }
        i += 1;
    }
    false
}

/// Whether the file is an ES module whose output keeps ECMAScript module
/// syntax.
pub fn parsed_as_esm(program: &ProgramSummary) -> (res: bool)
    ensures
        res == esm_output(*program),
{
    let ts_cjs_construct = has_ts_commonjs_syntax(program);
    has_esm_syntax(program) || (program.source_is_module && !ts_cjs_construct)
}

/// The extensions whose files are scripts or modules by their content:
/// `js`, `jsx`, `ts` and `tsx` (`.mjs`/`.mts` are modules and
/// `.cjs`/`.cts` CommonJS by contract).
pub open spec fn ambiguous_ext(e: Seq<u8>) -> bool {
    e == "js".spec_bytes() || e == "jsx".spec_bytes() || e == "ts".spec_bytes() || e
        == "tsx".spec_bytes()
}

/// A path whose extension leaves its kind to its content.
pub open spec fn ambiguous_extension(path: Seq<u8>) -> bool {
    extension(path) matches Some(e) && ambiguous_ext(e)
}

/// Whether the extension leaves a file's kind to its content.
pub fn is_ambiguous_ext(e: &[u8]) -> (res: bool)
    ensures
        res == ambiguous_ext(e@),
{
    bytes_equal(e, "js".as_bytes()) || bytes_equal(e, "jsx".as_bytes()) || bytes_equal(
        e,
        "ts".as_bytes(),
    ) || bytes_equal(e, "tsx".as_bytes())
}

/// Whether the file is a script or a module by its content alone.
pub fn has_ambiguous_extension(path: &str) -> (res: bool)
    ensures
        res == ambiguous_extension(path.spec_bytes()),
{
    match extension_bytes(path.as_bytes()) {
        Some(e) => is_ambiguous_ext(e),
        None => false,
    }
}

/// Whether a file that failed to parse may be parsed again as a module:
/// only on the load-hook path (which preserves module syntax and reports
/// a format back), only for a file not already reported as an ES module,
/// and only for the ambiguous extensions.
pub fn module_retry_allowed(
    is_es_module: bool,
    module_target: Option<ModuleTarget>,
    ambiguous: bool,
) -> (res: bool)
    ensures
        res == (!is_es_module && module_target == Some(ModuleTarget::Preserve) && ambiguous),
{
    !is_es_module && module_target == Some(ModuleTarget::Preserve) && ambiguous
}

/// Whether a parse is retried as a module: retrying is allowed, the
/// file's kind was left to its content, and the first parse failed.
pub fn retries_as_module(allow_module_retry: bool, ambiguous: bool, first_parse_failed: bool) -> (res:
    bool)
    ensures
        res == (allow_module_retry && ambiguous && first_parse_failed),
{
    allow_module_retry && ambiguous && first_parse_failed
}

/// Whether a file reported as CommonJS is handed back as an ES module:
/// it only parsed as a module, or retrying was allowed and it is one.
pub fn flips_to_module(only_module_parse: bool, allow_module_retry: bool, program: &ProgramSummary) -> (res:
    bool)
    ensures
        res == (only_module_parse || (allow_module_retry && esm_output(*program))),
{
    only_module_parse || (allow_module_retry && parsed_as_esm(program))
}

/// Whether top-level `await` is lowered: when asked for, except in a file
/// that flips to an ES module, which keeps its top-level awaits.
pub fn lowers_top_level_await(enable_top_level_await: bool, flip_to_module: bool) -> (res: bool)
    ensures
        res == (enable_top_level_await && !flip_to_module),
{
    enable_top_level_await && !flip_to_module
}

} // verus!
