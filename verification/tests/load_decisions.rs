use oxc_node::url_rules::UrlRules;
use oxc_node::load::{
    code_with_inline_map, commonjs_probe_outcome, commonjs_probe_path, failure_message,
    join_errors, load_lookup_path, load_passes_through, load_plan, output_without_source,
    skips_dependencies, source_text, transformed_output, FailedStage, LoadFnOutput, LoadPlan,
    ModuleSource, ProbeOutcome, SourceError,
};
use oxc_node::module_syntax::{
    flips_to_module, has_ambiguous_extension, has_esm_syntax, lowers_top_level_await,
    module_retry_allowed, parsed_as_esm, retries_as_module, ProgramSummary, StatementKind,
};
use oxc_node::transform_options::ModuleTarget;

fn loaded(format: &str, source: Option<ModuleSource>) -> LoadFnOutput {
    LoadFnOutput { format: format.to_owned(), source, response_url: None }
}

fn text(s: &str) -> Option<ModuleSource> {
    Some(ModuleSource::Text(s.to_owned()))
}

fn program(statements: &[StatementKind], has_import_meta: bool, source_is_module: bool) -> ProgramSummary {
    ProgramSummary { statements: statements.to_vec(), has_import_meta, source_is_module }
}

#[test]
fn builtin_json_wasm_and_data_urls_pass_through() {
    assert!(load_passes_through("data:text/javascript,1", &Some("module".to_owned())));
    assert!(load_passes_through("file:///a.js", &Some("builtin".to_owned())));
    assert!(load_passes_through("file:///a.json", &Some("json".to_owned())));
    assert!(load_passes_through("file:///a.wasm", &Some("wasm".to_owned())));
    assert!(load_passes_through("file:///a.ts", &None));
    assert!(!load_passes_through("file:///a.ts", &Some("module".to_owned())));
    assert!(!load_passes_through("file:///a.ts", &Some("commonjs".to_owned())));
}

#[test]
fn transform_all_switch() {
    assert!(skips_dependencies(None));
    assert!(skips_dependencies(Some("")));
    assert!(skips_dependencies(Some("0")));
    assert!(skips_dependencies(Some("false")));
    assert!(!skips_dependencies(Some("1")));
    assert!(!skips_dependencies(Some("true")));
}

#[test]
fn load_plans() {
    let dep = "file:///p/node_modules/x/a.ts";
    assert_eq!(load_plan(dep, &loaded("module", text("x")), true), LoadPlan::Unchanged);
    assert_eq!(load_plan(dep, &loaded("module", text("x")), false), LoadPlan::Transform { is_es_module: true });
    assert_eq!(load_plan("file:///p/node_modules/x/d.json", &loaded("module", text("{}")), true), LoadPlan::JsonModule);
    assert_eq!(load_plan("file:///p/d.JSON?v=1", &loaded("module", text("{}")), false), LoadPlan::JsonModule);
    assert_eq!(load_plan("file:///p/a.ts", &loaded("commonjs", None), false), LoadPlan::NoSource);
    assert_eq!(load_plan("file:///p/a.ts", &loaded("commonjs", Some(ModuleSource::Null)), false), LoadPlan::NoSource);
    assert_eq!(
        load_plan("file:///p/a.ts", &loaded("commonjs", Some(ModuleSource::Buffer(b"x".to_vec()))), false),
        LoadPlan::Transform { is_es_module: false }
    );
}

#[test]
fn sources_as_text() {
    assert_eq!(source_text(&ModuleSource::Text("a".to_owned())), Ok("a".to_owned()));
    assert_eq!(source_text(&ModuleSource::Uint8Array("é".as_bytes().to_vec())), Ok("é".to_owned()));
    assert_eq!(source_text(&ModuleSource::Uint8Array(vec![0xff])), Err(SourceError::Uint8ArrayNotUtf8));
    assert_eq!(source_text(&ModuleSource::Buffer(vec![0xc3])), Err(SourceError::BufferNotUtf8));
    assert_eq!(source_text(&ModuleSource::Null), Err(SourceError::InvalidValue));
    assert_eq!(SourceError::InvalidValue.message(), "Invalid value type in LoadFnOutput::source");
    assert_eq!(SourceError::BufferNotUtf8.message(), "Failed to convert Buffer to Vec<u8>");
}

#[test]
fn inline_source_maps() {
    assert_eq!(
        code_with_inline_map("let a = 1;".to_owned(), Some("data:application/json;base64,e30=".to_owned())),
        "let a = 1;\n//# sourceMappingURL=data:application/json;base64,e30="
    );
    assert_eq!(code_with_inline_map("let a = 1;".to_owned(), None), "let a = 1;");
}

#[test]
fn answers_carry_format_source_and_url() {
    let out = output_without_source("file:///a.ts".to_owned(), "commonjs".to_owned());
    assert_eq!(out.format, "commonjs");
    assert!(out.source.is_none());
    assert_eq!(out.response_url, Some("file:///a.ts".to_owned()));
    let out = transformed_output("file:///a.ts".to_owned(), "commonjs".to_owned(), true, "x".to_owned());
    assert_eq!(out.format, "module");
    assert!(matches!(out.source, Some(ModuleSource::Uint8Array(ref b)) if b == b"x"));
    let out = transformed_output("file:///a.ts".to_owned(), "commonjs".to_owned(), false, "x".to_owned());
    assert_eq!(out.format, "commonjs");
}

#[test]
fn commonjs_probe_reads_ambiguous_files_only() {
    assert_eq!(commonjs_probe_path(UrlRules::Plain, "file:///p/a.ts?x=1", "commonjs", false), Some("/p/a.ts".to_owned()));
    assert_eq!(commonjs_probe_path(UrlRules::Plain, "file:///p/a%20b.js", "commonjs", true), Some("/p/a b.js".to_owned()));
    assert_eq!(commonjs_probe_path(UrlRules::Plain, "file:///p/a.ts", "module", false), None);
    assert_eq!(commonjs_probe_path(UrlRules::Plain, "file:///p/node_modules/x/a.ts", "commonjs", true), None);
    assert_eq!(commonjs_probe_path(UrlRules::Plain, "file:///p/node_modules/x/a.ts", "commonjs", false), Some("/p/node_modules/x/a.ts".to_owned()));
    assert_eq!(commonjs_probe_path(UrlRules::Plain, "file:///p/a.cjs", "commonjs", false), None);
    assert_eq!(commonjs_probe_path(UrlRules::Plain, "file:///p/a.cts", "commonjs", false), None);
    assert_eq!(commonjs_probe_path(UrlRules::Plain, "file:///p/a.json", "commonjs", false), None);
    assert_eq!(commonjs_probe_path(UrlRules::Plain, "node:fs", "commonjs", false), None);
}

#[test]
fn probe_outcomes() {
    let esm = program(&[StatementKind::ImportDeclaration], false, true);
    let script = program(&[StatementKind::Other], false, false);
    assert_eq!(commonjs_probe_outcome(false, &script, false), ProbeOutcome::KeepCommonJs);
    assert_eq!(commonjs_probe_outcome(false, &script, true), ProbeOutcome::KeepCommonJs);
    assert_eq!(commonjs_probe_outcome(false, &esm, true), ProbeOutcome::ParseError);
    assert_eq!(commonjs_probe_outcome(false, &esm, false), ProbeOutcome::TransformAsModule);
    assert_eq!(commonjs_probe_outcome(true, &script, false), ProbeOutcome::TransformAsModule);
}

#[test]
fn module_syntax_decides_esm() {
    assert!(has_esm_syntax(&program(&[StatementKind::Other, StatementKind::ExportNamedDeclaration], false, false)));
    assert!(has_esm_syntax(&program(&[], true, false)));
    assert!(!has_esm_syntax(&program(&[StatementKind::TsExportAssignment], false, true)));
    assert!(parsed_as_esm(&program(&[StatementKind::Other], false, true)));
    assert!(!parsed_as_esm(&program(&[StatementKind::TsImportEqualsDeclaration], false, true)));
    assert!(parsed_as_esm(&program(&[StatementKind::TsImportEqualsDeclaration, StatementKind::ExportFromDeclaration], false, true)));
    assert!(!parsed_as_esm(&program(&[StatementKind::Other], false, false)));
}

#[test]
fn module_retries_and_flips() {
    assert!(has_ambiguous_extension("/p/a.tsx"));
    assert!(!has_ambiguous_extension("/p/a.mts"));
    assert!(module_retry_allowed(false, Some(ModuleTarget::Preserve), true));
    assert!(!module_retry_allowed(true, Some(ModuleTarget::Preserve), true));
    assert!(!module_retry_allowed(false, Some(ModuleTarget::CommonJs), true));
    assert!(!module_retry_allowed(false, None, true));
    assert!(!module_retry_allowed(false, Some(ModuleTarget::Preserve), false));
    assert!(retries_as_module(true, true, true));
    assert!(!retries_as_module(true, true, false));
    let esm = program(&[StatementKind::ExportDefaultDeclaration], false, true);
    assert!(flips_to_module(false, true, &esm));
    assert!(!flips_to_module(false, false, &esm));
    assert!(flips_to_module(true, false, &program(&[], false, false)));
    assert!(lowers_top_level_await(true, false));
    assert!(!lowers_top_level_await(true, true));
}

#[test]
fn messages_and_lookup_paths() {
    assert_eq!(failure_message(FailedStage::Parse, "/a.ts", "x"), "Failed to parse /a.ts: x");
    assert_eq!(failure_message(FailedStage::Transform, "/a.ts", "y"), "Failed to transform /a.ts: y");
    assert_eq!(join_errors(&vec!["a".to_owned(), "b".to_owned()]), "a\nb");
    assert_eq!(join_errors(&vec![]), "");
    assert_eq!(load_lookup_path(UrlRules::Plain, "file:///p/a%20b.ts"), "/p/a b.ts");
    assert_eq!(load_lookup_path(UrlRules::Plain, "node:fs"), "node:fs");
}
