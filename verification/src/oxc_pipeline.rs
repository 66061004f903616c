//! Source text to JavaScript through oxc: parsing (retried as a module
//! where that is allowed), the decision whether a file is an ES module, and
//! the transform with the settings that the compiler options give.

use std::borrow::Cow;
use vstd::prelude::*;
use vstd::utf8::encode_utf8;
use oxc::allocator::Allocator;
use oxc::ast::ast::Statement::{
    ExportAllDeclaration, ExportDeclaration, ExportDefaultDeclaration, ExportFromDeclaration,
    ExportNamedDeclaration, ImportDeclaration, TSExportAssignment, TSImportEqualsDeclaration,
};
use oxc::codegen::{Codegen, CodegenOptions};
use oxc::parser::Parser;
use oxc::semantic::SemanticBuilder;
use oxc::span::SourceType;
use oxc::transformer::{
    ClassPropertiesOptions, CompilerAssumptions, DecoratorOptions, ES2022Options, ES2026Options,
    EnvOptions, HelperLoaderOptions, JsxOptions, Module, RewriteExtensionsMode, TransformOptions,
    Transformer, TypeScriptOptions,
};
use crate::load::{
    joined_lines, join_errors, failure_text, failure_message, FailedStage, LoadFnOutput,
    ModuleSource, source_map_prefix, code_with_inline_map, transformed_output,
    commonjs_probe_outcome, ProbeOutcome,
};
use crate::module_syntax::{
    ProgramSummary, StatementKind as Kind, esm_output, module_output, ambiguous_extension,
    has_ambiguous_extension, module_retry_allowed, retries_as_module, flips_to_module,
    lowers_top_level_await,
};
use crate::text::text_from_utf8;
use crate::tsconfig::CompilerOptions;
use crate::transform_options::{
    JsxRuntime, ModuleTarget, TransformSettings, settings_for, transform_settings,
};

verus! {

broadcast use {vstd::seq::group_seq_axioms, vstd::seq_lib::group_seq_properties};

#[verifier::external_type_specification]
#[verifier::external_body]
pub struct ExCompilerAssumptions(CompilerAssumptions);

#[verifier::external_type_specification]
#[verifier::external_body]
pub struct ExDecoratorOptions(DecoratorOptions);

#[verifier::external_type_specification]
#[verifier::external_body]
pub struct ExJsxOptions(JsxOptions);

#[verifier::external_type_specification]
#[verifier::external_body]
pub struct ExTypeScriptOptions(TypeScriptOptions);

#[verifier::external_type_specification]
#[verifier::external_body]
pub struct ExEnvOptions(EnvOptions);

#[verifier::external_type_specification]
#[verifier::external_body]
pub struct ExHelperLoaderOptions(HelperLoaderOptions);

#[verifier::external_type_specification]
#[verifier::external_body]
pub struct ExTransformOptions(TransformOptions);

/// What oxc's parser makes of `source` as the file `path`, read as an ES
/// module when `module` is set and by its extension otherwise: the
/// diagnostics' messages, the kinds of the top-level statements, whether
/// `import.meta` occurs, and whether the program resolved to a module.
pub uninterp spec fn oxc_parse_result(path: Seq<char>, source: Seq<char>, module: bool) -> (
    Seq<Seq<char>>,
    Seq<Kind>,
    bool,
    bool,
);

/// Parses `source` with `oxc::parser::Parser`, the source type being
/// `SourceType::from_path(path)` (an ES module when that fails) made a
/// module when `module` is set, and lists the diagnostics' messages and
/// the top-level statements by kind. The contract names the result: it is
/// a function of the arguments alone.
#[verifier::external_body]
fn oxc_parse(path: &str, source: &str, module: bool) -> (res: (Vec<String>, Vec<Kind>, bool, bool))
    ensures
        (res.0.deep_view(), res.1@, res.2, res.3) == oxc_parse_result(path@, source@, module),
{
    let allocator = Allocator::default();
    let parsed = Parser::new(&allocator, source, SourceType::from_path(path).unwrap_or_default().with_module(module)).parse();
    let kinds = parsed.program.body.iter().map(|s| match s {
        ImportDeclaration(_) => Kind::ImportDeclaration, ExportAllDeclaration(_) => Kind::ExportAllDeclaration,
        ExportDefaultDeclaration(_) => Kind::ExportDefaultDeclaration, ExportDeclaration(_) => Kind::ExportDeclaration,
        ExportNamedDeclaration(_) => Kind::ExportNamedDeclaration, ExportFromDeclaration(_) => Kind::ExportFromDeclaration,
        TSExportAssignment(_) => Kind::TsExportAssignment, TSImportEqualsDeclaration(_) => Kind::TsImportEqualsDeclaration,
        _ => Kind::Other,
    }).collect();
    let errors = parsed.diagnostics.iter().map(ToString::to_string).collect();
    (errors, kinds, !parsed.module_record.import_metas.is_empty(), parsed.program.source_type.is_module())
}

/// Parses `source` as the file `path`: the diagnostics' messages and what
/// the module decisions read of the program.
pub fn parse_program(path: &str, source: &str, module: bool) -> (res: (Vec<String>, ProgramSummary))
    ensures
        ({
            let r = oxc_parse_result(path@, source@, module);
            &&& res.0.deep_view() == r.0
            &&& res.1.statements@ == r.1
            &&& res.1.has_import_meta == r.2
            &&& res.1.source_is_module == r.3
        }),
{
    let (errors, statements, has_import_meta, source_is_module) = oxc_parse(path, source, module);
    (errors, ProgramSummary { statements, has_import_meta, source_is_module })
}

/// oxc's compiler assumptions and decorator options for the settings.
#[verifier::external_body]
fn class_options(s: &TransformSettings) -> (CompilerAssumptions, DecoratorOptions) {
    let assumptions = CompilerAssumptions { set_public_class_fields: s.set_public_class_fields, ..Default::default() };
    let decorator = DecoratorOptions { legacy: s.legacy_decorators, emit_decorator_metadata: s.emit_decorator_metadata, strict_null_checks: s.strict_null_checks };
    (assumptions, decorator)
}

/// oxc's JSX and TypeScript options for the settings; no runtime keeps
/// oxc's default, and no factory leaves TypeScript's pragma empty.
#[verifier::external_body]
fn jsx_options(s: &TransformSettings) -> (JsxOptions, TypeScriptOptions) {
    let runtime = match s.jsx_runtime {
        Some(JsxRuntime::Automatic) => oxc::transformer::JsxRuntime::Automatic,
        Some(JsxRuntime::Classic) => oxc::transformer::JsxRuntime::Classic,
        None => oxc::transformer::JsxRuntime::default(),
    };
    let jsx = JsxOptions { runtime, import_source: s.jsx_import_source.clone(), pragma: s.jsx_pragma.clone(), pragma_frag: s.jsx_pragma_frag.clone(), ..Default::default() };
    let typescript = TypeScriptOptions { jsx_pragma: s.jsx_pragma.clone().map(Cow::Owned).unwrap_or_default(), jsx_pragma_frag: s.jsx_pragma_frag.clone().map(Cow::Owned).unwrap_or_default(),
        rewrite_import_extensions: s.rewrite_import_extensions.then_some(RewriteExtensionsMode::Rewrite),
        remove_class_fields_without_initializer: s.remove_class_fields_without_initializer, ..Default::default() };
    (jsx, typescript)
}

/// oxc's environment and helper loader options for the settings; no
/// module target keeps oxc's default.
#[verifier::external_body]
fn env_options(s: &TransformSettings) -> (EnvOptions, HelperLoaderOptions) {
    let module = match s.module {
        Some(ModuleTarget::Preserve) => Module::Preserve,
        Some(ModuleTarget::CommonJs) => Module::CommonJS,
        None => Module::default(),
    };
    let es2022 = ES2022Options { class_static_block: s.class_static_block, class_properties: s.class_properties.then_some(ClassPropertiesOptions::default()), top_level_await: s.top_level_await };
    let env = EnvOptions { module, es2022, es2026: ES2026Options { explicit_resource_management: s.explicit_resource_management }, ..Default::default() };
    (env, HelperLoaderOptions { module_name: Cow::Borrowed(s.helper_module), ..Default::default() })
}

/// oxc's transform options from its parts.
#[verifier::external_body]
fn assemble_options(
    assumptions: CompilerAssumptions,
    decorator: DecoratorOptions,
    jsx: JsxOptions,
    typescript: TypeScriptOptions,
    env: EnvOptions,
    helper_loader: HelperLoaderOptions,
) -> TransformOptions {
    TransformOptions { assumptions, decorator, jsx, typescript, env, helper_loader, ..Default::default() }
}

/// oxc's transform options, with the settings they were made from. The
/// fields are private and [`oxc_options`] is the only constructor, so the
/// options always are those of the settings.
pub struct OxcOptions {
    settings: TransformSettings,
    options: TransformOptions,
}

impl OxcOptions {
    /// The settings the options were made from.
    pub closed spec fn settings(self) -> TransformSettings {
        self.settings
    }
}

/// oxc's transform options for the settings.
pub fn oxc_options(settings: TransformSettings) -> (res: OxcOptions)
    ensures
        res.settings() == settings,
{
    let (assumptions, decorator) = class_options(&settings);
    let (jsx, typescript) = jsx_options(&settings);
    let (env, helper_loader) = env_options(&settings);
    let options = assemble_options(assumptions, decorator, jsx, typescript, env, helper_loader);
    OxcOptions { settings, options }
}

/// What oxc makes of `source` as the file `path`, parsed as for
/// [`oxc_parse_result`] and transformed with `settings`: the generated code
/// and, when one was produced, the source map as JSON and as a data URL;
/// or the transform diagnostics' messages.
pub uninterp spec fn oxc_emit_result(
    path: Seq<char>,
    source: Seq<char>,
    module: bool,
    settings: TransformSettings,
) -> Result<(Seq<char>, Option<(Seq<char>, Seq<char>)>), Seq<Seq<char>>>;

/// Parses `source` as [`parse_program`] does, runs oxc's semantic analysis,
/// `Transformer` with the options, and `Codegen` with `path` as the source
/// map path. The contract names the result: it is a function of the
/// arguments and the settings the options were made from. With a source
/// map path set, `Codegen` always builds a source map.
#[verifier::external_body]
pub(crate) fn emit_program(path: &str, source: &str, module: bool, options: &OxcOptions) -> (res: Result<
    (String, Option<(String, String)>),
    Vec<String>,
>)
    ensures
        match res {
            Ok((code, map)) => oxc_emit_result(path@, source@, module, options.settings()) == Ok::<
                (Seq<char>, Option<(Seq<char>, Seq<char>)>),
                Seq<Seq<char>>,
            >((code@, map.deep_view())),
            Err(diagnostics) => oxc_emit_result(path@, source@, module, options.settings()) == Err::<
                (Seq<char>, Option<(Seq<char>, Seq<char>)>),
                Seq<Seq<char>>,
            >(diagnostics.deep_view()),
        },
        res matches Ok((_, map)) ==> map is Some,
{
    let allocator = &Allocator::default();
    let mut program = Parser::new(allocator, source, SourceType::from_path(path).unwrap_or_default().with_module(module)).parse().program;
    let scoping = SemanticBuilder::new().build(&program).semantic.into_scoping();
    let diagnostics = Transformer::new(allocator, path.as_ref(), &options.options).build_with_scoping(scoping, &mut program).diagnostics;
    if !diagnostics.is_empty() {
        return Err(diagnostics.iter().map(ToString::to_string).collect());
    }
    let out = Codegen::new().with_options(CodegenOptions { source_map_path: Some(path.into()), ..Default::default() }).build(&program);
    Ok((out.code, out.map.map(|m| (m.to_json_string(), m.to_data_url()))))
}

/// The parse that the transform goes on with: the first parse, or the
/// parse as a module when retrying is allowed, the file's kind is left to
/// its content, the first parse failed and the second did not. It gives
/// the diagnostics' messages, whether the program is an ES module whose
/// output keeps module syntax, and whether it was the retry.
pub open spec fn parse_outcome(path: Seq<char>, source: Seq<char>, is_es_module: bool, allow_module_retry: bool) -> (
    Seq<Seq<char>>,
    bool,
    bool,
) {
    let first = oxc_parse_result(path, source, is_es_module);
    let second = oxc_parse_result(path, source, true);
    let ambiguous = !is_es_module && ambiguous_extension(encode_utf8(path));
    if allow_module_retry && ambiguous && first.0.len() > 0 && second.0.len() == 0 {
        (second.0, module_output(second.1, second.2, second.3), true)
    } else {
        (first.0, module_output(first.1, first.2, first.3), false)
    }
}

/// Parses, retrying as a module where that is allowed.
fn parse_with_retry(path: &str, source: &str, is_es_module: bool, allow_module_retry: bool) -> (res: (
    Vec<String>,
    ProgramSummary,
    bool,
))
    ensures
        ({
            let o = parse_outcome(path@, source@, is_es_module, allow_module_retry);
            &&& res.0.deep_view() == o.0
            &&& esm_output(res.1) == o.1
            &&& res.2 == o.2
        }),
{
    let ambiguous = !is_es_module && has_ambiguous_extension(path);
    let (errors, program) = parse_program(path, source, is_es_module);
    if retries_as_module(allow_module_retry, ambiguous, errors.len() > 0) {
        let (retry_errors, retry_program) = parse_program(path, source, true);
        if retry_errors.len() == 0 {
            return (retry_errors, retry_program, true);
        }
    }
    (errors, program, false)
}

/// The result of a transform: the code, the source map as JSON and as a
/// data URL, and whether a file reported as CommonJS became an ES module;
/// or the failure message.
pub open spec fn transform_outcome(
    path: Seq<char>,
    source: Seq<char>,
    options: Option<&CompilerOptions>,
    module_target: Option<ModuleTarget>,
    enable_top_level_await: bool,
    is_es_module: bool,
) -> Result<(Seq<char>, Option<(Seq<char>, Seq<char>)>, bool), Seq<char>> {
    let ambiguous = !is_es_module && ambiguous_extension(encode_utf8(path));
    let allow = !is_es_module && module_target == Some(ModuleTarget::Preserve) && ambiguous;
    let parsed = parse_outcome(path, source, is_es_module, allow);
    if parsed.0.len() > 0 {
        Err(failure_text(FailedStage::Parse, path, joined_lines(parsed.0)))
    } else {
        let flip = parsed.2 || (allow && parsed.1);
        let settings = settings_for(options, module_target, enable_top_level_await && !flip);
        match oxc_emit_result(path, source, is_es_module || parsed.2, settings) {
            Ok(emitted) => Ok((emitted.0, emitted.1, flip)),
            Err(diagnostics) => Err(failure_text(FailedStage::Transform, path, joined_lines(diagnostics))),
        }
    }
}

/// Generated code and its source map.
pub struct Transformed {
    pub code: String,
    /// The source map as JSON and as a data URL.
    pub source_map: Option<(String, String)>,
}

/// Transforms `source`, the text of the file `path`, with the compiler
/// options of its tsconfig. A file that fails to parse may be parsed again
/// as a module where [`module_retry_allowed`] says so; a file that turns out
/// to be an ES module keeps its top-level awaits and is reported as
/// flipped. Parse and transform diagnostics fail with their message.
pub fn oxc_transform(
    path: &str,
    source: &str,
    options: Option<&CompilerOptions>,
    module_target: Option<ModuleTarget>,
    enable_top_level_await: bool,
    is_es_module: bool,
) -> (res: Result<(Transformed, bool), String>)
    ensures
        match transform_outcome(path@, source@, options, module_target, enable_top_level_await, is_es_module) {
            Ok((code, map, flip)) => res matches Ok((t, f)) && t.code@ == code
                && t.source_map.deep_view() == map && f == flip,
            Err(message) => res matches Err(m) && m@ == message,
        },
{
    let ambiguous = !is_es_module && has_ambiguous_extension(path);
    let allow = module_retry_allowed(is_es_module, module_target, ambiguous);
    let (errors, program, only_module_parse) = parse_with_retry(path, source, is_es_module, allow);
    if errors.len() > 0 {
        return Err(failure_message(FailedStage::Parse, path, join_errors(&errors).as_str()));
    }
    let flip = flips_to_module(only_module_parse, allow, &program);
    let settings = transform_settings(options, module_target, lowers_top_level_await(enable_top_level_await, flip));
    let oxc = oxc_options(settings);
    match emit_program(path, source, is_es_module || only_module_parse, &oxc) {
        Ok((code, source_map)) => Ok((Transformed { code, source_map }, flip)),
        Err(diagnostics) => Err(failure_message(FailedStage::Transform, path, join_errors(&diagnostics).as_str())),
    }
}

/// The code of the public transform API: CommonJS output with top-level
/// `await` lowered, the kind of file left to its extension and content.
pub fn transform_source(path: &str, source: &str, options: Option<&CompilerOptions>) -> (res: Result<
    Transformed,
    String,
>)
    ensures
        match transform_outcome(path@, source@, options, Some(ModuleTarget::CommonJs), true, false) {
            Ok((code, map, _)) => res matches Ok(t) && t.code@ == code && t.source_map.deep_view() == map,
            Err(message) => res matches Err(m) && m@ == message,
        },
{
    match oxc_transform(path, source, options, Some(ModuleTarget::CommonJs), true, false) {
        Ok((transformed, _)) => Ok(transformed),
        Err(message) => Err(message),
    }
}

/// The code with its source map appended as a data URL.
pub open spec fn with_inline_map(code: Seq<char>, map: Option<(Seq<char>, Seq<char>)>) -> Seq<char> {
    match map {
        Some(m) => code + source_map_prefix() + m.1,
        None => code,
    }
}

/// A file reported as CommonJS, read from `path`, handed back as an ES
/// module when it is one: `None` when its bytes are not UTF-8 or it is no
/// ES module, an error for its parse or transform diagnostics, and else
/// the answer `module` with the transformed code and the URL.
pub fn commonjs_esm_from_bytes(
    url: &str,
    format: &str,
    path: &str,
    bytes: &[u8],
    options: Option<&CompilerOptions>,
) -> (res: Result<Option<LoadFnOutput>, String>)
    ensures
        !vstd::utf8::valid_utf8(bytes@) ==> res matches Ok(None),
        vstd::utf8::valid_utf8(bytes@) ==> {
            let text = vstd::utf8::decode_utf8(bytes@);
            match commonjs_esm_from_text(path, text, options) {
                Ok(None) => res matches Ok(None),
                Ok(Some(code)) => res matches Ok(Some(out)) && {
                    &&& out.format@ == "module"@
                    &&& out.source matches Some(ModuleSource::Uint8Array(b))
                    &&& b@ == vstd::utf8::encode_utf8(code)
                    &&& out.response_url matches Some(u) && u@ == url@
                },
                Err(message) => res matches Err(m) && m@ == message,
            }
        },
{
    let source = match text_from_utf8(bytes) {
        Some(s) => s,
        None => return Ok(None),
    };
    match commonjs_esm_source(path, source.as_str(), options) {
        Ok(None) => Ok(None),
        Ok(Some(code)) => Ok(Some(transformed_output(url.to_owned(), format.to_owned(), true, code))),
        Err(message) => Err(message),
    }
}

/// What the CommonJS probe makes of a file's text: nothing when it is no
/// ES module; else the parse errors, or the module transformed with the
/// preserve target and its top-level awaits kept, with its source map
/// inline. The text is parsed as by its extension, and again as a module
/// when that first parse fails for a file whose kind is left to its
/// content.
pub open spec fn commonjs_esm_from_text(path: &str, text: Seq<char>, options: Option<&CompilerOptions>) -> Result<
    Option<Seq<char>>,
    Seq<char>,
> {
    let parsed = parse_outcome(path@, text, false, true);
    let retried = parsed.2;
    if !(retried || parsed.1) {
        Ok(None)
    } else if parsed.0.len() > 0 {
        Err(failure_text(FailedStage::Parse, path@, joined_lines(parsed.0)))
    } else {
        match oxc_emit_result(path@, text, retried, settings_for(options, Some(ModuleTarget::Preserve), false)) {
            Ok(emitted) => Ok(Some(with_inline_map(emitted.0, emitted.1))),
            Err(diagnostics) => Err(failure_text(FailedStage::Transform, path@, joined_lines(diagnostics))),
        }
    }
}

/// The CommonJS probe on a file's text.
pub fn commonjs_esm_source(path: &str, source: &str, options: Option<&CompilerOptions>) -> (res: Result<
    Option<String>,
    String,
>)
    ensures
        match commonjs_esm_from_text(path, source@, options) {
            Ok(None) => res matches Ok(None),
            Ok(Some(code)) => res matches Ok(Some(c)) && c@ == code,
            Err(message) => res matches Err(m) && m@ == message,
        },
{
    let (errors, program, only_module_parse) = parse_with_retry(path, source, false, true);
    match commonjs_probe_outcome(only_module_parse, &program, errors.len() > 0) {
        ProbeOutcome::KeepCommonJs => return Ok(None),
        ProbeOutcome::ParseError => {
            return Err(failure_message(FailedStage::Parse, path, join_errors(&errors).as_str()));
        },
        ProbeOutcome::TransformAsModule => {},
    }
    let settings = transform_settings(options, Some(ModuleTarget::Preserve), false);
    let oxc = oxc_options(settings);
    match emit_program(path, source, only_module_parse, &oxc) {
        Ok((code, source_map)) => {
            let url = match source_map {
                Some((_, url)) => Some(url),
                None => None,
            };
            Ok(Some(code_with_inline_map(code, url)))
        },
        Err(diagnostics) => Err(failure_message(FailedStage::Transform, path, join_errors(&diagnostics).as_str())),
    }
}

} // verus!
