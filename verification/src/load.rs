//! The decisions of the load hook: what is handed straight back to
//! Node.js, what is transformed, and how a JSON file becomes an ES module.

use vstd::prelude::*;
use vstd::utf8::*;
use vstd::string::StringSliceAdditionalSpecFns;
use crate::text::{
    same_text, starts_with, has_prefix, holds_bytes, text_from_utf8, copy_bytes,
    lemma_decode_encode_valid,
};
use crate::file_url::before_query;
use crate::url_rules::UrlRules;
use crate::resolve::{url_path, is_json_path, is_json_file, in_node_modules};
use crate::module_syntax::{ambiguous_ext, is_ambiguous_ext, esm_output, parsed_as_esm, ProgramSummary};
use crate::json_module::{json_module_output, json_keys, json_module_text, JsonModuleError};
use crate::oxc_pipeline::{oxc_transform, transform_outcome, with_inline_map};
use crate::transform_options::ModuleTarget;
use crate::tsconfig::CompilerOptions;

verus! {

broadcast use {vstd::seq::group_seq_axioms, vstd::seq_lib::group_seq_properties};

/// The source a load hook hands back.
pub enum ModuleSource {
    Text(String),
    Uint8Array(Vec<u8>),
    Buffer(Vec<u8>),
    /// An explicit `null`.
    Null,
}

/// What a load hook answers.
pub struct LoadFnOutput {
    pub format: String,
    pub source: Option<ModuleSource>,
    pub response_url: Option<String>,
}

/// The context Node.js hands the load hook.
pub struct LoadContext {
    /// Export conditions of the relevant `package.json`.
    pub conditions: Option<Vec<String>>,
    /// The format supplied by the resolve hook chain; `None` for `null`.
    pub format: Option<String>,
    /// The import attributes, as key and value.
    pub import_attributes: Vec<(String, String)>,
}

impl LoadContext {
    /// The attributes form a map.
    pub open spec fn wf(self) -> bool {
        crate::resolve::distinct_keys(self.import_attributes@)
    }
}

/// The requests that the load hook hands straight to the next hook:
/// `data:` URLs, and the `builtin`, `json` and `wasm` formats or no format
/// at all.
pub open spec fn passes_through(url: &str, format: Option<String>) -> bool {
    ||| starts_with(url.spec_bytes(), "data:".spec_bytes())
    ||| match format {
        Some(f) => f@ == "builtin"@ || f@ == "json"@ || f@ == "wasm"@,
        None => true,
    }
}

/// Whether the load hook hands the request straight to the next hook.
pub fn load_passes_through(url: &str, format: &Option<String>) -> (res: bool)
    ensures
        res == passes_through(url, *format),
{
    if has_prefix(url.as_bytes(), "data:".as_bytes()) {
        return true;
    }
    match format {
        Some(f) => same_text(f.as_str(), "builtin") || same_text(f.as_str(), "json") || same_text(
            f.as_str(),
            "wasm",
        ),
        None => true,
    }
}

/// Dependencies are left alone unless `OXC_TRANSFORM_ALL` is set to
/// something other than empty, `0` or `false`.
pub open spec fn skipping_dependencies(transform_all: Option<&str>) -> bool {
    match transform_all {
        Some(v) => v@.len() == 0 || v@ == "0"@ || v@ == "false"@,
        None => true,
    }
}

/// Whether files under `node_modules` are left untransformed, from the
/// value of `OXC_TRANSFORM_ALL`.
pub fn skips_dependencies(transform_all: Option<&str>) -> (res: bool)
    ensures
        res == skipping_dependencies(transform_all),
{
    match transform_all {
        Some(v) => v.is_empty() || same_text(v, "0") || same_text(v, "false"),
        None => true,
    }
}

/// A dependency that is left alone.
pub open spec fn skipped_dependency(url: &str, skip_dependencies: bool) -> bool {
    skip_dependencies && in_node_modules(url.spec_bytes())
}

/// What the load hook does with what the next hook loaded.
#[derive(Clone, Copy, PartialEq, Eq, Structural, Debug)]
pub enum LoadPlan {
    /// No source came back: look for an ES module behind a CommonJS
    /// report, or hand the answer back without a source.
    NoSource,
    /// Hand the loaded module back as it is: a dependency left alone.
    Unchanged,
    /// Turn the JSON source into an ES module.
    JsonModule,
    /// Transform the source, which was reported as an ES module or not.
    Transform { is_es_module: bool },
}

/// Whether a source came back.
pub open spec fn has_source(source: Option<ModuleSource>) -> bool {
    source matches Some(s) && !(s is Null)
}

/// The plan for a loaded module: no source, a JSON file (dependencies
/// included: turning JSON into a module is no code transform), a
/// dependency left alone, or a transform.
pub open spec fn plan_for(url: &str, format: Seq<char>, source: Option<ModuleSource>, skip_dependencies: bool) -> LoadPlan {
    if !has_source(source) {
        LoadPlan::NoSource
    } else if is_json_path(before_query(url.spec_bytes())) {
        LoadPlan::JsonModule
    } else if skipped_dependency(url, skip_dependencies) {
        LoadPlan::Unchanged
    } else {
        LoadPlan::Transform { is_es_module: format == "module"@ }
    }
}

/// The plan for a loaded module.
pub fn load_plan(url: &str, output: &LoadFnOutput, skip_dependencies: bool) -> (res: LoadPlan)
    ensures
        res == plan_for(url, output.format@, output.source, skip_dependencies),
{
    match &output.source {
        None => return LoadPlan::NoSource,
        Some(ModuleSource::Null) => return LoadPlan::NoSource,
        _ => {},
    }
    let path = url_path(url);
    if is_json_file(path) {
        return LoadPlan::JsonModule;
    }
    if skip_dependencies && holds_bytes(url.as_bytes(), "/node_modules/".as_bytes()) {
        return LoadPlan::Unchanged;
    }
    LoadPlan::Transform { is_es_module: same_text(output.format.as_str(), "module") }
}

/// Why a source cannot be read as text.
#[derive(Clone, Copy, PartialEq, Eq, Structural, Debug)]
pub enum SourceError {
    Uint8ArrayNotUtf8,
    BufferNotUtf8,
    /// An explicit `null` where a source was expected.
    InvalidValue,
}

impl SourceError {
    pub open spec fn text(self) -> Seq<char> {
        match self {
            SourceError::Uint8ArrayNotUtf8 => "Failed to convert Uint8Array to Vec<u8>"@,
            SourceError::BufferNotUtf8 => "Failed to convert Buffer to Vec<u8>"@,
            SourceError::InvalidValue => "Invalid value type in LoadFnOutput::source"@,
        }
    }

    /// The message the hook fails with.
    pub fn message(&self) -> (res: &'static str)
        ensures
            res@ == self.text(),
    {
        match self {
            SourceError::Uint8ArrayNotUtf8 => "Failed to convert Uint8Array to Vec<u8>",
            SourceError::BufferNotUtf8 => "Failed to convert Buffer to Vec<u8>",
            SourceError::InvalidValue => "Invalid value type in LoadFnOutput::source",
        }
    }
}

/// The source as text: bytes must be valid UTF-8.
pub fn source_text(source: &ModuleSource) -> (res: Result<String, SourceError>)
    ensures
        match source {
            ModuleSource::Text(s) => res == Ok::<String, SourceError>(*s),
            ModuleSource::Uint8Array(b) => if valid_utf8(b@) {
                res matches Ok(s) && s@ == decode_utf8(b@)
            } else {
                res == Err::<String, SourceError>(SourceError::Uint8ArrayNotUtf8)
            },
            ModuleSource::Buffer(b) => if valid_utf8(b@) {
                res matches Ok(s) && s@ == decode_utf8(b@)
            } else {
                res == Err::<String, SourceError>(SourceError::BufferNotUtf8)
            },
            ModuleSource::Null => res == Err::<String, SourceError>(SourceError::InvalidValue),
        },
{
    match source {
        ModuleSource::Text(s) => Ok(s.clone()),
        ModuleSource::Uint8Array(b) => match text_from_utf8(b.as_slice()) {
            Some(s) => Ok(s),
            None => Err(SourceError::Uint8ArrayNotUtf8),
        },
        ModuleSource::Buffer(b) => match text_from_utf8(b.as_slice()) {
            Some(s) => Ok(s),
            None => Err(SourceError::BufferNotUtf8),
        },
        ModuleSource::Null => Err(SourceError::InvalidValue),
    }
}

/// The prefix of an inline source map comment.
pub open spec fn source_map_prefix() -> Seq<char> {
    "\n//# sourceMappingURL="@
}

/// The generated code with its source map appended as a data URL, when
/// one was produced.
pub fn code_with_inline_map(code: String, source_map_url: Option<String>) -> (res: String)
    ensures
        res@ == match source_map_url {
            Some(url) => code@ + source_map_prefix() + url@,
            None => code@,
        },
{
    match source_map_url {
        Some(url) => {
            let mut out = code;
            out.push_str("\n//# sourceMappingURL=");
            out.push_str(url.as_str());
            out
        },
        None => code,
    }
}

/// The answer for a module whose load brought no source: its format as it
/// was, no source, and the URL.
pub fn output_without_source(url: String, format: String) -> (res: LoadFnOutput)
    ensures
        res.format == format,
        res.source is None,
        res.response_url == Some(url),
{
    LoadFnOutput { format, source: None, response_url: Some(url) }
}

/// The answer for transformed code: the format (`module` for a file that
/// turned out to be an ES module), the code as bytes, and the URL.
pub fn transformed_output(url: String, format: String, flipped_to_module: bool, code: String) -> (res:
    LoadFnOutput)
    ensures
        res.format@ == if flipped_to_module {
            "module"@
        } else {
            format@
        },
        res.source matches Some(ModuleSource::Uint8Array(b)) && b@ == encode_utf8(code@),
        res.response_url == Some(url),
{
    let format = if flipped_to_module {
        "module".to_owned()
    } else {
        format
    };
    let bytes = copy_bytes(code.as_str().as_bytes());
    LoadFnOutput { format, source: Some(ModuleSource::Uint8Array(bytes)), response_url: Some(url) }
}

/// The file to read when a CommonJS report may hide an ES module: a file
/// reported as `commonjs`, not a dependency left alone, whose URL (query
/// and fragment dropped) is a `file:` URL under the rules, with an
/// extension whose kind is decided by content.
pub open spec fn probe_path(rules: UrlRules, url: &str, format: Seq<char>, skip_dependencies: bool) -> Option<
    Seq<u8>,
> {
    if format == "commonjs"@ && !skipped_dependency(url, skip_dependencies) {
        match rules.path_of(before_query(url.spec_bytes())) {
            Some(p) => if rules.extension_of(p) matches Some(e) && ambiguous_ext(e) {
                Some(p)
            } else {
                None
            },
            None => None,
        }
    } else {
        None
    }
}

/// The file to read when a CommonJS report may hide an ES module.
pub fn commonjs_probe_path(rules: UrlRules, url: &str, format: &str, skip_dependencies: bool) -> (res:
    Option<String>)
    ensures
        match probe_path(rules, url, format@, skip_dependencies) {
            Some(p) => res matches Some(s) && s@ == decode_utf8(p),
            None => res is None,
        },
{
    if !same_text(format, "commonjs") {
        return None;
    }
    if skip_dependencies && holds_bytes(url.as_bytes(), "/node_modules/".as_bytes()) {
        return None;
    }
    let path = match rules.file_url_to_path(url_path(url)) {
        Some(p) => p,
        None => return None,
    };
    proof {
        let p = rules.path_of(before_query(url.spec_bytes()))->0;
        rules.lemma_path_valid(before_query(url.spec_bytes()));
        lemma_decode_encode_valid(p);
    }
    let ambiguous = match rules.extension_bytes(path.as_str().as_bytes()) {
        Some(e) => is_ambiguous_ext(e),
        None => false,
    };
    if ambiguous {
        Some(path)
    } else {
        None
    }
}

/// What the CommonJS probe makes of a file it parsed.
#[derive(Clone, Copy, PartialEq, Eq, Structural, Debug)]
pub enum ProbeOutcome {
    /// Not an ES module: hand the answer back untouched.
    KeepCommonJs,
    /// An ES module that does not parse: report the parse errors.
    ParseError,
    /// An ES module: transform it and report it as one.
    TransformAsModule,
}

/// What the probe makes of a parsed file.
pub fn commonjs_probe_outcome(
    only_module_parse: bool,
    program: &ProgramSummary,
    has_diagnostics: bool,
) -> (res: ProbeOutcome)
    ensures
        res == if !(only_module_parse || esm_output(*program)) {
            ProbeOutcome::KeepCommonJs
        } else if has_diagnostics {
            ProbeOutcome::ParseError
        } else {
            ProbeOutcome::TransformAsModule
        },
{
    if !(only_module_parse || parsed_as_esm(program)) {
        ProbeOutcome::KeepCommonJs
    } else if has_diagnostics {
        ProbeOutcome::ParseError
    } else {
        ProbeOutcome::TransformAsModule
    }
}

/// The path that a loaded module's tsconfig is looked up by: the path of
/// a `file:` URL under the rules, or the URL itself when it names none.
pub open spec fn lookup_path(rules: UrlRules, url: &str) -> Seq<char> {
    match rules.path_of(url.spec_bytes()) {
        Some(p) => decode_utf8(p),
        None => url@,
    }
}

/// The path that a loaded module's tsconfig is looked up by.
pub fn load_lookup_path(rules: UrlRules, url: &str) -> (res: String)
    ensures
        res@ == lookup_path(rules, url),
{
    match rules.file_url_to_path(url) {
        Some(path) => path,
        None => url.to_owned(),
    }
}

/// The rendered diagnostics, one per line.
pub open spec fn joined_lines(messages: Seq<Seq<char>>) -> Seq<char>
    decreases messages.len(),
{
    if messages.len() == 0 {
        Seq::empty()
    } else if messages.len() == 1 {
        messages[0]
    } else {
        joined_lines(messages.drop_last()) + "\n"@ + messages.last()
    }
}

/// The rendered diagnostics joined by newlines.
pub fn join_errors(messages: &Vec<String>) -> (res: String)
    ensures
        res@ == joined_lines(messages.deep_view()),
{
    let mut out = String::new();
    let mut i: usize = 0;
    while i < messages.len()
        invariant
            i <= messages@.len(),
            out@ == joined_lines(messages.deep_view().subrange(0, i as int)),
        decreases messages@.len() - i,
    {
        proof {
            let done = messages.deep_view().subrange(0, i + 1);
            assert(done.drop_last() =~= messages.deep_view().subrange(0, i as int));
            assert(done.last() == messages@[i as int]@);
            if i == 0 {
                assert(done.len() == 1);
                assert(done[0] == messages@[0]@);
            }
        }
        if i > 0 {
            out.push_str("\n");
        }
        out.push_str(messages[i].as_str());
        proof {
            if i == 0 {
                assert(out@ =~= messages@[0]@);
            }
        }
        i += 1;
    }
    proof {
        assert(messages.deep_view().subrange(0, messages@.len() as int) =~= messages.deep_view());
    }
    out
}

/// The stages whose failures the hooks report.
#[derive(Clone, Copy, PartialEq, Eq, Structural, Debug)]
pub enum FailedStage {
    Parse,
    Transform,
}

/// `Failed to parse <path>: <details>`, or the same for the transform.
pub open spec fn failure_text(stage: FailedStage, path: Seq<char>, details: Seq<char>) -> Seq<char> {
    (match stage {
        FailedStage::Parse => "Failed to parse "@,
        FailedStage::Transform => "Failed to transform "@,
    }) + path + ": "@ + details
}

/// The message of a failed parse or transform.
pub fn failure_message(stage: FailedStage, path: &str, details: &str) -> (res: String)
    ensures
        res@ == failure_text(stage, path@, details@),
{
    let mut out = String::new();
    match stage {
        FailedStage::Parse => out.push_str("Failed to parse "),
        FailedStage::Transform => out.push_str("Failed to transform "),
    }
    out.push_str(path);
    out.push_str(": ");
    out.push_str(details);
    out
}

/// The text of a source, as [`source_text`] reads it.
pub open spec fn loaded_text(source: ModuleSource) -> Result<Seq<char>, SourceError> {
    match source {
        ModuleSource::Text(s) => Ok(s@),
        ModuleSource::Uint8Array(b) => if valid_utf8(b@) {
            Ok(decode_utf8(b@))
        } else {
            Err(SourceError::Uint8ArrayNotUtf8)
        },
        ModuleSource::Buffer(b) => if valid_utf8(b@) {
            Ok(decode_utf8(b@))
        } else {
            Err(SourceError::BufferNotUtf8)
        },
        ModuleSource::Null => Err(SourceError::InvalidValue),
    }
}

/// The text of a loaded source; a missing source reads as an invalid one.
fn loaded_source_text(source: &Option<ModuleSource>) -> (res: Result<String, SourceError>)
    ensures
        match source {
            Some(s) => match loaded_text(*s) {
                Ok(t) => res matches Ok(r) && r@ == t,
                Err(e) => res == Err::<String, SourceError>(e),
            },
            None => res == Err::<String, SourceError>(SourceError::InvalidValue),
        },
{
    match source {
        Some(s) => source_text(s),
        None => Err(SourceError::InvalidValue),
    }
}

/// Why the load hook fails on what the next hook loaded.
pub enum LoadError {
    /// The source cannot be read as text.
    Source(SourceError),
    /// A JSON file is not JSON.
    Json(JsonModuleError),
    /// The parse or transform failed, with this message.
    Transform(String),
}

/// The path of a loaded module's URL, as the transform names the file:
/// the URL without its query and fragment.
pub open spec fn loaded_path(url: &str) -> Seq<char> {
    decode_utf8(before_query(url.spec_bytes()))
}

/// What the load hook makes of what the next hook loaded, by
/// [`plan_for`]: `None` when no source came back (the CommonJS probe and
/// the answer without a source are the caller's); the answer itself for a
/// dependency left alone; the ES module of a JSON file; or the code
/// transformed for the load hook (the preserve target, top-level awaits
/// lowered only for a file not reported as an ES module) with its source
/// map inline, reported as `module` when the file turned out to be one.
pub fn transform_loaded(
    url: &str,
    output: LoadFnOutput,
    skip_dependencies: bool,
    options: Option<&CompilerOptions>,
) -> (res: Result<Option<LoadFnOutput>, LoadError>)
    ensures
        match plan_for(url, output.format@, output.source, skip_dependencies) {
            LoadPlan::NoSource => res matches Ok(None),
            LoadPlan::Unchanged => res == Ok::<Option<LoadFnOutput>, LoadError>(Some(output)),
            LoadPlan::JsonModule => match loaded_text(output.source->0) {
                Err(e) => res == Err::<Option<LoadFnOutput>, LoadError>(LoadError::Source(e)),
                Ok(text) => match json_keys(text) {
                    Some(keys) => res matches Ok(Some(out)) && {
                        &&& out.format@ == "module"@
                        &&& out.source matches Some(ModuleSource::Text(t))
                        &&& t@ == json_module_text(text, keys)
                        &&& out.response_url matches Some(u) && u@ == url@
                    },
                    None => res matches Err(LoadError::Json(_)),
                },
            },
            LoadPlan::Transform { is_es_module } => match loaded_text(output.source->0) {
                Err(e) => res == Err::<Option<LoadFnOutput>, LoadError>(LoadError::Source(e)),
                Ok(text) => match transform_outcome(
                    loaded_path(url),
                    text,
                    options,
                    Some(ModuleTarget::Preserve),
                    !is_es_module,
                    is_es_module,
                ) {
                    Ok((code, map, flip)) => res matches Ok(Some(out)) && {
                        &&& out.format@ == if flip {
                            "module"@
                        } else {
                            output.format@
                        }
                        &&& out.source matches Some(ModuleSource::Uint8Array(b))
                        &&& b@ == encode_utf8(with_inline_map(code, map))
                        &&& out.response_url matches Some(u) && u@ == url@
                    },
                    Err(message) => res matches Err(LoadError::Transform(m)) && m@ == message,
                },
            },
        },
{
    match load_plan(url, &output, skip_dependencies) {
        LoadPlan::NoSource => Ok(None),
        LoadPlan::Unchanged => Ok(Some(output)),
        LoadPlan::JsonModule => {
            let text = match loaded_source_text(&output.source) {
                Ok(t) => t,
                Err(e) => return Err(LoadError::Source(e)),
            };
            match json_module_output(url.to_owned(), text.as_str()) {
                Ok(out) => Ok(Some(out)),
                Err(e) => Err(LoadError::Json(e)),
            }
        },
        LoadPlan::Transform { is_es_module } => {
            let text = match loaded_source_text(&output.source) {
                Ok(t) => t,
                Err(e) => return Err(LoadError::Source(e)),
            };
            let path = url_path(url);
            proof {
                encode_utf8_decode_utf8(path@);
            }
            match oxc_transform(
                path,
                text.as_str(),
                options,
                Some(ModuleTarget::Preserve),
                !is_es_module,
                is_es_module,
            ) {
                Ok((transformed, flip)) => {
                    let map_url = match transformed.source_map {
                        Some((_, u)) => Some(u),
                        None => None,
                    };
                    let code = code_with_inline_map(transformed.code, map_url);
                    Ok(Some(transformed_output(url.to_owned(), output.format, flip, code)))
                },
                Err(message) => Err(LoadError::Transform(message)),
            }
        },
    }
}

} // verus!
