//! Which `tsconfig.json` applies, and what its compiler options say about
//! module formats.
//!
//! An explicitly named config (`TS_NODE_PROJECT`, then
//! `OXC_TSCONFIG_PATH`) pins one config for the whole process, or none at
//! all when the named file does not exist; with nothing named, each file
//! gets the nearest config that claims it.

use vstd::prelude::*;
use vstd::utf8::*;
use vstd::string::StringSliceAdditionalSpecFns;
use crate::resolve::ModuleFormat;
use crate::text::{eq_ignore_case, eq_ignore_ascii_case, text_of, lemma_valid_concat};
use crate::url_rules::UrlRules;

verus! {

broadcast use {vstd::seq::group_seq_axioms, vstd::seq_lib::group_seq_properties};

/// The compiler options of a `tsconfig.json` that the hooks read.
pub struct CompilerOptions {
    pub experimental_decorators: Option<bool>,
    pub emit_decorator_metadata: Option<bool>,
    pub strict_null_checks: Option<bool>,
    pub use_define_for_class_fields: Option<bool>,
    pub rewrite_relative_import_extensions: Option<bool>,
    pub jsx: Option<String>,
    pub jsx_factory: Option<String>,
    pub jsx_fragment_factory: Option<String>,
    pub jsx_import_source: Option<String>,
    pub target: Option<String>,
    pub module: Option<String>,
}

/// The values of `compilerOptions.module` that ask for ES module output,
/// compared without regard to ASCII case.
pub open spec fn es_module_option(m: Seq<u8>) -> bool {
    ||| eq_ignore_case(m, "nodenext".spec_bytes())
    ||| eq_ignore_case(m, "node16".spec_bytes())
    ||| eq_ignore_case(m, "node18".spec_bytes())
    ||| eq_ignore_case(m, "es6".spec_bytes())
    ||| eq_ignore_case(m, "es2015".spec_bytes())
    ||| eq_ignore_case(m, "es2020".spec_bytes())
    ||| eq_ignore_case(m, "es2022".spec_bytes())
    ||| eq_ignore_case(m, "esnext".spec_bytes())
}

/// Whether `compilerOptions.module` asks for ES module output.
pub open spec fn asks_for_es_modules(options: Option<&CompilerOptions>) -> bool {
    options matches Some(o) && o.module matches Some(m) && es_module_option(encode_utf8(m@))
}

/// The format that the compiler options name for `.ts` / `.tsx` files.
pub open spec fn tsconfig_format(options: Option<&CompilerOptions>) -> Option<ModuleFormat> {
    if asks_for_es_modules(options) {
        Some(ModuleFormat::Module)
    } else {
        None
    }
}

/// Whether the module option asks for ES module output.
fn is_es_module_option(m: &str) -> (res: bool)
    ensures
        res == es_module_option(m.spec_bytes()),
{
    let b = m.as_bytes();
    eq_ignore_ascii_case(b, "nodenext".as_bytes()) || eq_ignore_ascii_case(b, "node16".as_bytes())
        || eq_ignore_ascii_case(b, "node18".as_bytes()) || eq_ignore_ascii_case(
        b,
        "es6".as_bytes(),
    ) || eq_ignore_ascii_case(b, "es2015".as_bytes()) || eq_ignore_ascii_case(
        b,
        "es2020".as_bytes(),
    ) || eq_ignore_ascii_case(b, "es2022".as_bytes()) || eq_ignore_ascii_case(
        b,
        "esnext".as_bytes(),
    )
}

/// The format that the `tsconfig.json` owning a `.ts` / `.tsx` file names
/// for it: an ES module when its `module` option asks for ES module
/// output; otherwise none, and the resolver's own `package.json` detection
/// decides.
pub fn default_module_from_tsconfig(options: Option<&CompilerOptions>) -> (res: Option<ModuleFormat>)
    ensures
        res == tsconfig_format(options),
{
    let es = match options {
        Some(o) => match &o.module {
            Some(m) => is_es_module_option(m.as_str()),
            None => false,
        },
        None => false,
    };
    if es {
        Some(ModuleFormat::Module)
    } else {
        None
    }
}

/// An environment value, with an empty value read as unset: CI wrappers
/// and `.env` files routinely export variables with an empty value.
pub fn non_empty_env(value: Option<String>) -> (res: Option<String>)
    ensures
        match value {
            Some(v) => if v@.len() == 0 {
                res is None
            } else {
                res == Some(v)
            },
            None => res is None,
        },
{
    match value {
        Some(v) => if v.as_str().is_empty() {
            None
        } else {
            Some(v)
        },
        None => None,
    }
}

/// The explicitly requested config: `TS_NODE_PROJECT` wins over
/// `OXC_TSCONFIG_PATH`, and an empty value counts as unset.
pub fn explicit_tsconfig(ts_node_project: Option<String>, oxc_tsconfig_path: Option<String>) -> (res:
    Option<String>)
    ensures
        (ts_node_project matches Some(v) && v@.len() > 0) ==> res == ts_node_project,
        !(ts_node_project matches Some(v) && v@.len() > 0) ==> res == (if oxc_tsconfig_path matches Some(
            w,
        ) && w@.len() > 0 {
            oxc_tsconfig_path
        } else {
            None
        }),
{
    match non_empty_env(ts_node_project) {
        Some(v) => Some(v),
        None => non_empty_env(oxc_tsconfig_path),
    }
}

/// A path made absolute against `cwd`: an absolute path is kept, any
/// other is joined to `cwd`, by the path rules of `rules`.
pub open spec fn absolute_against(rules: UrlRules, cwd: Seq<u8>, p: Seq<u8>) -> Seq<u8> {
    if rules.absolute_of(p) {
        p
    } else {
        rules.joined_of(cwd, p)
    }
}

/// The path to look a `tsconfig.json` up by, made absolute against `cwd`:
/// discovery rejects relative paths, so `"src/index.ts"` would otherwise get
/// no compiler options at all.
pub fn tsconfig_lookup_path(rules: UrlRules, cwd: &str, path: &str) -> (res: String)
    ensures
        res@ == decode_utf8(absolute_against(rules, cwd.spec_bytes(), path.spec_bytes())),
{
    if rules.is_absolute_path(path) {
        proof {
            encode_utf8_decode_utf8(path@);
        }
        path.to_owned()
    } else {
        rules.join(cwd, path)
    }
}

/// How the resolver is told to find configs.
#[derive(PartialEq, Eq, Debug)]
pub enum TsconfigMode {
    /// One named config for every file.
    Manual(String),
    /// A config was named but does not exist: no config at all, rather
    /// than a different one substituted silently.
    Disabled,
    /// Each file gets the nearest config that claims it.
    Auto,
}

/// The explicitly requested config path, made absolute against `cwd`.
pub fn explicit_tsconfig_path(rules: UrlRules, cwd: &str, explicit: Option<String>) -> (res: Option<
    String,
>)
    ensures
        match explicit {
            Some(e) => res matches Some(p) && p@ == decode_utf8(
                absolute_against(rules, cwd.spec_bytes(), encode_utf8(e@)),
            ),
            None => res is None,
        },
{
    match explicit {
        Some(e) => Some(tsconfig_lookup_path(rules, cwd, e.as_str())),
        None => None,
    }
}

/// The discovery mode: a named config that exists is used for every file,
/// a named config that does not exist disables configs, and with nothing
/// named each file gets the nearest config that claims it.
pub fn tsconfig_mode(explicit_path: Option<String>, exists: bool) -> (res: TsconfigMode)
    ensures
        match explicit_path {
            Some(p) => if exists {
                res == TsconfigMode::Manual(p)
            } else {
                res == TsconfigMode::Disabled
            },
            None => res == TsconfigMode::Auto,
        },
{
    match explicit_path {
        Some(p) => if exists {
            TsconfigMode::Manual(p)
        } else {
            TsconfigMode::Disabled
        },
        None => TsconfigMode::Auto,
    }
}

/// The extensions that TypeScript treats as program inputs only under
/// `allowJs`.
pub open spec fn is_js_extension(e: Seq<u8>) -> bool {
    ||| e == "js".spec_bytes()
    ||| e == "jsx".spec_bytes()
    ||| e == "mjs".spec_bytes()
    ||| e == "cjs".spec_bytes()
}

/// The same path with a `.ts` extension, for a JavaScript-family file
/// only: the last `.` and what follows it are replaced by `.ts`, as
/// `Path::with_extension` does under the path rules of `rules`.
pub open spec fn typescript_probe(rules: UrlRules, p: Seq<u8>) -> Option<Seq<u8>> {
    match rules.extension_of(p) {
        Some(e) => if is_js_extension(e) {
            let t = rules.trimmed_of(p);
            Some(t.subrange(0, t.len() - e.len()) + "ts".spec_bytes())
        } else {
            None
        },
        None => None,
    }
}

/// Whether the extension is one of the JavaScript family.
fn is_js_extension_bytes(e: &[u8]) -> (res: bool)
    ensures
        res == is_js_extension(e@),
{
    crate::text::bytes_equal(e, "js".as_bytes()) || crate::text::bytes_equal(e, "jsx".as_bytes())
        || crate::text::bytes_equal(e, "mjs".as_bytes()) || crate::text::bytes_equal(
        e,
        "cjs".as_bytes(),
    )
}

/// The path to ask discovery about when no config claims a JavaScript
/// file: the same path as TypeScript. Only module resolution uses it,
/// never the choice of compiler options.
pub fn probe_as_typescript(rules: UrlRules, path: &str) -> (res: Option<String>)
    ensures
        match typescript_probe(rules, path.spec_bytes()) {
            Some(q) => res matches Some(s) && s@ == decode_utf8(q),
            None => res is None,
        },
{
    let p = path.as_bytes();
    let e = match rules.extension_bytes(p) {
        Some(e) => e,
        None => return None,
    };
    if !is_js_extension_bytes(e) {
        return None;
    }
    let cut = match rules.extension_start(p) {
        Some(c) => c,
        None => return None,
    };
    let mut out: Vec<u8> = Vec::new();
    out.extend_from_slice(&p[0..cut]);
    proof {
        encode_utf8_valid_utf8(path@);
        encode_utf8_valid_utf8("ts"@);
        crate::text::lemma_ascii_cut_subrange_valid(p@, 0, cut as int);
        assert(out@ =~= p@.subrange(0, cut as int));
        assert(rules.trimmed_of(p@).subrange(0, cut as int) =~= p@.subrange(0, cut as int));
        lemma_valid_concat(out@, "ts".spec_bytes());
    }
    let ghost head = out@;
    out.extend_from_slice("ts".as_bytes());
    assert(out@ =~= head + "ts".spec_bytes());
    Some(text_of(out.as_slice()))
}

/// The paths whose configs govern the emitted code of `path`, tried in
/// order until discovery finds a config: none when one config is pinned
/// (or none applies), and otherwise the file itself. Unlike
/// [`importer_config_lookups`], no TypeScript probe: a JavaScript file
/// that no config claims is compiled with no options.
pub fn path_config_lookups(mode: &TsconfigMode, path: &str) -> (res: Vec<String>)
    ensures
        !(*mode is Auto) ==> res@.len() == 0,
        *mode is Auto ==> res@.len() == 1 && res@[0]@ == path@,
{
    let mut lookups: Vec<String> = Vec::new();
    match mode {
        TsconfigMode::Auto => lookups.push(path.to_owned()),
        _ => {},
    }
    lookups
}

/// The paths whose configs an importer's specifiers resolve against,
/// tried in order until discovery finds a config: none when one config is
/// pinned (or none applies), and otherwise the importer itself, then, for
/// a JavaScript file, the same path as TypeScript.
pub fn importer_config_lookups(rules: UrlRules, mode: &TsconfigMode, path: &str) -> (res: Vec<String>)
    ensures
        !(*mode is Auto) ==> res@.len() == 0,
        *mode is Auto ==> {
            &&& res@.len() >= 1
            &&& res@[0]@ == path@
            &&& match typescript_probe(rules, path.spec_bytes()) {
                Some(q) => res@.len() == 2 && res@[1]@ == decode_utf8(q),
                None => res@.len() == 1,
            }
        },
{
    let mut lookups: Vec<String> = Vec::new();
    match mode {
        TsconfigMode::Auto => {},
        _ => return lookups,
    }
    lookups.push(path.to_owned());
    match probe_as_typescript(rules, path) {
        Some(probe) => lookups.push(probe),
        None => {},
    }
    lookups
}

/// The options the resolver is created with.
pub struct ResolverSettings {
    pub tsconfig: TsconfigMode,
    pub condition_names: Vec<String>,
    /// Each extension an import may name, with the extensions tried for it.
    pub extension_alias: Vec<(String, Vec<String>)>,
    /// The extensions tried for an extensionless import, in order.
    pub extensions: Vec<String>,
}

/// An import of `.js` may find a `.ts` or `.tsx` file, `.mjs` a `.mts`
/// file, and `.cjs` a `.cts` file.
pub open spec fn extension_aliases() -> Seq<(Seq<char>, Seq<Seq<char>>)> {
    seq![
        (".js"@, seq![".js"@, ".ts"@, ".tsx"@]),
        (".mjs"@, seq![".mjs"@, ".mts"@]),
        (".cjs"@, seq![".cjs"@, ".cts"@]),
    ]
}

/// The extensions tried for an extensionless import, in order.
pub open spec fn resolver_extensions() -> Seq<Seq<char>> {
    seq![
        ".js"@, ".mjs"@, ".cjs"@, ".ts"@, ".tsx"@, ".mts"@, ".cts"@, ".json"@, ".wasm"@, ".node"@,
    ]
}

fn texts(words: &[&str]) -> (res: Vec<String>)
    ensures
        res@.len() == words@.len(),
        forall|j: int| 0 <= j < words@.len() ==> #[trigger] res@[j]@ == words@[j]@,
{
    let mut out: Vec<String> = Vec::new();
    let mut i: usize = 0;
    while i < words.len()
        invariant
            i <= words@.len(),
            out@.len() == i,
            forall|j: int| 0 <= j < i ==> #[trigger] out@[j]@ == words@[j]@,
        decreases words@.len() - i,
    {
        out.push(words[i].to_owned());
        i += 1;
    }
    out
}

/// The options the resolver is created with: the discovery mode, the
/// export conditions, and the extension rules of TypeScript.
pub fn resolver_settings(conditions: Vec<String>, tsconfig: TsconfigMode) -> (res: ResolverSettings)
    ensures
        res.tsconfig == tsconfig,
        res.condition_names == conditions,
        res.extension_alias.deep_view() == extension_aliases(),
        res.extensions.deep_view() == resolver_extensions(),
{
    let js = texts(&[".js", ".ts", ".tsx"]);
    let mjs = texts(&[".mjs", ".mts"]);
    let cjs = texts(&[".cjs", ".cts"]);
    let mut extension_alias: Vec<(String, Vec<String>)> = Vec::new();
    extension_alias.push((".js".to_owned(), js));
    extension_alias.push((".mjs".to_owned(), mjs));
    extension_alias.push((".cjs".to_owned(), cjs));
    let extensions = texts(
        &[".js", ".mjs", ".cjs", ".ts", ".tsx", ".mts", ".cts", ".json", ".wasm", ".node"],
    );
    proof {
        assert(extension_alias@[0].1.deep_view() =~= extension_aliases()[0].1);
        assert(extension_alias@[1].1.deep_view() =~= extension_aliases()[1].1);
        assert(extension_alias@[2].1.deep_view() =~= extension_aliases()[2].1);
        assert(extension_alias.deep_view() =~= extension_aliases());
        assert(extensions.deep_view() =~= resolver_extensions());
    }
    ResolverSettings { tsconfig, condition_names: conditions, extension_alias, extensions }
}

} // verus!
