//! The decisions of the resolve hook: which specifiers Node.js answers
//! itself, what the resolver is asked for a `file:` URL, and which format
//! is reported for what the resolver found.

use vstd::prelude::*;
use vstd::utf8::*;
use vstd::string::StringSliceAdditionalSpecFns;
use crate::text::{
    same_text, starts_with, has_prefix, ends_with, has_suffix, contains_bytes,
    eq_ignore_case, eq_ignore_ascii_case, bytes_equal, first_of, find_either_byte, text_of,
    all_ascii, lemma_ascii_valid, lemma_valid_concat, lemma_ascii_cut_boundary,
    lemma_ascii_cut_subrange_valid, lemma_decode_encode_valid,
};
use crate::file_url::before_query;
use crate::unix_path::{extension, extension_bytes};
use crate::url_rules::UrlRules;

verus! {

broadcast use {vstd::seq::group_seq_axioms, vstd::seq_lib::group_seq_properties};

/// The module formats that the hooks report to Node.js.
#[derive(Clone, Copy, PartialEq, Eq, Structural, Debug)]
pub enum ModuleFormat {
    Builtin,
    Json,
    Module,
    CommonJs,
}

impl ModuleFormat {
    /// The name Node.js knows the format by.
    pub open spec fn name(self) -> Seq<char> {
        match self {
            ModuleFormat::Builtin => "builtin"@,
            ModuleFormat::Json => "json"@,
            ModuleFormat::Module => "module"@,
            ModuleFormat::CommonJs => "commonjs"@,
        }
    }

    /// The name Node.js knows the format by.
    pub fn as_str(&self) -> (res: &'static str)
        ensures
            res@ == self.name(),
    {
        match self {
            ModuleFormat::Builtin => "builtin",
            ModuleFormat::Json => "json",
            ModuleFormat::Module => "module",
            ModuleFormat::CommonJs => "commonjs",
        }
    }
}

/// What the resolver reports of the module type of a file.
#[derive(Clone, Copy, PartialEq, Eq, Structural, Debug)]
pub enum ModuleType {
    Module,
    CommonJs,
    Json,
    Wasm,
    Addon,
}

/// The context Node.js hands the resolve hook.
pub struct ResolveContext {
    /// Export conditions of the relevant `package.json`.
    pub conditions: Vec<String>,
    /// The import attributes, as key and value.
    pub import_attributes: Vec<(String, String)>,
    /// The URL of the importing module.
    pub parent_url: Option<String>,
}

/// No key occurs twice among the import attributes, as in the map that
/// Node.js hands over.
pub open spec fn distinct_keys(attributes: Seq<(String, String)>) -> bool {
    forall|i: int, j: int|
        0 <= i < j < attributes.len() ==> #[trigger] attributes[i].0@ != #[trigger] attributes[j].0@
}

impl ResolveContext {
    /// The attributes form a map.
    pub open spec fn wf(self) -> bool {
        distinct_keys(self.import_attributes@)
    }
}

/// What a resolve hook answers.
pub struct ResolveFnOutput {
    /// The format, `Some(None)` standing for an explicit `null`.
    pub format: Option<Option<String>>,
    pub short_circuit: Option<bool>,
    pub url: String,
    /// The import attributes, `Some(None)` standing for an explicit `null`.
    pub import_attributes: Option<Option<Vec<(String, String)>>>,
}

impl ResolveFnOutput {
    /// The attributes, when given, form a map.
    pub open spec fn wf(self) -> bool {
        self.import_attributes matches Some(Some(a)) ==> distinct_keys(a@)
    }
}

/// The module names that Node.js resolves itself.
pub open spec fn builtin_modules() -> Seq<Seq<char>> {
    seq![
        "_http_agent"@, "_http_client"@, "_http_common"@, "_http_incoming"@, "_http_outgoing"@,
        "_http_server"@, "_stream_duplex"@, "_stream_passthrough"@, "_stream_readable"@,
        "_stream_transform"@, "_stream_wrap"@, "_stream_writable"@, "_tls_common"@, "_tls_wrap"@,
        "assert"@, "assert/strict"@, "async_hooks"@, "buffer"@, "child_process"@, "cluster"@,
        "console"@, "constants"@, "crypto"@, "dgram"@, "diagnostics_channel"@, "dns"@,
        "dns/promises"@, "domain"@, "events"@, "fs"@, "fs/promises"@, "http"@, "http2"@,
        "https"@, "inspector"@, "module"@, "net"@, "os"@, "path"@, "path/posix"@, "path/win32"@,
        "perf_hooks"@, "process"@, "punycode"@, "querystring"@, "readline"@, "repl"@, "stream"@,
        "stream/consumers"@, "stream/promises"@, "stream/web"@, "string_decoder"@, "sys"@,
        "timers"@, "timers/promises"@, "tls"@, "trace_events"@, "tty"@, "url"@, "util"@,
        "util/types"@, "v8"@, "vm"@, "worker_threads"@, "zlib"@,
    ]
}

fn builtin_module_list() -> (names: [&'static str; 65])
    ensures
        forall|i: int| 0 <= i < 65 ==> names@[i]@ == builtin_modules()[i],
{
    [
        "_http_agent", "_http_client", "_http_common", "_http_incoming", "_http_outgoing",
        "_http_server", "_stream_duplex", "_stream_passthrough", "_stream_readable",
        "_stream_transform", "_stream_wrap", "_stream_writable", "_tls_common", "_tls_wrap",
        "assert", "assert/strict", "async_hooks", "buffer", "child_process", "cluster",
        "console", "constants", "crypto", "dgram", "diagnostics_channel", "dns",
        "dns/promises", "domain", "events", "fs", "fs/promises", "http", "http2",
        "https", "inspector", "module", "net", "os", "path", "path/posix", "path/win32",
        "perf_hooks", "process", "punycode", "querystring", "readline", "repl", "stream",
        "stream/consumers", "stream/promises", "stream/web", "string_decoder", "sys",
        "timers", "timers/promises", "tls", "trace_events", "tty", "url", "util",
        "util/types", "v8", "vm", "worker_threads", "zlib",
    ]
}

/// Whether Node.js resolves `specifier` as one of its own modules.
pub fn is_builtin_module(specifier: &str) -> (res: bool)
    ensures
        res == builtin_modules().contains(specifier@),
{
    let names = builtin_module_list();
    let mut i: usize = 0;
    while i < 65
        invariant
            i <= 65,
            builtin_modules().len() == 65,
            forall|k: int| 0 <= k < 65 ==> names@[k]@ == builtin_modules()[k],
            forall|k: int| 0 <= k < i ==> builtin_modules()[k] != specifier@,
        decreases 65 - i,
    {
        if same_text(specifier, names[i]) {
            assert(builtin_modules()[i as int] == specifier@);
            return true;
        }
        i += 1;
    }
    false
}

/// The specifiers that are handed straight back to Node.js as builtins:
/// the `node:` and `nodejs:` protocols, the builtin module names, and
/// `data:` URLs.
pub open spec fn answered_as_builtin(specifier: &str) -> bool {
    ||| starts_with(specifier.spec_bytes(), "node:".spec_bytes())
    ||| starts_with(specifier.spec_bytes(), "nodejs:".spec_bytes())
    ||| builtin_modules().contains(specifier@)
    ||| starts_with(specifier.spec_bytes(), "data:".spec_bytes())
}

/// Whether the specifier is handed straight back to Node.js with the
/// `builtin` format.
pub fn short_circuits_as_builtin(specifier: &str) -> (res: bool)
    ensures
        res == answered_as_builtin(specifier),
{
    let b = specifier.as_bytes();
    has_prefix(b, "node:".as_bytes()) || has_prefix(b, "nodejs:".as_bytes()) || is_builtin_module(
        specifier,
    ) || has_prefix(b, "data:".as_bytes())
}

/// The path part of a URL or specifier: everything before a `?query` or
/// `#fragment`. Extensions are matched against this, not the whole
/// string, so that `./mod.ts?v=1` is a `.ts` file.
pub fn url_path(url: &str) -> (res: &str)
    ensures
        res.spec_bytes() == before_query(url.spec_bytes()),
{
    let b = url.as_bytes();
    match find_either_byte(b, 0x3f, 0x23) {
        Some(i) => {
            proof {
                encode_utf8_valid_utf8(url@);
                lemma_ascii_cut_boundary(b@, i as int);
            }
            let (head, _) = url.split_at(i);
            head
        },
        None => url,
    }
}

/// The `file:` URL of a resolved file: the path as a `file:` URL under
/// the rules, then the query and the fragment as the resolver reported
/// them.
pub open spec fn resolved_url(
    rules: UrlRules,
    path: Seq<char>,
    query: Option<String>,
    fragment: Option<String>,
) -> Seq<char> {
    rules.url_of(path) + match query {
        Some(q) => seq!['?'] + q@,
        None => Seq::empty(),
    } + match fragment {
        Some(f) => seq!['#'] + f@,
        None => Seq::empty(),
    }
}

/// The `file:` URL of a resolved file, with its query and fragment.
pub fn oxc_resolved_path_to_url(
    rules: UrlRules,
    path: &str,
    query: &Option<String>,
    fragment: &Option<String>,
) -> (res: String)
    ensures
        res@ == resolved_url(rules, path@, *query, *fragment),
{
    let mut url = rules.path_to_file_url(path);
    match query {
        Some(q) => {
            url.push('?');
            url.push_str(q.as_str());
        },
        None => {},
    }
    match fragment {
        Some(f) => {
            url.push('#');
            url.push_str(f.as_str());
        },
        None => {},
    }
    url
}

/// The format reported for a JSON module: `json` when the caller wrote a
/// `type` import attribute, `module` otherwise, so that the load hook can
/// synthesise named exports.
pub open spec fn json_format_for(attributes: Seq<(String, String)>) -> ModuleFormat {
    if exists|i: int| 0 <= i < attributes.len() && #[trigger] attributes[i].0@ == "type"@ {
        ModuleFormat::Json
    } else {
        ModuleFormat::Module
    }
}

/// The format reported for a JSON module.
pub fn json_format(context: &ResolveContext) -> (res: ModuleFormat)
    requires
        context.wf(),
    ensures
        res == json_format_for(context.import_attributes@),
{
    let attributes = &context.import_attributes;
    let mut i: usize = 0;
    while i < attributes.len()
        invariant
            attributes@ == context.import_attributes@,
            i <= attributes@.len(),
            forall|k: int| 0 <= k < i ==> attributes@[k].0@ != "type"@,
        decreases attributes@.len() - i,
    {
        if same_text(attributes[i].0.as_str(), "type") {
            assert(context.import_attributes@[i as int].0@ == "type"@);
            return ModuleFormat::Json;
        }
        i += 1;
    }
    ModuleFormat::Module
}

/// Each `#` of a path escaped as NUL `#`, the resolver's escape that
/// keeps a hash a file name character rather than a fragment.
pub open spec fn escape_hashes(s: Seq<u8>) -> Seq<u8>
    decreases s.len(),
{
    if s.len() == 0 {
        s
    } else {
        (if s[0] == 0x23 {
            seq![0x00u8, 0x23u8]
        } else {
            seq![s[0]]
        }) + escape_hashes(s.drop_first())
    }
}

/// The query and fragment of a URL, from its first `?` or `#` on.
pub open spec fn query_suffix(s: Seq<u8>) -> Seq<u8> {
    match first_of(s, 0x3f, 0x23) {
        Some(i) => s.subrange(i, s.len() as int),
        None => Seq::empty(),
    }
}

proof fn lemma_escape_concat(a: Seq<u8>, b: Seq<u8>)
    ensures
        escape_hashes(a + b) == escape_hashes(a) + escape_hashes(b),
    decreases a.len(),
{
    if a.len() > 0 {
        lemma_escape_concat(a.drop_first(), b);
        assert((a + b).drop_first() =~= a.drop_first() + b);
    } else {
        assert(a + b =~= b);
    }
}

proof fn lemma_escape_identity(a: Seq<u8>)
    requires
        forall|i: int| 0 <= i < a.len() ==> a[i] != 0x23,
    ensures
        escape_hashes(a) == a,
    decreases a.len(),
{
    if a.len() > 0 {
        lemma_escape_identity(a.drop_first());
        assert(seq![a[0]] + a.drop_first() =~= a);
    }
}

proof fn lemma_escape_hash()
    ensures
        escape_hashes(seq![0x23u8]) == seq![0x00u8, 0x23u8],
        valid_utf8(seq![0x00u8, 0x23u8]),
{
    assert(seq![0x23u8].drop_first() =~= Seq::<u8>::empty());
    assert(escape_hashes(Seq::<u8>::empty()) == Seq::<u8>::empty());
    assert(seq![0x23u8][0] == 0x23);
    assert(escape_hashes(seq![0x23u8]) =~= seq![0x00u8, 0x23u8]);
    assert(all_ascii(seq![0x00u8, 0x23u8]));
    lemma_ascii_valid(seq![0x00u8, 0x23u8]);
}

proof fn lemma_escape_valid(s: Seq<u8>)
    requires
        valid_utf8(s),
    ensures
        valid_utf8(escape_hashes(s)),
    decreases s.len(),
{
    if exists|i: int| 0 <= i < s.len() && s[i] == 0x23 {
        let i = choose|i: int| 0 <= i < s.len() && s[i] == 0x23;
        let a = s.subrange(0, i);
        let b = s.subrange(i + 1, s.len() as int);
        lemma_ascii_cut_subrange_valid(s, 0, i);
        lemma_ascii_cut_subrange_valid(s, i + 1, s.len() as int);
        lemma_escape_valid(a);
        lemma_escape_valid(b);
        assert(s =~= a + (seq![0x23u8] + b));
        lemma_escape_concat(a, seq![0x23u8] + b);
        lemma_escape_concat(seq![0x23u8], b);
        lemma_escape_hash();
        lemma_valid_concat(seq![0x00u8, 0x23u8], escape_hashes(b));
        lemma_valid_concat(escape_hashes(a), seq![0x00u8, 0x23u8] + escape_hashes(b));
    } else {
        lemma_escape_identity(s);
    }
}

/// How the resolver reads an escaped request: a NUL right before a `#`
/// is dropped, and the `#` is a file name character.
pub open spec fn unescape_hashes(s: Seq<u8>) -> Seq<u8>
    decreases s.len(),
{
    if s.len() == 0 {
        s
    } else if s.len() >= 2 && s[0] == 0x00 && s[1] == 0x23 {
        seq![0x23u8] + unescape_hashes(s.subrange(2, s.len() as int))
    } else {
        seq![s[0]] + unescape_hashes(s.drop_first())
    }
}

/// The escape loses nothing: the resolver reads the escaped path as the
/// path itself, `#` included, for any path without NUL bytes.
pub proof fn law_hash_escape_reversible(p: Seq<u8>)
    requires
        !p.contains(0x00),
    ensures
        unescape_hashes(escape_hashes(p)) == p,
    decreases p.len(),
{
    if p.len() > 0 {
        let rest = p.drop_first();
        assert(!rest.contains(0x00)) by {
            if rest.contains(0x00) {
                let k = choose|k: int| 0 <= k < rest.len() && rest[k] == 0x00;
                assert(p[k + 1] == 0x00);
            }
        }
        assert(p[0] != 0x00) by {
            if p[0] == 0x00 {
                assert(p.contains(0x00));
            }
        }
        law_hash_escape_reversible(rest);
        let e = escape_hashes(rest);
        let s = escape_hashes(p);
        if p[0] == 0x23 {
            assert(s == seq![0x00u8, 0x23u8] + e);
            assert(s.subrange(2, s.len() as int) =~= e);
        } else {
            assert(s == seq![p[0]] + e);
            assert(s.drop_first() =~= e);
        }
        assert(seq![p[0]] + rest =~= p);
    }
}

/// What the resolver is asked for a `file:` URL: the decoded path, with
/// each `#` escaped so that it stays part of the file name, followed by
/// the URL's own query and fragment, which stay module identity.
pub open spec fn file_url_request(rules: UrlRules, specifier: Seq<u8>) -> Option<Seq<u8>> {
    match rules.path_of(specifier) {
        Some(p) => Some(escape_hashes(p) + query_suffix(specifier)),
        None => None,
    }
}

/// What the resolver is asked for a `file:` URL specifier; an error when
/// it does not decode to a path.
pub fn file_url_resolve_request(rules: UrlRules, specifier: &str) -> (res: Result<String, ResolveError>)
    ensures
        match file_url_request(rules, specifier.spec_bytes()) {
            Some(r) => res matches Ok(s) && s@ == decode_utf8(r),
            None => res == Err::<String, ResolveError>(ResolveError::SpecifierNotFileUrl),
        },
{
    let path = match rules.file_url_to_path(specifier) {
        Some(p) => p,
        None => return Err(ResolveError::SpecifierNotFileUrl),
    };
    let ghost decoded = rules.path_of(specifier.spec_bytes())->0;
    let p = path.as_str().as_bytes();
    proof {
        rules.lemma_path_valid(specifier.spec_bytes());
        lemma_decode_encode_valid(decoded);
        assert(p@ == decoded);
    }
    let mut out: Vec<u8> = Vec::new();
    let mut i: usize = 0;
    while i < p.len()
        invariant
            i <= p@.len(),
            out@ == escape_hashes(p@.subrange(0, i as int)),
        decreases p@.len() - i,
    {
        proof {
            lemma_escape_concat(p@.subrange(0, i as int), seq![p@[i as int]]);
            assert(p@.subrange(0, i + 1) =~= p@.subrange(0, i as int) + seq![p@[i as int]]);
            assert(seq![p@[i as int]].drop_first() =~= Seq::<u8>::empty());
            assert(escape_hashes(seq![p@[i as int]]) =~= (if p@[i as int] == 0x23 {
                seq![0x00u8, 0x23u8]
            } else {
                seq![p@[i as int]]
            }) + escape_hashes(Seq::<u8>::empty()));
        }
        if p[i] == 0x23 {
            out.push(0x00);
        }
        out.push(p[i]);
        i += 1;
    }
    let b = specifier.as_bytes();
    proof {
        assert(p@.subrange(0, p@.len() as int) =~= p@);
        lemma_escape_valid(p@);
        encode_utf8_valid_utf8(specifier@);
    }
    match find_either_byte(b, 0x3f, 0x23) {
        Some(k) => {
            proof {
                lemma_ascii_cut_subrange_valid(b@, k as int, b@.len() as int);
                lemma_valid_concat(out@, b@.subrange(k as int, b@.len() as int));
            }
            let ghost head = out@;
            out.extend_from_slice(&b[k..b.len()]);
            assert(out@ =~= head + b@.subrange(k as int, b@.len() as int));
        },
        None => {
            assert(out@ =~= out@ + Seq::<u8>::empty());
        },
    }
    Ok(text_of(out.as_slice()))
}

/// Where an importing module lives.
pub struct ParentLocation {
    /// The importing file.
    pub file: String,
    /// The directory that holds it, which relative specifiers resolve
    /// against.
    pub directory: String,
}

/// Why a resolve request is refused.
#[derive(Clone, Copy, PartialEq, Eq, Structural, Debug)]
pub enum ResolveError {
    /// The parent URL is not a `file:` URL, or names no file.
    ParentNotFileUrl,
    /// A `file:` specifier does not decode to a path.
    SpecifierNotFileUrl,
}

impl ResolveError {
    pub open spec fn text(self) -> Seq<char> {
        match self {
            ResolveError::ParentNotFileUrl => "Parent URL is not a file URL"@,
            ResolveError::SpecifierNotFileUrl => "Specifier is not a file URL"@,
        }
    }

    /// The message the hook fails with.
    pub fn message(&self) -> (res: &'static str)
        ensures
            res@ == self.text(),
    {
        match self {
            ResolveError::ParentNotFileUrl => "Parent URL is not a file URL",
            ResolveError::SpecifierNotFileUrl => "Specifier is not a file URL",
        }
    }
}

/// The importing file and its directory, from the parent URL: none
/// without a parent URL, and an error when the parent URL is not a
/// `file:` URL or its path has no parent.
pub fn parent_location(rules: UrlRules, parent_url: Option<&str>) -> (res: Result<
    Option<ParentLocation>,
    ResolveError,
>)
    ensures
        match parent_url {
            None => res matches Ok(None),
            Some(url) => match rules.path_of(url.spec_bytes()) {
                None => res == Err::<Option<ParentLocation>, ResolveError>(
                    ResolveError::ParentNotFileUrl,
                ),
                Some(file) => match rules.parent_of(file) {
                    None => res == Err::<Option<ParentLocation>, ResolveError>(
                        ResolveError::ParentNotFileUrl,
                    ),
                    Some(dir) => res matches Ok(Some(loc)) && loc.file@ == decode_utf8(file)
                        && loc.directory@ == decode_utf8(dir),
                },
            },
        },
{
    let url = match parent_url {
        Some(u) => u,
        None => return Ok(None),
    };
    let file = match rules.file_url_to_path(url) {
        Some(f) => f,
        None => return Err(ResolveError::ParentNotFileUrl),
    };
    proof {
        let decoded = rules.path_of(url.spec_bytes())->0;
        rules.lemma_path_valid(url.spec_bytes());
        lemma_decode_encode_valid(decoded);
    }
    match rules.path_parent(file.as_str()) {
        Some(directory) => Ok(Some(ParentLocation { file, directory })),
        None => Err(ResolveError::ParentNotFileUrl),
    }
}

/// How a specifier is handed to the resolver.
#[derive(Clone, Copy, PartialEq, Eq, Structural, Debug)]
pub enum ResolveRoute {
    /// A `file:` URL: its decoded path, from the root.
    FileUrl,
    /// From the importer's directory, with the config that the importer's
    /// own discovery finds: discovery is per file, and there is an
    /// importer to discover from.
    ImporterConfig,
    /// From the importer's directory, or the working directory for an
    /// entry point, with the process-wide config.
    Directory,
}

/// The route for a specifier: `file:` URLs first, then per-importer
/// discovery when configs are discovered per file and there is an
/// importer.
pub open spec fn route_for(specifier: &str, discovers_per_file: bool, has_parent: bool) -> ResolveRoute {
    if starts_with(specifier.spec_bytes(), "file://".spec_bytes()) {
        ResolveRoute::FileUrl
    } else if discovers_per_file && has_parent {
        ResolveRoute::ImporterConfig
    } else {
        ResolveRoute::Directory
    }
}

/// How the specifier is handed to the resolver.
pub fn resolve_route(specifier: &str, discovers_per_file: bool, has_parent: bool) -> (res:
    ResolveRoute)
    ensures
        res == route_for(specifier, discovers_per_file, has_parent),
{
    if has_prefix(specifier.as_bytes(), "file://".as_bytes()) {
        ResolveRoute::FileUrl
    } else if discovers_per_file && has_parent {
        ResolveRoute::ImporterConfig
    } else {
        ResolveRoute::Directory
    }
}

/// A module that the resolver found.
pub struct ResolvedModule {
    pub path: String,
    /// The query, as the resolver reports it.
    pub query: Option<String>,
    /// The fragment, as the resolver reports it.
    pub fragment: Option<String>,
    pub module_type: Option<ModuleType>,
}

/// A path whose extension is `json`, in any ASCII case.
pub open spec fn is_json_path(p: Seq<u8>) -> bool {
    extension(p) matches Some(e) && eq_ignore_case(e, "json".spec_bytes())
}

/// A resolved file whose extension, as the rules read it, is `json` in
/// any ASCII case.
pub open spec fn json_file_for(rules: UrlRules, p: Seq<u8>) -> bool {
    rules.extension_of(p) matches Some(e) && eq_ignore_case(e, "json".spec_bytes())
}

/// A URL of a file inside a `node_modules` directory.
pub open spec fn in_node_modules(p: Seq<u8>) -> bool {
    contains_bytes(p, "/node_modules/".spec_bytes())
}

/// The format reported for a resolved file outside `node_modules`:
/// `.cjs`, `.cts` and `.node` files are CommonJS, `.mjs` and `.mts` files
/// ES modules; a `.ts` or `.tsx` file whose own tsconfig names a format
/// gets it; anything else follows the resolver's module type, and
/// CommonJS when it has none.
pub open spec fn file_format(
    rules: UrlRules,
    path: Seq<u8>,
    tsconfig_format: Option<ModuleFormat>,
    module_type: Option<ModuleType>,
) -> ModuleFormat {
    match rules.extension_of(path) {
        None => ModuleFormat::CommonJs,
        Some(e) => if e == "cjs".spec_bytes() || e == "cts".spec_bytes() || e
            == "node".spec_bytes() {
            ModuleFormat::CommonJs
        } else if e == "mts".spec_bytes() || e == "mjs".spec_bytes() {
            ModuleFormat::Module
        } else if (e == "ts".spec_bytes() || e == "tsx".spec_bytes()) && tsconfig_format is Some {
            tsconfig_format->0
        } else {
            match module_type {
                Some(ModuleType::Module) => ModuleFormat::Module,
                _ => ModuleFormat::CommonJs,
            }
        },
    }
}

/// Whether the format of a resolved file depends on its own tsconfig: a
/// `.ts` or `.tsx` file outside `node_modules`.
pub open spec fn format_reads_tsconfig(rules: UrlRules, path: Seq<u8>) -> bool {
    !rules.in_dependencies(path) && (rules.extension_of(path) matches Some(e) && (e == "ts".spec_bytes() || e
        == "tsx".spec_bytes()))
}

/// Whether the format reported for this resolved file depends on the
/// tsconfig that owns it.
pub fn reads_tsconfig_format(rules: UrlRules, path: &str) -> (res: bool)
    ensures
        res == format_reads_tsconfig(rules, path.spec_bytes()),
{
    let p = path.as_bytes();
    if rules.is_dependency_path(path) {
        return false;
    }
    match rules.extension_bytes(p) {
        Some(e) => bytes_equal(e, "ts".as_bytes()) || bytes_equal(e, "tsx".as_bytes()),
        None => false,
    }
}

/// The format of a resolved file outside `node_modules`.
pub fn resolved_format(
    rules: UrlRules,
    path: &str,
    tsconfig_format: Option<ModuleFormat>,
    module_type: Option<ModuleType>,
) -> (res: ModuleFormat)
    ensures
        res == file_format(rules, path.spec_bytes(), tsconfig_format, module_type),
{
    let p = path.as_bytes();
    let e = match rules.extension_bytes(p) {
        Some(e) => e,
        None => return ModuleFormat::CommonJs,
    };
    if bytes_equal(e, "cjs".as_bytes()) || bytes_equal(e, "cts".as_bytes()) || bytes_equal(
        e,
        "node".as_bytes(),
    ) {
        ModuleFormat::CommonJs
    } else if bytes_equal(e, "mts".as_bytes()) || bytes_equal(e, "mjs".as_bytes()) {
        ModuleFormat::Module
    } else if (bytes_equal(e, "ts".as_bytes()) || bytes_equal(e, "tsx".as_bytes()))
        && tsconfig_format.is_some() {
        match tsconfig_format {
            Some(f) => f,
            None => ModuleFormat::CommonJs,
        }
    } else {
        match module_type {
            Some(ModuleType::Module) => ModuleFormat::Module,
            _ => ModuleFormat::CommonJs,
        }
    }
}

/// Whether the path names a JSON file.
pub fn is_json_file(path: &str) -> (res: bool)
    ensures
        res == is_json_path(path.spec_bytes()),
{
    match extension_bytes(path.as_bytes()) {
        Some(e) => eq_ignore_ascii_case(e, "json".as_bytes()),
        None => false,
    }
}

/// Whether a resolved file is a JSON file.
pub fn names_json_file(rules: UrlRules, path: &str) -> (res: bool)
    ensures
        res == json_file_for(rules, path.spec_bytes()),
{
    match rules.extension_bytes(path.as_bytes()) {
        Some(e) => eq_ignore_ascii_case(e, "json".as_bytes()),
        None => false,
    }
}

/// How the resolve hook answers.
pub enum ResolveAnswer {
    /// Hand `specifier` to the next hook and mark its answer final,
    /// reporting `format` when there is one.
    ShortCircuit { specifier: String, format: Option<ModuleFormat> },
    /// Hand the request to the next hook unchanged and return its answer
    /// as it is.
    Delegate,
}

/// The answer for a resolved module: its URL, and the format.
pub open spec fn answers_resolved(
    res: ResolveAnswer,
    rules: UrlRules,
    r: ResolvedModule,
    format: Option<ModuleFormat>,
) -> bool {
    res matches ResolveAnswer::ShortCircuit { specifier: s, format: f } && s@ == resolved_url(
        rules,
        r.path@,
        r.query,
        r.fragment,
    ) && f == format
}

/// The answer for a specifier that did not resolve: the specifier
/// itself, and the format.
pub open spec fn answers_unresolved(
    res: ResolveAnswer,
    specifier: Seq<char>,
    format: Option<ModuleFormat>,
) -> bool {
    res matches ResolveAnswer::ShortCircuit { specifier: s, format: f } && s@ == specifier && f
        == format
}

/// How the resolve hook answers once the resolver has run.
///
/// A resolved JSON file is answered with its URL and the JSON format. A
/// request with import attributes otherwise goes to the next hook as it
/// is. Any other resolved file is answered with its URL, and with
/// [`file_format`] unless it lies in `node_modules`. A specifier that did
/// not resolve is handed on, with the JSON format when its path ends in
/// `.json`.
pub fn resolve_answer(
    rules: UrlRules,
    specifier: &str,
    resolved: Option<&ResolvedModule>,
    context: &ResolveContext,
    tsconfig_format: Option<ModuleFormat>,
) -> (res: ResolveAnswer)
    requires
        context.wf(),
    ensures
        match resolved {
            Some(r) => if json_file_for(rules, encode_utf8(r.path@)) {
                answers_resolved(res, rules, *r, Some(json_format_for(context.import_attributes@)))
            } else if context.import_attributes@.len() > 0 {
                res is Delegate
            } else {
                answers_resolved(
                    res,
                    rules,
                    *r,
                    if rules.in_dependencies(encode_utf8(r.path@)) {
                        None
                    } else {
                        Some(
                            file_format(rules, encode_utf8(r.path@), tsconfig_format, r.module_type),
                        )
                    },
                )
            },
            None => if context.import_attributes@.len() > 0 {
                res is Delegate
            } else {
                answers_unresolved(
                    res,
                    specifier@,
                    if ends_with(before_query(specifier.spec_bytes()), ".json".spec_bytes()) {
                        Some(json_format_for(context.import_attributes@))
                    } else {
                        None
                    },
                )
            },
        },
{
    if let Some(r) = resolved {
        if names_json_file(rules, r.path.as_str()) {
            let url = oxc_resolved_path_to_url(rules, r.path.as_str(), &r.query, &r.fragment);
            return ResolveAnswer::ShortCircuit { specifier: url, format: Some(json_format(context)) };
        }
    }
    if context.import_attributes.len() > 0 {
        return ResolveAnswer::Delegate;
    }
    match resolved {
        Some(r) => {
            let url = oxc_resolved_path_to_url(rules, r.path.as_str(), &r.query, &r.fragment);
            if rules.is_dependency_path(r.path.as_str()) {
                ResolveAnswer::ShortCircuit { specifier: url, format: None }
            } else {
                let format = resolved_format(rules, r.path.as_str(), tsconfig_format, r.module_type);
                ResolveAnswer::ShortCircuit { specifier: url, format: Some(format) }
            }
        },
        None => {
            let owned = specifier.to_owned();
            if has_suffix(url_path(specifier).as_bytes(), ".json".as_bytes()) {
                ResolveAnswer::ShortCircuit { specifier: owned, format: Some(json_format(context)) }
            } else {
                ResolveAnswer::ShortCircuit { specifier: owned, format: None }
            }
        },
    }
}

/// The next hook's answer, marked final and, when a format is given,
/// reporting it.
pub fn mark_short_circuit(output: ResolveFnOutput, format: Option<ModuleFormat>) -> (res:
    ResolveFnOutput)
    ensures
        output.wf() ==> res.wf(),
        res.short_circuit == Some(true),
        res.url == output.url,
        res.import_attributes == output.import_attributes,
        match format {
            Some(f) => res.format matches Some(Some(name)) && name@ == f.name(),
            None => res.format == output.format,
        },
{
    let ResolveFnOutput { format: reported, short_circuit: _, url, import_attributes } = output;
    let format = match format {
        Some(f) => Some(Some(f.as_str().to_owned())),
        None => reported,
    };
    ResolveFnOutput { format, short_circuit: Some(true), url, import_attributes }
}

} // verus!
