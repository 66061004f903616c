//! What holds across the hooks: a reported URL leads back to its file,
//! the TypeScript probe stays in the file's directory, and the format
//! rules that no option overrides.

use vstd::prelude::*;
use vstd::utf8::*;
use vstd::string::StringSliceAdditionalSpecFns;
use crate::file_url::{
    file_scheme, before_query, windows_url_bytes, lemma_windows_url_valid,
};
use crate::round_trip::{
    law_plain_round_trip_with_suffix, law_drive_round_trip_with_suffix,
    law_unc_round_trip_with_suffix, no_tabs_or_newlines, plain_drive_path, plain_server,
    plain_unc_rest, unc_path,
};
use crate::text::{replaced, lemma_decode_encode_valid};
use crate::resolve::{
    resolved_url, file_format, format_reads_tsconfig, is_json_path, ModuleFormat, ModuleType,
};
use crate::tsconfig::typescript_probe;
use crate::windows_path::{
    root_len, trimmed, after_separator, is_separator, windows_extension, windows_parent,
    windows_final_segment, windows_file_name, lemma_trimmed, lemma_after_separator,
    lemma_after_separator_at, lemma_root_len_prefix, lemma_root_len_bounds,
};
use crate::url_rules::UrlRules;
use crate::load::{plan_for, has_source, loaded_path, LoadPlan, ModuleSource};
use crate::transform_options::ModuleTarget;
use crate::tsconfig::CompilerOptions;
use crate::oxc_pipeline::transform_outcome;
use crate::module_syntax::ambiguous_extension;
use crate::unix_path::{
    extension, parent, trim_back, after_last_slash, final_segment, file_name, last_dot,
    lemma_last_dot, lemma_after_last_slash_at, lemma_last_dot_at, lemma_final_segment,
    lemma_extension_at_end, dot, dot_dot,
};

verus! {

broadcast use {vstd::seq::group_seq_axioms, vstd::seq_lib::group_seq_properties};

/// A path that a `file://` URL carries as it is: no `%`, `?`, `#`, tab
/// or newline.
pub open spec fn plain_file_path(p: Seq<u8>) -> bool {
    !p.contains(0x25) && !p.contains(0x3f) && !p.contains(0x23) && no_tabs_or_newlines(p)
}

/// The bytes of a resolved file's URL: the file's own URL, then a query
/// or fragment that starts with `?` or `#`.
proof fn lemma_resolved_url_bytes(
    rules: UrlRules,
    path: Seq<char>,
    query: Option<String>,
    fragment: Option<String>,
) -> (suffix: Seq<u8>)
    ensures
        encode_utf8(resolved_url(rules, path, query, fragment)) == encode_utf8(rules.url_of(path))
            + suffix,
        suffix.len() == 0 || suffix[0] == 0x3f || suffix[0] == 0x23,
{
    let qpart: Seq<char> = match query {
        Some(q) => seq!['?'] + q@,
        None => Seq::empty(),
    };
    let fpart: Seq<char> = match fragment {
        Some(f) => seq!['#'] + f@,
        None => Seq::empty(),
    };
    let chars = qpart + fpart;
    assert(resolved_url(rules, path, query, fragment) =~= rules.url_of(path) + chars);
    crate::text::lemma_encode_concat(rules.url_of(path), chars);
    let bytes = encode_utf8(chars);
    if chars.len() > 0 {
        let first = seq![chars[0]];
        assert(chars =~= first + chars.drop_first());
        crate::text::lemma_encode_concat(first, chars.drop_first());
        assert(chars[0] == '?' || chars[0] == '#');
        assert(is_ascii_chars(first));
        is_ascii_chars_encode_utf8(first);
        assert(bytes[0] == encode_utf8(first)[0]);
    } else {
        assert(bytes =~= Seq::<u8>::empty());
    }
    bytes
}

/// The plain URL of a path is `file://` and the path.
proof fn lemma_plain_url_bytes(path: Seq<char>)
    ensures
        encode_utf8(UrlRules::Plain.url_of(path)) == file_scheme() + encode_utf8(path),
{
    let scheme = seq!['f', 'i', 'l', 'e', ':', '/', '/'];
    assert(is_ascii_chars(scheme));
    is_ascii_chars_encode_utf8(scheme);
    assert(encode_utf8(scheme) =~= file_scheme());
    crate::text::lemma_encode_concat(scheme, path);
}

/// The Windows URL of a path, as bytes.
proof fn lemma_windows_url_text(path: Seq<char>)
    ensures
        encode_utf8(UrlRules::Windows.url_of(path)) == windows_url_bytes(encode_utf8(path)),
{
    encode_utf8_valid_utf8(path);
    lemma_windows_url_valid(encode_utf8(path));
    lemma_decode_encode_valid(windows_url_bytes(encode_utf8(path)));
}

/// Under the plain rules, the URL that the resolve hook reports for a
/// resolved file leads the load hook back to that file: a plain path comes
/// back whatever query and fragment the resolver reported.
pub proof fn law_resolved_url_round_trip(
    path: Seq<char>,
    query: Option<String>,
    fragment: Option<String>,
)
    requires
        plain_file_path(encode_utf8(path)),
    ensures
        UrlRules::Plain.path_of(encode_utf8(resolved_url(UrlRules::Plain, path, query, fragment)))
            == Some(encode_utf8(path)),
{
    let suffix = lemma_resolved_url_bytes(UrlRules::Plain, path, query, fragment);
    lemma_plain_url_bytes(path);
    encode_utf8_valid_utf8(path);
    law_plain_round_trip_with_suffix(encode_utf8(path), suffix);
}

/// Under the plain rules, the URL that the resolve hook reports for a JSON
/// file is one that the load hook recognises as JSON, whatever query and
/// fragment it carries.
pub proof fn law_json_url_stays_json(
    path: Seq<char>,
    query: Option<String>,
    fragment: Option<String>,
)
    requires
        plain_file_path(encode_utf8(path)),
        is_json_path(encode_utf8(path)),
    ensures
        is_json_path(before_query(encode_utf8(resolved_url(UrlRules::Plain, path, query, fragment)))),
{
    let suffix = lemma_resolved_url_bytes(UrlRules::Plain, path, query, fragment);
    lemma_plain_url_bytes(path);
    let p = encode_utf8(path);
    let head = file_scheme() + p;
    let url = head + suffix;
    assert forall|j: int| 0 <= j < head.len() implies head[j] != 0x3f && head[j] != 0x23 by {
        if j >= 7 {
            assert(head[j] == p[j - 7]);
            if p[j - 7] == 0x3f || p[j - 7] == 0x23 {
                assert(p.contains(p[j - 7]));
            }
        }
    }
    crate::text::lemma_find_either(url, 0x3f, 0x23, 0);
    if suffix.len() > 0 {
        assert(url[head.len() as int] == suffix[0]);
        match crate::text::first_of(url, 0x3f, 0x23) {
            Some(i) => {
                if i < head.len() {
                    assert(url[i] == head[i]);
                }
                assert(i == head.len());
            },
            None => {
                assert(url[head.len() as int] != 0x3f && url[head.len() as int] != 0x23);
            },
        }
        assert(url.subrange(0, head.len() as int) =~= head);
    } else {
        assert(url =~= head);
        match crate::text::first_of(url, 0x3f, 0x23) {
            Some(i) => {
                assert(url[i] == head[i]);
            },
            None => {},
        }
    }
    assert(before_query(url) == head);
    assert(file_scheme().last() == 0x2f);
    crate::unix_path::lemma_extension_after_prefix(file_scheme(), p);
}

/// Under the Windows rules, the URL that the resolve hook reports for a
/// resolved drive path leads the load hook back to that path, written
/// with `/` separators, whatever query and fragment the resolver reported:
/// for a path without `%`, `?`, `#`, tabs, newlines and `.`/`..`
/// components.
pub proof fn law_resolved_drive_url_round_trip(
    path: Seq<char>,
    query: Option<String>,
    fragment: Option<String>,
)
    requires
        plain_drive_path(encode_utf8(path)),
    ensures
        UrlRules::Windows.path_of(encode_utf8(resolved_url(UrlRules::Windows, path, query, fragment)))
            == Some(replaced(encode_utf8(path), 0x5c, 0x2f)),
{
    let suffix = lemma_resolved_url_bytes(UrlRules::Windows, path, query, fragment);
    lemma_windows_url_text(path);
    law_drive_round_trip_with_suffix(encode_utf8(path), suffix);
}

/// Under the Windows rules, the URL that the resolve hook reports for a
/// resolved UNC path `\\server\rest` leads the load hook back to that very
/// path, whatever query and fragment the resolver reported: for a server
/// name of plain unreserved ASCII in canonical form, and the rest without
/// `/`, `?` and `.`/`..` components.
pub proof fn law_resolved_unc_url_round_trip(
    host: Seq<u8>,
    rest: Seq<u8>,
    path: Seq<char>,
    query: Option<String>,
    fragment: Option<String>,
)
    requires
        encode_utf8(path) == unc_path(host, rest),
        plain_server(host),
        plain_unc_rest(rest),
    ensures
        UrlRules::Windows.path_of(encode_utf8(resolved_url(UrlRules::Windows, path, query, fragment)))
            == Some(encode_utf8(path)),
{
    let suffix = lemma_resolved_url_bytes(UrlRules::Windows, path, query, fragment);
    lemma_windows_url_text(path);
    law_unc_round_trip_with_suffix(host, rest, suffix);
}

/// Under the plain path rules, the TypeScript probe of a JavaScript file
/// names a `.ts` file in the same directory, so that it is claimed by the
/// same configs.
pub proof fn law_probe_stays_in_directory(p: Seq<u8>)
    ensures
        typescript_probe(UrlRules::Plain, p) matches Some(q) ==> extension(q) == Some("ts".spec_bytes()) && parent(
            q,
        ) == parent(p),
{
    if let Some(q) = typescript_probe(UrlRules::Plain, p) {
        let e = extension(p)->0;
        let t = trim_back(p);
        let k = after_last_slash(t);
        lemma_final_segment(p);
        lemma_extension_at_end(p);
        let f = t.subrange(k, t.len() as int);
        assert(file_name(p) == Some(f));
        lemma_last_dot(f);
        let d = last_dot(f);
        assert(d > 0);
        assert(e == f.subrange(d + 1, f.len() as int));
        let cut = t.len() - e.len();
        assert(cut == k + d + 1);
        reveal_strlit("ts");
        let ts = "ts".spec_bytes();
        assert(is_ascii_chars("ts"@));
        is_ascii_chars_encode_utf8("ts"@);
        assert(ts.len() == 2 && ts[0] == 0x74 && ts[1] == 0x73);
        assert(q == t.subrange(0, cut) + ts);
        // The probe ends in `ts`, so nothing is trimmed from it.
        assert(q.last() == 0x73);
        assert(trim_back(q) == q);
        // Its final component starts where that of the path does.
        assert forall|i: int| k <= i < q.len() implies q[i] != 0x2f by {
            if i < cut {
                assert(q[i] == t[i]);
            }
        }
        if k > 0 {
            assert(q[k - 1] == t[k - 1]);
        }
        lemma_after_last_slash_at(q, k);
        let g = q.subrange(k, q.len() as int);
        assert(final_segment(q) == g);
        assert(g.len() == d + 3);
        assert(g != dot() && g != dot_dot()) by {
            assert(g.len() != 1 && g.len() != 2);
        }
        assert(file_name(q) == Some(g));
        assert(g[d] == f[d]);
        assert forall|i: int| d < i < g.len() implies g[i] != 0x2e by {}
        lemma_last_dot_at(g, d);
        assert(g.subrange(d + 1, g.len() as int) =~= ts);
        assert(extension(q) == Some(ts));
        // Both parents are the trimmed part before that component.
        assert(q.subrange(0, k) =~= t.subrange(0, k));
        assert(k < q.len());
        assert(k < t.len());
    }
}

/// Under the Windows path rules too, the TypeScript probe of a JavaScript
/// file names a `.ts` file in the same directory.
pub proof fn law_windows_probe_stays_in_directory(p: Seq<u8>)
    ensures
        typescript_probe(UrlRules::Windows, p) matches Some(q) ==> windows_extension(q) == Some(
            "ts".spec_bytes(),
        ) && windows_parent(q) == windows_parent(p),
{
    if let Some(q) = typescript_probe(UrlRules::Windows, p) {
        let r = root_len(p);
        let t = trimmed(p, r);
        lemma_root_len_bounds(p);
        lemma_trimmed(p, r);
        let e = windows_extension(p)->0;
        assert(t.len() > r);
        lemma_after_separator(t, r);
        let k = after_separator(t, r);
        let f = t.subrange(k, t.len() as int);
        assert(windows_final_segment(p) == f);
        assert(windows_file_name(p) == Some(f));
        lemma_last_dot(f);
        let d = last_dot(f);
        assert(d > 0);
        assert(e == f.subrange(d + 1, f.len() as int));
        let cut = t.len() - e.len();
        assert(cut == k + d + 1);
        reveal_strlit("ts");
        let ts = "ts".spec_bytes();
        assert(is_ascii_chars("ts"@));
        is_ascii_chars_encode_utf8("ts"@);
        assert(ts.len() == 2 && ts[0] == 0x74 && ts[1] == 0x73);
        assert(q == t.subrange(0, cut) + ts);
        // The probe has the root of the path.
        assert(q.subrange(0, cut) =~= p.subrange(0, cut));
        lemma_root_len_prefix(p, q, cut);
        // It ends in `ts`, so nothing is trimmed from it.
        assert(q.last() == 0x73);
        assert(trimmed(q, r) == q);
        // Its final component starts where that of the path does.
        assert forall|j: int| k <= j < q.len() implies !is_separator(#[trigger] q[j]) by {
            if j < cut {
                assert(q[j] == t[j]);
            }
        }
        if k > r {
            assert(q[k - 1] == t[k - 1]);
        }
        lemma_after_separator_at(q, r, k);
        let g = q.subrange(k, q.len() as int);
        assert(windows_final_segment(q) == g);
        assert(g.len() == d + 3);
        assert(g != dot() && g != dot_dot()) by {
            assert(g.len() != 1 && g.len() != 2);
        }
        assert(windows_file_name(q) == Some(g));
        assert(g[d] == f[d]);
        assert forall|i: int| d < i < g.len() implies g[i] != 0x2e by {}
        lemma_last_dot_at(g, d);
        assert(g.subrange(d + 1, g.len() as int) =~= ts);
        assert(windows_extension(q) == Some(ts));
        // Both parents are the trimmed part before that component.
        assert(q.subrange(0, k) =~= t.subrange(0, k));
    }
}

/// `.cjs`, `.cts` and `.node` files are CommonJS and `.mjs` and `.mts`
/// files ES modules, whatever the tsconfig and the package say.
pub proof fn law_extensions_fix_formats(
    rules: UrlRules,
    path: Seq<u8>,
    tsconfig_format: Option<ModuleFormat>,
    module_type: Option<ModuleType>,
)
    ensures
        rules.extension_of(path) matches Some(e) && (e == "cjs".spec_bytes() || e == "cts".spec_bytes()
            || e == "node".spec_bytes()) ==> file_format(rules, path, tsconfig_format, module_type)
            == ModuleFormat::CommonJs,
        rules.extension_of(path) matches Some(e) && (e == "mjs".spec_bytes() || e == "mts".spec_bytes())
            ==> file_format(rules, path, tsconfig_format, module_type) == ModuleFormat::Module,
{
    reveal_strlit("cjs");
    reveal_strlit("cts");
    reveal_strlit("node");
    reveal_strlit("mjs");
    reveal_strlit("mts");
    is_ascii_chars_encode_utf8("cjs"@);
    is_ascii_chars_encode_utf8("cts"@);
    is_ascii_chars_encode_utf8("node"@);
    is_ascii_chars_encode_utf8("mjs"@);
    is_ascii_chars_encode_utf8("mts"@);
    assert("mjs".spec_bytes()[0] != "cjs".spec_bytes()[0]);
    assert("mjs".spec_bytes()[0] != "cts".spec_bytes()[0]);
    assert("mts".spec_bytes()[0] != "cjs".spec_bytes()[0]);
    assert("mts".spec_bytes()[0] != "cts".spec_bytes()[0]);
    assert("mjs".spec_bytes().len() != "node".spec_bytes().len());
    assert("mts".spec_bytes().len() != "node".spec_bytes().len());
}

/// A JSON file becomes an ES module whether dependencies are left alone
/// or not: turning JSON into a module is no code transform.
pub proof fn law_json_ignores_dependency_skip(
    url: &str,
    format: Seq<char>,
    source: Option<ModuleSource>,
)
    requires
        has_source(source),
        is_json_path(before_query(url.spec_bytes())),
    ensures
        plan_for(url, format, source, true) == LoadPlan::JsonModule,
        plan_for(url, format, source, false) == LoadPlan::JsonModule,
{
}

/// A transform reports a flip to an ES module only for a file not
/// reported as one, transformed for the load hook (the preserve target),
/// whose extension leaves its kind to its content.
pub proof fn law_transform_flips_only_on_load_path(
    path: &str,
    source: &str,
    options: Option<&CompilerOptions>,
    module_target: Option<ModuleTarget>,
    enable_top_level_await: bool,
    is_es_module: bool,
)
    ensures
        transform_outcome(path@, source@, options, module_target, enable_top_level_await, is_es_module)
            matches Ok((_, _, flip)) && flip ==> !is_es_module && module_target == Some(
            ModuleTarget::Preserve,
        ) && ambiguous_extension(path.spec_bytes()),
{
}

/// The registered loader keeps the module format selected for ES
/// modules: a loaded file reported as `module` whose source is
/// transformed is transformed as an ES module, and the transform that the
/// load hook runs (the preserve target) never reports it as flipped.
pub proof fn law_loader_keeps_module_format(
    url: &str,
    source: Option<ModuleSource>,
    skip_dependencies: bool,
    text: Seq<char>,
    options: Option<&CompilerOptions>,
)
    requires
        plan_for(url, "module"@, source, skip_dependencies) is Transform,
    ensures
        plan_for(url, "module"@, source, skip_dependencies) == (LoadPlan::Transform { is_es_module: true }),
        transform_outcome(loaded_path(url), text, options, Some(ModuleTarget::Preserve), false, true) matches Ok(
            (_, _, flip),
        ) ==> !flip,
{
}

/// A `.ts` or `.tsx` file whose own tsconfig names a format is reported
/// with that format, whatever the resolver says of its package; and
/// whether that tsconfig is read at all is decided by the same extensions.
pub proof fn law_typescript_files_take_tsconfig_format(
    rules: UrlRules,
    path: Seq<u8>,
    tsconfig_format: ModuleFormat,
    module_type: Option<ModuleType>,
)
    requires
        rules.extension_of(path) == Some("ts".spec_bytes()) || rules.extension_of(path) == Some(
            "tsx".spec_bytes(),
        ),
    ensures
        file_format(rules, path, Some(tsconfig_format), module_type) == tsconfig_format,
        format_reads_tsconfig(rules, path) == !rules.in_dependencies(path),
{
    reveal_strlit("ts");
    reveal_strlit("tsx");
    reveal_strlit("cjs");
    reveal_strlit("cts");
    reveal_strlit("node");
    reveal_strlit("mjs");
    reveal_strlit("mts");
    is_ascii_chars_encode_utf8("ts"@);
    is_ascii_chars_encode_utf8("tsx"@);
    is_ascii_chars_encode_utf8("cjs"@);
    is_ascii_chars_encode_utf8("cts"@);
    is_ascii_chars_encode_utf8("node"@);
    is_ascii_chars_encode_utf8("mjs"@);
    is_ascii_chars_encode_utf8("mts"@);
    assert("ts".spec_bytes()[0] != "cjs".spec_bytes()[0]);
    assert("ts".spec_bytes()[0] != "mjs".spec_bytes()[0]);
    assert("ts".spec_bytes()[0] != "node".spec_bytes()[0]);
    assert("tsx".spec_bytes()[0] != "cjs".spec_bytes()[0]);
    assert("tsx".spec_bytes()[0] != "mjs".spec_bytes()[0]);
    assert("tsx".spec_bytes()[0] != "node".spec_bytes()[0]);
    assert("ts".spec_bytes().len() != "cts".spec_bytes().len());
    assert("ts".spec_bytes().len() != "mts".spec_bytes().len());
    assert("tsx".spec_bytes()[1] != "cts".spec_bytes()[1]);
    assert("tsx".spec_bytes()[1] != "mts".spec_bytes()[1]);
}

} // verus!
