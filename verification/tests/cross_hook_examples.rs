use oxc_node::url_rules::UrlRules;
use oxc_node::file_url::file_url_to_path;
use oxc_node::load::{load_plan, LoadFnOutput, LoadPlan, ModuleSource};
use oxc_node::module_syntax::{flips_to_module, module_retry_allowed, retries_as_module, ProgramSummary, StatementKind};
use oxc_node::percent::percent_decode;
use oxc_node::resolve::{file_url_resolve_request, oxc_resolved_path_to_url};
use oxc_node::transform_options::ModuleTarget;
use oxc_node::tsconfig::probe_as_typescript;
use oxc_node::unix_path::{path_extension, path_parent};

#[test]
fn reported_urls_lead_back_to_their_files() {
    let url = oxc_resolved_path_to_url(UrlRules::Plain, "/p/my dir/a.ts", &Some("v=1".to_owned()), &Some("x".to_owned()));
    assert_eq!(file_url_to_path(&url), Some("/p/my dir/a.ts".to_owned()));
    let url = oxc_resolved_path_to_url(UrlRules::Plain, "/p/a.ts", &None, &Some("frag".to_owned()));
    assert_eq!(file_url_to_path(&url), Some("/p/a.ts".to_owned()));
}

#[test]
fn reported_json_urls_load_as_json_modules() {
    let url = oxc_resolved_path_to_url(UrlRules::Plain, "/p/data.json", &Some("v=2".to_owned()), &None);
    let loaded = LoadFnOutput {
        format: "module".to_owned(),
        source: Some(ModuleSource::Text("{}".to_owned())),
        response_url: None,
    };
    assert_eq!(load_plan(&url, &loaded, true), LoadPlan::JsonModule);
    assert_eq!(load_plan(&url, &loaded, false), LoadPlan::JsonModule);
}

#[test]
fn probes_stay_in_the_directory() {
    for path in ["/p/src/a.mjs", "/p/src/b.c.js", "/p/src/d.jsx/"] {
        let probe = probe_as_typescript(UrlRules::Plain, path).unwrap();
        assert_eq!(path_extension(&probe), Some("ts".to_owned()));
        assert_eq!(path_parent(&probe), path_parent(path));
    }
}

#[test]
fn only_the_load_path_flips_to_module() {
    let esm = ProgramSummary {
        statements: vec![StatementKind::ImportDeclaration],
        has_import_meta: false,
        source_is_module: true,
    };
    for (is_es_module, target) in [(true, Some(ModuleTarget::Preserve)), (false, Some(ModuleTarget::CommonJs)), (false, None)] {
        let allow = module_retry_allowed(is_es_module, target, true);
        let only_module_parse = retries_as_module(allow, true, true);
        assert!(!flips_to_module(only_module_parse, allow, &esm));
    }
}

#[test]
fn escaped_hashes_read_back_as_the_path() {
    let request = file_url_resolve_request(UrlRules::Plain, "file:///a/b%23c%23.ts").unwrap();
    assert_eq!(request, "/a/b\u{0}#c\u{0}#.ts");
    assert_eq!(request.replace("\u{0}#", "#"), "/a/b#c#.ts");
}

#[test]
fn text_without_escapes_decodes_to_itself() {
    assert_eq!(percent_decode(b"/plain/path.ts"), Some("/plain/path.ts".to_owned()));
    assert_eq!(percent_decode(b"/100%"), Some("/100%".to_owned()));
}
