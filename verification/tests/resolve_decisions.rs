use oxc_node::url_rules::UrlRules;
use oxc_node::resolve::{
    resolve_route, ResolveRoute,
    is_builtin_module, json_format, mark_short_circuit, oxc_resolved_path_to_url, parent_location,
    file_url_resolve_request, reads_tsconfig_format, resolve_answer, resolved_format,
    short_circuits_as_builtin, url_path, ModuleFormat, ModuleType, ResolveAnswer, ResolveContext,
    ResolveError, ResolveFnOutput, ResolvedModule,
};

fn context(attributes: &[(&str, &str)]) -> ResolveContext {
    ResolveContext {
        conditions: vec!["node".to_owned(), "import".to_owned()],
        import_attributes: attributes
            .iter()
            .map(|(k, v)| ((*k).to_owned(), (*v).to_owned()))
            .collect(),
        parent_url: None,
    }
}

fn resolved(path: &str, module_type: Option<ModuleType>) -> ResolvedModule {
    ResolvedModule { path: path.to_owned(), query: None, fragment: None, module_type }
}

fn short_circuit(answer: ResolveAnswer) -> (String, Option<ModuleFormat>) {
    match answer {
        ResolveAnswer::ShortCircuit { specifier, format } => (specifier, format),
        ResolveAnswer::Delegate => panic!("expected a short circuit"),
    }
}

#[test]
fn builtin_specifiers_short_circuit() {
    assert!(short_circuits_as_builtin("node:fs"));
    assert!(short_circuits_as_builtin("nodejs:fs"));
    assert!(short_circuits_as_builtin("fs"));
    assert!(short_circuits_as_builtin("fs/promises"));
    assert!(short_circuits_as_builtin("_http_agent"));
    assert!(short_circuits_as_builtin("zlib"));
    assert!(short_circuits_as_builtin("data:text/javascript,export default 1"));
    assert!(!short_circuits_as_builtin("./fs"));
    assert!(!short_circuits_as_builtin("lodash"));
    assert!(!short_circuits_as_builtin("fsx"));
    assert!(is_builtin_module("worker_threads"));
    assert!(!is_builtin_module("node:fs"));
}

#[test]
fn url_path_drops_query_and_fragment() {
    assert_eq!(url_path("./mod.ts?v=1"), "./mod.ts");
    assert_eq!(url_path("file:///a.ts#x?y"), "file:///a.ts");
    assert_eq!(url_path("plain.ts"), "plain.ts");
}

#[test]
fn resolved_url_appends_query_and_fragment() {
    assert_eq!(oxc_resolved_path_to_url(UrlRules::Plain, "/a/b.ts", &None, &None), "file:///a/b.ts");
    assert_eq!(
        oxc_resolved_path_to_url(UrlRules::Plain, "/a/b.ts", &Some("v=1".to_owned()), &Some("x".to_owned())),
        "file:///a/b.ts?v=1#x"
    );
}

#[test]
fn json_format_depends_on_the_type_attribute() {
    assert_eq!(json_format(&context(&[("type", "json")])), ModuleFormat::Json);
    assert_eq!(json_format(&context(&[("mode", "x")])), ModuleFormat::Module);
    assert_eq!(json_format(&context(&[])), ModuleFormat::Module);
    assert_eq!(ModuleFormat::Json.as_str(), "json");
    assert_eq!(ModuleFormat::CommonJs.as_str(), "commonjs");
}

#[test]
fn file_url_request_escapes_hashes_and_keeps_the_suffix() {
    assert_eq!(file_url_resolve_request(UrlRules::Plain, "file:///a/b%23c.ts"), Ok("/a/b\u{0}#c.ts".to_owned()));
    assert_eq!(file_url_resolve_request(UrlRules::Plain, "file:///a/b.ts?v=1#x"), Ok("/a/b.ts?v=1#x".to_owned()));
    assert_eq!(file_url_resolve_request(UrlRules::Plain, "file:///a%20b.ts"), Ok("/a b.ts".to_owned()));
    assert_eq!(file_url_resolve_request(UrlRules::Plain, "https://example.com/a.ts"), Err(ResolveError::SpecifierNotFileUrl));
    assert_eq!(file_url_resolve_request(UrlRules::Plain, "file:///a%FF.ts"), Err(ResolveError::SpecifierNotFileUrl));
}

#[test]
fn parent_location_needs_a_file_url() {
    assert!(matches!(parent_location(UrlRules::Plain, None), Ok(None)));
    let location = parent_location(UrlRules::Plain, Some("file:///p/src/a.ts")).unwrap().unwrap();
    assert_eq!(location.file, "/p/src/a.ts");
    assert_eq!(location.directory, "/p/src");
    assert!(matches!(
        parent_location(UrlRules::Plain, Some("https://example.com/a.ts")),
        Err(ResolveError::ParentNotFileUrl)
    ));
    assert!(matches!(parent_location(UrlRules::Plain, Some("file:///")), Err(ResolveError::ParentNotFileUrl)));
    assert_eq!(ResolveError::ParentNotFileUrl.message(), "Parent URL is not a file URL");
    assert_eq!(ResolveError::SpecifierNotFileUrl.message(), "Specifier is not a file URL");
}

#[test]
fn resolved_format_follows_extension_tsconfig_and_package() {
    assert_eq!(resolved_format(UrlRules::Plain, "/p/a.cjs", Some(ModuleFormat::Module), Some(ModuleType::Module)), ModuleFormat::CommonJs);
    assert_eq!(resolved_format(UrlRules::Plain, "/p/a.node", None, None), ModuleFormat::CommonJs);
    assert_eq!(resolved_format(UrlRules::Plain, "/p/a.mts", None, Some(ModuleType::CommonJs)), ModuleFormat::Module);
    assert_eq!(resolved_format(UrlRules::Plain, "/p/a.ts", Some(ModuleFormat::Module), Some(ModuleType::CommonJs)), ModuleFormat::Module);
    assert_eq!(resolved_format(UrlRules::Plain, "/p/a.ts", None, Some(ModuleType::Module)), ModuleFormat::Module);
    assert_eq!(resolved_format(UrlRules::Plain, "/p/a.js", Some(ModuleFormat::Module), Some(ModuleType::CommonJs)), ModuleFormat::CommonJs);
    assert_eq!(resolved_format(UrlRules::Plain, "/p/a.js", None, Some(ModuleType::Json)), ModuleFormat::CommonJs);
    assert_eq!(resolved_format(UrlRules::Plain, "/p/Makefile", None, Some(ModuleType::Module)), ModuleFormat::CommonJs);
    assert!(reads_tsconfig_format(UrlRules::Plain, "/p/a.tsx"));
    assert!(!reads_tsconfig_format(UrlRules::Plain, "/p/node_modules/x/a.ts"));
    assert!(!reads_tsconfig_format(UrlRules::Plain, "/p/a.mts"));
}

#[test]
fn resolved_json_is_answered_with_the_json_format() {
    let r = resolved("/p/data.JSON", Some(ModuleType::Json));
    let (url, format) = short_circuit(resolve_answer(UrlRules::Plain, "./data.json", Some(&r), &context(&[("type", "json")]), None));
    assert_eq!(url, "file:///p/data.JSON");
    assert_eq!(format, Some(ModuleFormat::Json));
    let (_, format) = short_circuit(resolve_answer(UrlRules::Plain, "./data.json", Some(&r), &context(&[]), None));
    assert_eq!(format, Some(ModuleFormat::Module));
}

#[test]
fn import_attributes_delegate_other_requests() {
    let r = resolved("/p/a.ts", None);
    assert!(matches!(
        resolve_answer(UrlRules::Plain, "./a.ts", Some(&r), &context(&[("type", "css")]), None),
        ResolveAnswer::Delegate
    ));
    assert!(matches!(
        resolve_answer(UrlRules::Plain, "./style.css", None, &context(&[("type", "css")]), None),
        ResolveAnswer::Delegate
    ));
}

#[test]
fn resolved_files_report_their_format_outside_node_modules() {
    let r = resolved("/p/src/a.ts", Some(ModuleType::Module));
    let (url, format) = short_circuit(resolve_answer(UrlRules::Plain, "./a", Some(&r), &context(&[]), None));
    assert_eq!(url, "file:///p/src/a.ts");
    assert_eq!(format, Some(ModuleFormat::Module));
    let dep = resolved("/p/node_modules/x/index.js", Some(ModuleType::CommonJs));
    let (url, format) = short_circuit(resolve_answer(UrlRules::Plain, "x", Some(&dep), &context(&[]), None));
    assert_eq!(url, "file:///p/node_modules/x/index.js");
    assert_eq!(format, None);
}

#[test]
fn unresolved_specifiers_are_handed_on() {
    let (url, format) = short_circuit(resolve_answer(UrlRules::Plain, "./missing.json?v=2", None, &context(&[]), None));
    assert_eq!(url, "./missing.json?v=2");
    assert_eq!(format, Some(ModuleFormat::Module));
    let (url, format) = short_circuit(resolve_answer(UrlRules::Plain, "virtual:thing", None, &context(&[]), None));
    assert_eq!(url, "virtual:thing");
    assert_eq!(format, None);
}

#[test]
fn short_circuit_marks_and_sets_the_format() {
    let output = ResolveFnOutput {
        format: Some(None),
        short_circuit: None,
        url: "file:///a.ts".to_owned(),
        import_attributes: None,
    };
    let marked = mark_short_circuit(output, Some(ModuleFormat::Builtin));
    assert_eq!(marked.short_circuit, Some(true));
    assert_eq!(marked.format, Some(Some("builtin".to_owned())));
    assert_eq!(marked.url, "file:///a.ts");
    let output = ResolveFnOutput {
        format: Some(Some("commonjs".to_owned())),
        short_circuit: Some(false),
        url: "node:fs".to_owned(),
        import_attributes: Some(None),
    };
    let marked = mark_short_circuit(output, None);
    assert_eq!(marked.short_circuit, Some(true));
    assert_eq!(marked.format, Some(Some("commonjs".to_owned())));
    assert_eq!(marked.import_attributes, Some(None));
}

#[test]
fn routes_to_the_resolver() {
    assert_eq!(resolve_route("file:///p/a.ts", true, true), ResolveRoute::FileUrl);
    assert_eq!(resolve_route("file:///p/a.ts", false, false), ResolveRoute::FileUrl);
    assert_eq!(resolve_route("./a", true, true), ResolveRoute::ImporterConfig);
    assert_eq!(resolve_route("./a", true, false), ResolveRoute::Directory);
    assert_eq!(resolve_route("./a", false, true), ResolveRoute::Directory);
    assert_eq!(resolve_route("FILE:///p/a.ts", false, true), ResolveRoute::Directory);
}
