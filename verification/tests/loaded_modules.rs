use oxc_node::url_rules::UrlRules;
use oxc_node::load::{transform_loaded, LoadError, LoadFnOutput, ModuleSource, SourceError};
use oxc_node::tsconfig::{importer_config_lookups, path_config_lookups, TsconfigMode};

fn loaded(format: &str, source: Option<ModuleSource>) -> LoadFnOutput {
    LoadFnOutput { format: format.to_owned(), source, response_url: None }
}

fn text_of(out: &LoadFnOutput) -> String {
    match &out.source {
        Some(ModuleSource::Uint8Array(bytes)) => String::from_utf8(bytes.clone()).unwrap(),
        Some(ModuleSource::Text(text)) => text.clone(),
        _ => panic!("expected a source"),
    }
}

#[test]
fn loaded_without_source_is_left_to_the_caller() {
    let out = transform_loaded("file:///p/a.ts", loaded("module", None), true, None);
    assert!(matches!(out, Ok(None)));
    let out = transform_loaded("file:///p/a.ts", loaded("module", Some(ModuleSource::Null)), true, None);
    assert!(matches!(out, Ok(None)));
}

#[test]
fn loaded_dependency_is_handed_back_unchanged() {
    let source = Some(ModuleSource::Text("const a: number = 1;".to_owned()));
    let out = transform_loaded("file:///p/node_modules/x/a.ts", loaded("commonjs", source), true, None)
        .ok()
        .unwrap()
        .unwrap();
    assert_eq!(out.format, "commonjs");
    assert_eq!(out.response_url, None);
    assert_eq!(text_of(&out), "const a: number = 1;");
}

#[test]
fn loaded_json_becomes_a_module() {
    let source = Some(ModuleSource::Text("{\"a\":1}".to_owned()));
    let out = transform_loaded("file:///p/node_modules/x/data.json", loaded("json", source), true, None)
        .ok()
        .unwrap()
        .unwrap();
    assert_eq!(out.format, "module");
    assert_eq!(out.response_url, Some("file:///p/node_modules/x/data.json".to_owned()));
    assert_eq!(text_of(&out), "const json = {\"a\":1}\nexport default json\nexport const a = json.a;\n");
    let bad = Some(ModuleSource::Text("{".to_owned()));
    assert!(matches!(transform_loaded("file:///p/data.json", loaded("json", bad), true, None), Err(LoadError::Json(_))));
}

#[test]
fn loaded_module_keeps_its_format_with_an_inline_map() {
    let source = Some(ModuleSource::Text("export const a: number = 1;\n".to_owned()));
    let out = transform_loaded("file:///p/a.ts?v=1", loaded("module", source), true, None).ok().unwrap().unwrap();
    assert_eq!(out.format, "module");
    assert_eq!(out.response_url, Some("file:///p/a.ts?v=1".to_owned()));
    let text = text_of(&out);
    assert!(text.starts_with("export const a = 1;\n"), "{text}");
    assert!(text.contains("\n//# sourceMappingURL=data:application/json;"), "{text}");
    assert!(matches!(out.source, Some(ModuleSource::Uint8Array(_))));
}

#[test]
fn loaded_commonjs_holding_esm_flips_to_module() {
    let source = Some(ModuleSource::Buffer(b"import x from 'y';\nexport const a = x;\n".to_vec()));
    let out = transform_loaded("file:///p/a.ts", loaded("commonjs", source), false, None).ok().unwrap().unwrap();
    assert_eq!(out.format, "module");
    let source = Some(ModuleSource::Text("module.exports = 1;\n".to_owned()));
    let out = transform_loaded("file:///p/a.ts", loaded("commonjs", source), false, None).ok().unwrap().unwrap();
    assert_eq!(out.format, "commonjs");
}

#[test]
fn loaded_failures_are_reported() {
    let bytes = Some(ModuleSource::Uint8Array(vec![0xff, 0xfe]));
    assert!(matches!(
        transform_loaded("file:///p/a.ts", loaded("module", bytes), true, None),
        Err(LoadError::Source(SourceError::Uint8ArrayNotUtf8))
    ));
    let bad = Some(ModuleSource::Text("const = ;".to_owned()));
    match transform_loaded("file:///p/bad.ts?x", loaded("module", bad), true, None) {
        Err(LoadError::Transform(message)) => {
            assert!(message.starts_with("Failed to parse file:///p/bad.ts: "), "{message}")
        }
        _ => panic!("expected a parse failure"),
    }
}

#[test]
fn importer_configs_fall_back_to_the_typescript_path() {
    assert_eq!(importer_config_lookups(UrlRules::Plain, &TsconfigMode::Auto, "/p/src/a.js"), vec!["/p/src/a.js", "/p/src/a.ts"]);
    assert_eq!(importer_config_lookups(UrlRules::Plain, &TsconfigMode::Auto, "/p/src/a.mjs"), vec!["/p/src/a.mjs", "/p/src/a.ts"]);
    assert_eq!(importer_config_lookups(UrlRules::Plain, &TsconfigMode::Auto, "/p/src/a.ts"), vec!["/p/src/a.ts"]);
    assert!(importer_config_lookups(UrlRules::Plain, &TsconfigMode::Disabled, "/p/src/a.js").is_empty());
    assert!(importer_config_lookups(UrlRules::Plain, &TsconfigMode::Manual("/p/tsconfig.json".to_owned()), "/p/a.js").is_empty());
}

#[test]
fn emitted_code_configs_use_the_file_itself() {
    assert_eq!(path_config_lookups(&TsconfigMode::Auto, "/p/src/a.js"), vec!["/p/src/a.js"]);
    assert!(path_config_lookups(&TsconfigMode::Disabled, "/p/src/a.ts").is_empty());
    assert!(path_config_lookups(&TsconfigMode::Manual("/p/tsconfig.json".to_owned()), "/p/a.ts").is_empty());
}
