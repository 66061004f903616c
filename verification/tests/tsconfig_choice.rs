use oxc_node::url_rules::UrlRules;
use oxc_node::resolve::ModuleFormat;
use oxc_node::tsconfig::{
    default_module_from_tsconfig, explicit_tsconfig, explicit_tsconfig_path, non_empty_env,
    probe_as_typescript, resolver_settings, tsconfig_lookup_path, tsconfig_mode, CompilerOptions,
    TsconfigMode,
};

fn options_with_module(module: Option<&str>) -> CompilerOptions {
    CompilerOptions {
        experimental_decorators: None,
        emit_decorator_metadata: None,
        strict_null_checks: None,
        use_define_for_class_fields: None,
        rewrite_relative_import_extensions: None,
        jsx: None,
        jsx_factory: None,
        jsx_fragment_factory: None,
        jsx_import_source: None,
        target: None,
        module: module.map(str::to_owned),
    }
}

#[test]
fn es_module_options_name_the_module_format() {
    for module in ["nodenext", "NodeNext", "node16", "node18", "es6", "ES2015", "es2020", "es2022", "ESNext"] {
        let options = options_with_module(Some(module));
        assert_eq!(default_module_from_tsconfig(Some(&options)), Some(ModuleFormat::Module), "{module}");
    }
    for module in ["commonjs", "preserve", "amd", "es2023", ""] {
        let options = options_with_module(Some(module));
        assert_eq!(default_module_from_tsconfig(Some(&options)), None, "{module}");
    }
    assert_eq!(default_module_from_tsconfig(Some(&options_with_module(None))), None);
    assert_eq!(default_module_from_tsconfig(None), None);
}

#[test]
fn empty_environment_values_count_as_unset() {
    assert_eq!(non_empty_env(Some(String::new())), None);
    assert_eq!(non_empty_env(None), None);
    assert_eq!(non_empty_env(Some("a".to_owned())), Some("a".to_owned()));
    assert_eq!(
        explicit_tsconfig(Some(String::new()), Some("b.json".to_owned())),
        Some("b.json".to_owned())
    );
    assert_eq!(
        explicit_tsconfig(Some("a.json".to_owned()), Some("b.json".to_owned())),
        Some("a.json".to_owned())
    );
    assert_eq!(explicit_tsconfig(None, Some(String::new())), None);
}

#[test]
fn lookup_paths_are_made_absolute() {
    assert_eq!(tsconfig_lookup_path(UrlRules::Plain, "/cwd", "src/index.ts"), "/cwd/src/index.ts");
    assert_eq!(tsconfig_lookup_path(UrlRules::Plain, "/cwd", "/abs/index.ts"), "/abs/index.ts");
    assert_eq!(
        explicit_tsconfig_path(UrlRules::Plain, "/cwd", Some("tsconfig.build.json".to_owned())),
        Some("/cwd/tsconfig.build.json".to_owned())
    );
    assert_eq!(explicit_tsconfig_path(UrlRules::Plain, "/cwd", None), None);
}

#[test]
fn a_missing_named_config_disables_configs() {
    assert_eq!(tsconfig_mode(Some("/p/tsconfig.json".to_owned()), true), TsconfigMode::Manual("/p/tsconfig.json".to_owned()));
    assert_eq!(tsconfig_mode(Some("/p/missing.json".to_owned()), false), TsconfigMode::Disabled);
    assert_eq!(tsconfig_mode(None, false), TsconfigMode::Auto);
}

#[test]
fn javascript_files_are_probed_as_typescript() {
    assert_eq!(probe_as_typescript(UrlRules::Plain, "/p/src/a.mjs"), Some("/p/src/a.ts".to_owned()));
    assert_eq!(probe_as_typescript(UrlRules::Plain, "/p/src/a.js"), Some("/p/src/a.ts".to_owned()));
    assert_eq!(probe_as_typescript(UrlRules::Plain, "/p/src/a.jsx"), Some("/p/src/a.ts".to_owned()));
    assert_eq!(probe_as_typescript(UrlRules::Plain, "/p/src/a.b.cjs"), Some("/p/src/a.b.ts".to_owned()));
    assert_eq!(probe_as_typescript(UrlRules::Plain, "/p/src/a.ts"), None);
    assert_eq!(probe_as_typescript(UrlRules::Plain, "/p/src/a.JS"), None);
    assert_eq!(probe_as_typescript(UrlRules::Plain, "/p/src/a"), None);
    assert_eq!(probe_as_typescript(UrlRules::Plain, "/p/src/.js"), None);
}

#[test]
fn resolver_follows_typescript_extension_rules() {
    let settings = resolver_settings(vec!["node".to_owned()], TsconfigMode::Auto);
    assert_eq!(settings.tsconfig, TsconfigMode::Auto);
    assert_eq!(settings.condition_names, vec!["node".to_owned()]);
    assert_eq!(
        settings.extension_alias,
        vec![
            (".js".to_owned(), vec![".js".to_owned(), ".ts".to_owned(), ".tsx".to_owned()]),
            (".mjs".to_owned(), vec![".mjs".to_owned(), ".mts".to_owned()]),
            (".cjs".to_owned(), vec![".cjs".to_owned(), ".cts".to_owned()]),
        ]
    );
    assert_eq!(
        settings.extensions,
        [".js", ".mjs", ".cjs", ".ts", ".tsx", ".mts", ".cts", ".json", ".wasm", ".node"]
            .iter()
            .map(|e| (*e).to_owned())
            .collect::<Vec<_>>()
    );
}
