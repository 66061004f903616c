use oxc_node::load::{commonjs_probe_path, load_lookup_path};
use oxc_node::resolve::{
    file_url_resolve_request, names_json_file, oxc_resolved_path_to_url, parent_location,
    reads_tsconfig_format, resolve_answer, resolved_format, ModuleFormat, ModuleType, ResolveAnswer,
    ResolveContext, ResolveError, ResolvedModule,
};
use oxc_node::tsconfig::{
    explicit_tsconfig_path, importer_config_lookups, probe_as_typescript, tsconfig_lookup_path,
    TsconfigMode,
};
use oxc_node::url_rules::UrlRules;
use oxc_node::windows_path::{windows_extension_bytes, windows_path_parent};

#[test]
fn windows_parent_stops_at_the_root() {
    assert_eq!(windows_path_parent("C:\\a\\b.ts"), Some("C:\\a".to_owned()));
    assert_eq!(windows_path_parent("C:/a/b.ts"), Some("C:/a".to_owned()));
    assert_eq!(windows_path_parent("C:\\a"), Some("C:\\".to_owned()));
    assert_eq!(windows_path_parent("C:\\a\\b\\."), Some("C:\\a".to_owned()));
    assert_eq!(windows_path_parent("C:\\a\\\\b\\"), Some("C:\\a".to_owned()));
    assert_eq!(windows_path_parent("C:\\"), None);
    assert_eq!(windows_path_parent("\\\\server\\share\\a.ts"), Some("\\\\server\\share\\".to_owned()));
    assert_eq!(windows_path_parent("\\\\server\\share"), None);
    assert_eq!(windows_path_parent("a.ts"), Some(String::new()));
    assert_eq!(windows_path_parent(""), None);
}

#[test]
fn windows_parent_location_reads_drive_and_unc_urls() {
    let location = parent_location(UrlRules::Windows, Some("file:///C:/p/src/a.ts")).unwrap().unwrap();
    assert_eq!(location.file, "C:/p/src/a.ts");
    assert_eq!(location.directory, "C:/p/src");
    let location = parent_location(UrlRules::Windows, Some("file://server/share/a.ts")).unwrap().unwrap();
    assert_eq!(location.file, "\\\\server\\share\\a.ts");
    assert_eq!(location.directory, "\\\\server\\share\\");
    assert!(matches!(parent_location(UrlRules::Windows, Some("file:///C:/")), Err(ResolveError::ParentNotFileUrl)));
    let plain = parent_location(UrlRules::Plain, Some("file://server/share/a.ts")).unwrap().unwrap();
    assert_eq!(plain.file, "server/share/a.ts");
}

#[test]
fn windows_resolved_urls_round_trip() {
    let url = oxc_resolved_path_to_url(UrlRules::Windows, "C:\\a\\b.ts", &Some("v=1".to_owned()), &Some("x".to_owned()));
    assert_eq!(url, "file:///C:/a/b.ts?v=1#x");
    assert_eq!(load_lookup_path(UrlRules::Windows, &url), "C:/a/b.ts");
    let url = oxc_resolved_path_to_url(UrlRules::Windows, "\\\\server\\share\\a.ts", &None, &Some("x".to_owned()));
    assert_eq!(url, "file://server/share/a.ts#x");
    assert_eq!(load_lookup_path(UrlRules::Windows, &url), "\\\\server\\share\\a.ts");
}

#[test]
fn windows_file_url_requests_and_probes() {
    assert_eq!(
        file_url_resolve_request(UrlRules::Windows, "file:///C:/a/b%23c.ts?v=1"),
        Ok("C:/a/b\u{0}#c.ts?v=1".to_owned())
    );
    assert_eq!(
        commonjs_probe_path(UrlRules::Windows, "file:///C:/p/a.ts?x=1", "commonjs", false),
        Some("C:/p/a.ts".to_owned())
    );
    assert_eq!(load_lookup_path(UrlRules::Windows, "node:fs"), "node:fs");
}

#[test]
fn windows_dependencies_use_backslashes() {
    assert!(!reads_tsconfig_format(UrlRules::Windows, "C:\\p\\node_modules\\x\\a.ts"));
    assert!(reads_tsconfig_format(UrlRules::Plain, "C:\\p\\node_modules\\x\\a.ts"));
    assert!(reads_tsconfig_format(UrlRules::Windows, "C:\\p\\src\\a.ts"));
    let r = ResolvedModule {
        path: "C:\\p\\node_modules\\x\\a.js".to_owned(),
        query: None,
        fragment: None,
        module_type: None,
    };
    let context = ResolveContext { conditions: vec![], import_attributes: vec![], parent_url: None };
    match resolve_answer(UrlRules::Windows, "x", Some(&r), &context, None) {
        ResolveAnswer::ShortCircuit { specifier, format } => {
            assert_eq!(specifier, "file:///C:/p/node_modules/x/a.js");
            assert!(format.is_none());
        }
        ResolveAnswer::Delegate => panic!("expected an answer"),
    }
}

#[test]
fn windows_extensions_read_both_separators() {
    assert_eq!(windows_extension_bytes(b"C:\\p\\a.ts"), Some(&b"ts"[..]));
    assert_eq!(windows_extension_bytes(b"C:/p/a.d.mts"), Some(&b"mts"[..]));
    assert_eq!(windows_extension_bytes(b"C:\\p\\a.b\\Makefile"), None);
    assert_eq!(windows_extension_bytes(b"C:\\p\\.env"), None);
    assert_eq!(windows_extension_bytes(b"C:\\"), None);
    assert_eq!(windows_extension_bytes(b"\\\\server\\share\\x.json\\"), Some(&b"json"[..]));
    assert_eq!(
        resolved_format(UrlRules::Windows, "C:\\p\\a.b\\Makefile", None, Some(ModuleType::Module)),
        ModuleFormat::CommonJs
    );
    assert_eq!(
        resolved_format(UrlRules::Windows, "C:\\p\\a.mjs", None, Some(ModuleType::CommonJs)),
        ModuleFormat::Module
    );
    assert!(names_json_file(UrlRules::Windows, "C:\\p\\data.JSON"));
    assert!(!names_json_file(UrlRules::Windows, "C:\\p\\data.json\\x"));
}

#[test]
fn windows_lookup_paths_join_with_backslashes() {
    assert_eq!(tsconfig_lookup_path(UrlRules::Windows, "C:\\cwd", "src\\index.ts"), "C:\\cwd\\src\\index.ts");
    assert_eq!(tsconfig_lookup_path(UrlRules::Windows, "C:\\cwd\\", "a.ts"), "C:\\cwd\\a.ts");
    assert_eq!(tsconfig_lookup_path(UrlRules::Windows, "C:\\cwd", "D:\\abs\\a.ts"), "D:\\abs\\a.ts");
    assert_eq!(tsconfig_lookup_path(UrlRules::Windows, "C:\\cwd", "\\\\server\\share\\a.ts"), "\\\\server\\share\\a.ts");
    assert_eq!(tsconfig_lookup_path(UrlRules::Windows, "C:\\cwd", "\\top\\a.ts"), "C:\\top\\a.ts");
    assert_eq!(tsconfig_lookup_path(UrlRules::Windows, "C:", "a.ts"), "C:a.ts");
    assert_eq!(tsconfig_lookup_path(UrlRules::Plain, "C:\\cwd", "src\\index.ts"), "C:\\cwd/src\\index.ts");
    assert_eq!(
        explicit_tsconfig_path(UrlRules::Windows, "\\\\server\\share\\cwd", Some("\\tsconfig.json".to_owned())),
        Some("\\\\server\\share\\tsconfig.json".to_owned())
    );
}

#[test]
fn windows_typescript_probe_keeps_the_directory() {
    assert_eq!(probe_as_typescript(UrlRules::Windows, "C:\\p\\src\\a.js"), Some("C:\\p\\src\\a.ts".to_owned()));
    assert_eq!(probe_as_typescript(UrlRules::Windows, "C:/p/a.b.mjs"), Some("C:/p/a.b.ts".to_owned()));
    assert_eq!(probe_as_typescript(UrlRules::Windows, "C:\\p.js\\a"), None);
    assert_eq!(probe_as_typescript(UrlRules::Windows, "C:\\p\\a.js\\"), Some("C:\\p\\a.ts".to_owned()));
    assert_eq!(probe_as_typescript(UrlRules::Plain, "C:\\p\\a.js\\"), None);
    assert_eq!(
        importer_config_lookups(UrlRules::Windows, &TsconfigMode::Auto, "\\\\server\\share\\a.jsx"),
        vec!["\\\\server\\share\\a.jsx", "\\\\server\\share\\a.ts"]
    );
}
