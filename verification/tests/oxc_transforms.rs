use oxc_node::load::ModuleSource;
use oxc_node::module_syntax::StatementKind;
use oxc_node::oxc_pipeline::{commonjs_esm_from_bytes, oxc_transform, parse_program, transform_source};
use oxc_node::transform_options::ModuleTarget;
use oxc_node::tsconfig::CompilerOptions;

fn options_with_target(target: &str) -> CompilerOptions {
    CompilerOptions {
        experimental_decorators: None,
        emit_decorator_metadata: None,
        strict_null_checks: None,
        use_define_for_class_fields: None,
        rewrite_relative_import_extensions: None,
        jsx: None,
        jsx_factory: None,
        jsx_fragment_factory: None,
        jsx_import_source: None,
        target: Some(target.to_owned()),
        module: None,
    }
}

#[test]
fn parsing_lists_the_module_statements() {
    let (errors, program) = parse_program("/p/a.ts", "import x from 'y';\nexport const a: number = x;\n", false);
    assert!(errors.is_empty());
    assert_eq!(program.statements, vec![StatementKind::ImportDeclaration, StatementKind::ExportDeclaration]);
    assert!(!program.has_import_meta);
    assert!(program.source_is_module);
    let (errors, program) = parse_program("/p/a.ts", "import x = require('y');\nconsole.log(import.meta.url);\n", false);
    assert!(errors.is_empty());
    assert_eq!(program.statements, vec![StatementKind::TsImportEqualsDeclaration, StatementKind::Other]);
    assert!(program.has_import_meta);
    let (errors, _) = parse_program("/p/a.ts", "const = ;", false);
    assert!(!errors.is_empty());
}

#[test]
fn types_are_stripped_with_a_source_map() {
    let out = transform_source("/p/a.ts", "const a: number = 1;\n", None).ok().unwrap();
    assert_eq!(out.code, "\"use strict\";\nconst a = 1;\n");
    let (json, url) = out.source_map.unwrap();
    assert!(json.contains("\"mappings\""));
    assert!(url.starts_with("data:application/json;"));
}

#[test]
fn parse_errors_name_the_file() {
    let message = transform_source("/p/bad.ts", "const = ;", None).err().unwrap();
    assert!(message.starts_with("Failed to parse /p/bad.ts: "), "{message}");
}

#[test]
fn class_fields_follow_the_target() {
    let source = "class A { x; }\n";
    let define = transform_source("/p/a.ts", source, Some(&options_with_target("ES2022"))).ok().unwrap();
    let set = transform_source("/p/a.ts", source, Some(&options_with_target("ES2015"))).ok().unwrap();
    assert_ne!(define.code, set.code);
    assert!(!set.code.contains("x;"), "{}", set.code);
}

#[test]
fn commonjs_reports_flip_only_on_the_load_path() {
    let esm = "import x from 'y';\nexport const a = x;\n";
    let (_, flipped) = oxc_transform("/p/a.ts", esm, None, Some(ModuleTarget::Preserve), true, false).ok().unwrap();
    assert!(flipped);
    let (_, flipped) = oxc_transform("/p/a.ts", esm, None, Some(ModuleTarget::CommonJs), true, false).ok().unwrap();
    assert!(!flipped);
    let (_, flipped) = oxc_transform("/p/a.cts", "const a = 1;\n", None, Some(ModuleTarget::Preserve), true, false).ok().unwrap();
    assert!(!flipped);
    let (_, flipped) = oxc_transform("/p/a.ts", "module.exports = 1;\n", None, Some(ModuleTarget::Preserve), true, false).ok().unwrap();
    assert!(!flipped);
}

#[test]
fn top_level_for_await_parses_only_as_a_module() {
    let source = "for await (const x of []) {}\n";
    let (out, flipped) = oxc_transform("/p/a.js", source, None, Some(ModuleTarget::Preserve), true, false).ok().unwrap();
    assert!(flipped);
    assert!(out.code.contains("for await"));
    assert!(oxc_transform("/p/a.js", source, None, Some(ModuleTarget::CommonJs), true, false).is_err());
}

#[test]
fn commonjs_files_holding_esm_become_modules() {
    let out = commonjs_esm_from_bytes("file:///p/a.ts", "commonjs", "/p/a.ts", b"export const a: number = 1;\n", None)
        .ok()
        .unwrap()
        .unwrap();
    assert_eq!(out.format, "module");
    assert_eq!(out.response_url, Some("file:///p/a.ts".to_owned()));
    match out.source {
        Some(ModuleSource::Uint8Array(bytes)) => {
            let text = String::from_utf8(bytes).unwrap();
            assert!(text.starts_with("export const a = 1;\n"), "{text}");
            assert!(text.contains("\n//# sourceMappingURL=data:application/json;"));
        }
        _ => panic!("expected transformed bytes"),
    }
    assert!(matches!(commonjs_esm_from_bytes("file:///p/a.js", "commonjs", "/p/a.js", b"module.exports = 1;\n", None), Ok(None)));
    assert!(matches!(commonjs_esm_from_bytes("file:///p/a.js", "commonjs", "/p/a.js", &[0xff, 0xfe], None), Ok(None)));
}
