use oxc_node::transform_options::{
    target_has_native_class_fields, transform_settings, use_define_for_class_fields, JsxRuntime,
    ModuleTarget,
};
use oxc_node::tsconfig::CompilerOptions;

fn options() -> CompilerOptions {
    CompilerOptions {
        experimental_decorators: None,
        emit_decorator_metadata: None,
        strict_null_checks: None,
        use_define_for_class_fields: None,
        rewrite_relative_import_extensions: None,
        jsx: None,
        jsx_factory: None,
        jsx_fragment_factory: None,
        jsx_import_source: None,
        target: None,
        module: None,
    }
}

#[test]
fn native_class_field_targets() {
    assert!(target_has_native_class_fields("ES2022"));
    assert!(target_has_native_class_fields("es2024"));
    assert!(target_has_native_class_fields("ESNext"));
    assert!(target_has_native_class_fields("esnext"));
    assert!(target_has_native_class_fields("es+2023"));
    assert!(!target_has_native_class_fields("es2021"));
    assert!(!target_has_native_class_fields("ES5"));
    assert!(!target_has_native_class_fields("es6"));
    assert!(!target_has_native_class_fields("es3"));
    assert!(!target_has_native_class_fields("es2022x"));
    assert!(!target_has_native_class_fields("es99999999999"));
    assert!(!target_has_native_class_fields("ecmascript2022"));
    assert!(!target_has_native_class_fields("e"));
    assert!(!target_has_native_class_fields(""));
}

#[test]
fn define_semantics_default_and_explicit() {
    assert!(use_define_for_class_fields(None));
    assert!(use_define_for_class_fields(Some(&options())));
    let mut o = options();
    o.target = Some("es2015".to_owned());
    assert!(!use_define_for_class_fields(Some(&o)));
    o.use_define_for_class_fields = Some(true);
    assert!(use_define_for_class_fields(Some(&o)));
    let mut o = options();
    o.target = Some("ES2022".to_owned());
    o.use_define_for_class_fields = Some(false);
    assert!(!use_define_for_class_fields(Some(&o)));
}

#[test]
fn settings_follow_the_compiler_options() {
    let mut o = options();
    o.target = Some("es2020".to_owned());
    o.experimental_decorators = Some(true);
    o.emit_decorator_metadata = Some(true);
    o.jsx = Some("classic".to_owned());
    o.jsx_factory = Some("h".to_owned());
    o.jsx_fragment_factory = Some("Fragment".to_owned());
    o.jsx_import_source = Some("preact".to_owned());
    o.rewrite_relative_import_extensions = Some(true);
    let s = transform_settings(Some(&o), Some(ModuleTarget::Preserve), true);
    assert!(s.set_public_class_fields);
    assert!(s.remove_class_fields_without_initializer);
    assert!(s.legacy_decorators);
    assert!(s.emit_decorator_metadata);
    assert!(!s.strict_null_checks);
    assert_eq!(s.jsx_runtime, Some(JsxRuntime::Classic));
    assert_eq!(s.jsx_pragma, Some("h".to_owned()));
    assert_eq!(s.jsx_pragma_frag, Some("Fragment".to_owned()));
    assert_eq!(s.jsx_import_source, Some("preact".to_owned()));
    assert!(s.rewrite_import_extensions);
    assert_eq!(s.module, Some(ModuleTarget::Preserve));
    assert!(s.top_level_await);
}

#[test]
fn settings_without_compiler_options() {
    let s = transform_settings(None, Some(ModuleTarget::CommonJs), false);
    assert!(!s.set_public_class_fields);
    assert!(!s.remove_class_fields_without_initializer);
    assert!(!s.legacy_decorators);
    assert_eq!(s.jsx_runtime, None);
    assert_eq!(s.jsx_pragma, None);
    assert!(!s.rewrite_import_extensions);
    assert_eq!(s.module, Some(ModuleTarget::CommonJs));
    assert!(!s.top_level_await);
    let mut o = options();
    o.jsx = Some("react-jsx".to_owned());
    assert_eq!(transform_settings(Some(&o), None, false).jsx_runtime, None);
    o.jsx = Some("automatic".to_owned());
    assert_eq!(transform_settings(Some(&o), None, false).jsx_runtime, Some(JsxRuntime::Automatic));
}
