use oxc_node::json_module::{exportable_key, json_module, json_module_output, JsonModuleError};
use oxc_node::load::ModuleSource;

#[test]
fn objects_export_their_identifier_keys() {
    let source = "{\"b-c\":1,\"default\":2,\"a\":3,\"$ok\":4}";
    assert_eq!(
        json_module(source).ok(),
        Some(format!(
            "const json = {source}\nexport default json\nexport const a = json.a;\nexport const $ok = json.$ok;\n"
        ))
    );
}

#[test]
fn other_values_are_default_exports() {
    assert_eq!(json_module("[1, 2]").ok(), Some("export default [1, 2]".to_owned()));
    assert_eq!(json_module("3").ok(), Some("export default 3".to_owned()));
}

#[test]
fn invalid_json_is_an_error() {
    assert!(matches!(json_module("{"), Err(JsonModuleError::InvalidJson(_))));
}

#[test]
fn json_answers_are_modules() {
    let out = json_module_output("file:///d.json".to_owned(), "{\"k\":1}").ok().unwrap();
    assert_eq!(out.format, "module");
    assert_eq!(out.response_url, Some("file:///d.json".to_owned()));
    assert!(matches!(
        out.source,
        Some(ModuleSource::Text(ref t)) if t == "const json = {\"k\":1}\nexport default json\nexport const k = json.k;\n"
    ));
}

#[test]
fn exportable_keys() {
    assert!(exportable_key("foo"));
    assert!(exportable_key("_private"));
    assert!(exportable_key("café"));
    assert!(!exportable_key("class"));
    assert!(!exportable_key("let"));
    assert!(!exportable_key("a-b"));
    assert!(!exportable_key("1a"));
    assert!(!exportable_key(""));
}
