//! A JSON file as an ES module: a default export of the whole value and,
//! for an object, one named export per key that can stand as a binding.

use vstd::prelude::*;
use crate::load::{LoadFnOutput, ModuleSource};

verus! {

broadcast use {vstd::seq::group_seq_axioms, vstd::seq_lib::group_seq_properties};

#[verifier::external_type_specification]
#[verifier::external_body]
pub struct ExJsonError(serde_json::Error);

/// What parsing `source` as JSON gives: `None` when it is not JSON,
/// `Some(Some(keys))` for an object with its keys in the order
/// `serde_json` walks them, `Some(None)` for any other value.
pub uninterp spec fn json_keys(source: Seq<char>) -> Option<Option<Seq<Seq<char>>>>;

/// Parses `source` with `serde_json::from_str` into a `serde_json::Value`
/// and, for an object, lists its keys. The contract names what the parse
/// gives; it is a function of the source alone.
#[verifier::external_body]
fn json_object_keys(source: &str) -> (res: Result<Option<Vec<String>>, serde_json::Error>)
    ensures
        match res {
            Ok(keys) => json_keys(source@) == Some(keys.deep_view()),
            Err(_) => json_keys(source@) is None,
        },
{
    match serde_json::from_str::<serde_json::Value>(source) {
        Ok(serde_json::Value::Object(map)) => Ok(Some(map.keys().cloned().collect())),
        Ok(_) => Ok(None),
        Err(err) => Err(err),
    }
}

/// The reserved words of ECMAScript, the contextually reserved `let` and
/// `static` included.
pub open spec fn reserved_keywords() -> Seq<Seq<char>> {
    seq![
        "let"@, "static"@, "implements"@, "interface"@, "package"@, "private"@, "protected"@,
        "public"@, "await"@, "break"@, "case"@, "catch"@, "class"@, "const"@, "continue"@,
        "debugger"@, "default"@, "delete"@, "do"@, "else"@, "enum"@, "export"@, "extends"@,
        "false"@, "finally"@, "for"@, "function"@, "if"@, "import"@, "in"@, "instanceof"@,
        "new"@, "null"@, "return"@, "super"@, "switch"@, "this"@, "throw"@, "true"@, "try"@,
        "typeof"@, "var"@, "void"@, "while"@, "with"@, "yield"@,
    ]
}

/// `oxc::syntax::keyword::is_reserved_keyword`: membership in oxc's
/// `RESERVED_KEYWORDS` set, which holds exactly the words of
/// [`reserved_keywords`].
#[verifier::external_body]
fn is_reserved_keyword(word: &str) -> (res: bool)
    ensures
        res == reserved_keywords().contains(word@),
{
    oxc::syntax::keyword::is_reserved_keyword(word)
}

/// Whether `name` is a JavaScript identifier name: an identifier start
/// followed by identifier parts, by the Unicode rules of ECMAScript.
pub uninterp spec fn identifier_name(name: Seq<char>) -> bool;

/// An ASCII character that can start an identifier: a letter, `$` or `_`.
pub open spec fn ascii_id_start(c: char) -> bool {
    ('a' <= c && c <= 'z') || ('A' <= c && c <= 'Z') || c == '$' || c == '_'
}

/// An ASCII character that can continue an identifier: a start character
/// or a digit.
pub open spec fn ascii_id_part(c: char) -> bool {
    ascii_id_start(c) || ('0' <= c && c <= '9')
}

/// `oxc::syntax::identifier::is_identifier_name`. The contract names its
/// verdict, a function of the name alone, and states what its source
/// shows plainly: the empty string is no identifier, and a name of ASCII
/// characters is one exactly when its first character is a letter, `$`
/// or `_` and the others are letters, digits, `$` or `_` (the table
/// `ASCII_ID_FLAGS`). For other names the Unicode rules are not stated.
#[verifier::external_body]
fn is_identifier_name(name: &str) -> (res: bool)
    ensures
        res == identifier_name(name@),
        name@.len() == 0 ==> !res,
        (forall|i: int| 0 <= i < name@.len() ==> (name@[i] as u32) < 128) ==> res == (name@.len() > 0
            && ascii_id_start(name@[0]) && forall|i: int| 1 <= i < name@.len() ==> ascii_id_part(name@[i])),
{
    oxc::syntax::identifier::is_identifier_name(name)
}

/// A key that can be exported under its own name: an identifier name
/// that is not a reserved word.
pub open spec fn exportable(key: Seq<char>) -> bool {
    !reserved_keywords().contains(key) && identifier_name(key)
}

/// Whether the key can be exported under its own name.
pub fn exportable_key(key: &str) -> (res: bool)
    ensures
        res == exportable(key@),
{
    !is_reserved_keyword(key) && is_identifier_name(key)
}

/// `export const key = json.key;` and a newline.
pub open spec fn export_line(key: Seq<char>) -> Seq<char> {
    "export const "@ + key + " = json."@ + key + ";\n"@
}

/// The named exports of the keys, in order, skipping the keys that
/// cannot be exported under their own names.
pub open spec fn export_lines(keys: Seq<Seq<char>>) -> Seq<char>
    decreases keys.len(),
{
    if keys.len() == 0 {
        Seq::empty()
    } else {
        export_lines(keys.drop_last()) + if exportable(keys.last()) {
            export_line(keys.last())
        } else {
            Seq::empty()
        }
    }
}

/// The module text for a JSON source: for an object, the value bound to
/// `json`, exported as the default and key by key; for any other value,
/// the value as the default export. An array or scalar stays an ES
/// module too, so that `data.json?v=1` and `data.json?v=2` stay two
/// modules.
pub open spec fn json_module_text(source: Seq<char>, keys: Option<Seq<Seq<char>>>) -> Seq<char> {
    match keys {
        Some(ks) => "const json = "@ + source + "\n"@ + "export default json\n"@ + export_lines(ks),
        None => "export default "@ + source,
    }
}

/// The module text for a JSON source whose keys are `keys`.
pub fn json_module_source(source: &str, keys: &Option<Vec<String>>) -> (res: String)
    ensures
        res@ == json_module_text(source@, keys.deep_view()),
{
    match keys {
        Some(ks) => {
            let mut out = String::new();
            out.push_str("const json = ");
            out.push_str(source);
            out.push_str("\n");
            out.push_str("export default json\n");
            let ghost head = out@;
            let mut i: usize = 0;
            while i < ks.len()
                invariant
                    i <= ks@.len(),
                    out@ == head + export_lines(ks.deep_view().subrange(0, i as int)),
                decreases ks@.len() - i,
            {
                let key = ks[i].as_str();
                proof {
                    let done = ks.deep_view().subrange(0, i + 1);
                    assert(done.drop_last() =~= ks.deep_view().subrange(0, i as int));
                    assert(done.last() == key@);
                }
                if exportable_key(key) {
                    out.push_str("export const ");
                    out.push_str(key);
                    out.push_str(" = json.");
                    out.push_str(key);
                    out.push_str(";\n");
                }
                i += 1;
            }
            proof {
                assert(ks.deep_view().subrange(0, ks@.len() as int) =~= ks.deep_view());
            }
            out
        },
        None => {
            let mut out = String::new();
            out.push_str("export default ");
            out.push_str(source);
            out
        },
    }
}

/// Why a JSON file cannot become a module.
pub enum JsonModuleError {
    /// The source is not JSON; the parser's error.
    InvalidJson(serde_json::Error),
}

/// The module text for a JSON source; an error when the source is not
/// JSON.
pub fn json_module(source: &str) -> (res: Result<String, JsonModuleError>)
    ensures
        match json_keys(source@) {
            Some(keys) => res matches Ok(text) && text@ == json_module_text(source@, keys),
            None => res is Err,
        },
{
    match json_object_keys(source) {
        Ok(keys) => Ok(json_module_source(source, &keys)),
        Err(err) => Err(JsonModuleError::InvalidJson(err)),
    }
}

/// The answer for a JSON file: an ES module with its synthesised source,
/// and the URL.
pub fn json_module_output(url: String, source: &str) -> (res: Result<LoadFnOutput, JsonModuleError>)
    ensures
        match json_keys(source@) {
            Some(keys) => res matches Ok(out) && {
                &&& out.format@ == "module"@
                &&& out.source matches Some(ModuleSource::Text(text))
                &&& text@ == json_module_text(source@, keys)
                &&& out.response_url == Some(url)
            },
            None => res is Err,
        },
{
    match json_module(source) {
        Ok(text) => Ok(
            LoadFnOutput {
                format: "module".to_owned(),
                source: Some(ModuleSource::Text(text)),
                response_url: Some(url),
            },
        ),
        Err(err) => Err(err),
    }
}

} // verus!
