//! TypeScript declarations for the functions that a WebAssembly module
//! exports.

use vstd::prelude::*;
use crate::text::same_text;

verus! {

broadcast use {vstd::seq::group_seq_axioms, vstd::seq_lib::group_seq_properties};

/// An export as its name and, for a function, the names of its parameter
/// and result types.
pub type ExportView = (Seq<char>, Option<(Seq<Seq<char>>, Seq<Seq<char>>)>);

/// What `walrus` reads of a module: `None` when the bytes are no module,
/// else its exports in order, each a name and, for a function, the
/// `walrus` names of its parameter and result types (`i32`, `i64`,
/// `f32`, `f64`, `v128`, `externref`, `funcref`).
pub uninterp spec fn wasm_exports(bytes: Seq<u8>) -> Option<Seq<ExportView>>;

/// Parses the module with `walrus::Module::from_buffer` and lists its
/// exports, each with its name and, for a function, the `Display` names
/// of its parameter and result types. The contract names what the parse
/// gives; it is a function of the bytes alone.
#[verifier::external_body]
fn read_wasm_exports(bytes: &[u8]) -> (res: Option<Vec<(String, Option<(Vec<String>, Vec<String>)>)>>)
    ensures
        match res {
            Some(exports) => wasm_exports(bytes@) == Some(exports.deep_view()),
            None => wasm_exports(bytes@) is None,
        },
{
    let module = match walrus::Module::from_buffer(bytes) {
        Ok(module) => module,
        Err(_) => return None,
    };
    let name = |ty: &walrus::ValType| ty.to_string();
    Some(module.exports.iter().map(|export| (export.name.clone(), match export.item {
        walrus::ExportItem::Function(id) => {
            let ty = module.types.get(module.funcs.get(id).ty());
            Some((ty.params().iter().map(name).collect(), ty.results().iter().map(name).collect()))
        },
        _ => None,
    })).collect())
}

/// The TypeScript type of a WebAssembly value type: numbers for `i32`,
/// `f32` and `f64`, `bigint` for `i64`, `BigInt64Array` for `v128`, and
/// `any` for references.
pub open spec fn ts_type(wasm_type: Seq<char>) -> Seq<char> {
    if wasm_type == "i32"@ {
        "number"@
    } else if wasm_type == "i64"@ {
        "bigint"@
    } else if wasm_type == "f32"@ || wasm_type == "f64"@ {
        "number"@
    } else if wasm_type == "v128"@ {
        "BigInt64Array"@
    } else {
        "any"@
    }
}

/// The TypeScript type of a WebAssembly value type.
pub fn wasm_type_to_ts(wasm_type: &str) -> (res: &'static str)
    ensures
        res@ == ts_type(wasm_type@),
{
    if same_text(wasm_type, "i32") {
        "number"
    } else if same_text(wasm_type, "i64") {
        "bigint"
    } else if same_text(wasm_type, "f32") || same_text(wasm_type, "f64") {
        "number"
    } else if same_text(wasm_type, "v128") {
        "BigInt64Array"
    } else {
        "any"
    }
}

/// The decimal digits of `n`.
pub open spec fn decimal_chars(n: nat) -> Seq<char>
    decreases n,
{
    (if n >= 10 {
        decimal_chars(n / 10)
    } else {
        Seq::empty()
    }).push(((0x30 + n % 10) as u8) as char)
}

fn push_decimal(out: &mut String, n: usize)
    ensures
        final(out)@ == old(out)@ + decimal_chars(n as nat),
    decreases n,
{
    if n >= 10 {
        push_decimal(out, n / 10);
    }
    let digit = (n % 10) as u8;
    out.push((0x30u8 + digit) as char);
}

/// `param0: T0, param1: T1, ...` for the parameter types.
pub open spec fn param_list(params: Seq<Seq<char>>) -> Seq<char>
    decreases params.len(),
{
    if params.len() == 0 {
        Seq::empty()
    } else {
        let i = (params.len() - 1) as nat;
        param_list(params.drop_last()) + (if i > 0 {
            ", "@
        } else {
            Seq::empty()
        }) + "param"@ + decimal_chars(i) + ": "@ + ts_type(params.last())
    }
}

/// The TypeScript types of the result types, separated by `, `.
pub open spec fn type_list(results: Seq<Seq<char>>) -> Seq<char>
    decreases results.len(),
{
    if results.len() == 0 {
        Seq::empty()
    } else {
        type_list(results.drop_last()) + (if results.len() > 1 {
            ", "@
        } else {
            Seq::empty()
        }) + ts_type(results.last())
    }
}

/// The return type: `void` for no result, the type of a single result,
/// and a tuple type for several.
pub open spec fn result_type(results: Seq<Seq<char>>) -> Seq<char> {
    if results.len() == 0 {
        "void"@
    } else if results.len() == 1 {
        ts_type(results[0])
    } else {
        "["@ + type_list(results) + "]"@
    }
}

/// `export function name(params): result;` and a newline.
pub open spec fn declaration(name: Seq<char>, params: Seq<Seq<char>>, results: Seq<Seq<char>>) -> Seq<
    char,
> {
    "export function "@ + name + "("@ + param_list(params) + "): "@ + result_type(results) + ";\n"@
}

/// The declarations of the function exports, in order; other exports
/// are skipped.
pub open spec fn declarations(exports: Seq<ExportView>) -> Seq<char>
    decreases exports.len(),
{
    if exports.len() == 0 {
        Seq::empty()
    } else {
        declarations(exports.drop_last()) + match exports.last().1 {
            Some(signature) => declaration(exports.last().0, signature.0, signature.1),
            None => Seq::empty(),
        }
    }
}

fn push_params(out: &mut String, params: &Vec<String>)
    ensures
        final(out)@ == old(out)@ + param_list(params.deep_view()),
{
    let ghost start = out@;
    let mut i: usize = 0;
    while i < params.len()
        invariant
            i <= params@.len(),
            out@ == start + param_list(params.deep_view().subrange(0, i as int)),
        decreases params@.len() - i,
    {
        proof {
            let done = params.deep_view().subrange(0, i + 1);
            assert(done.drop_last() =~= params.deep_view().subrange(0, i as int));
            assert(done.last() == params@[i as int]@);
        }
        if i > 0 {
            out.push_str(", ");
        }
        out.push_str("param");
        push_decimal(out, i);
        out.push_str(": ");
        out.push_str(wasm_type_to_ts(params[i].as_str()));
        i += 1;
    }
    proof {
        assert(params.deep_view().subrange(0, params@.len() as int) =~= params.deep_view());
    }
}

fn push_result_type(out: &mut String, results: &Vec<String>)
    ensures
        final(out)@ == old(out)@ + result_type(results.deep_view()),
{
    if results.len() == 0 {
        out.push_str("void");
    } else if results.len() == 1 {
        out.push_str(wasm_type_to_ts(results[0].as_str()));
    } else {
        out.push_str("[");
        let ghost start = out@;
        let mut i: usize = 0;
        while i < results.len()
            invariant
                i <= results@.len(),
                out@ == start + type_list(results.deep_view().subrange(0, i as int)),
            decreases results@.len() - i,
        {
            proof {
                let done = results.deep_view().subrange(0, i + 1);
                assert(done.drop_last() =~= results.deep_view().subrange(0, i as int));
                assert(done.last() == results@[i as int]@);
            }
            if i > 0 {
                out.push_str(", ");
            }
            out.push_str(wasm_type_to_ts(results[i].as_str()));
            i += 1;
        }
        proof {
            assert(results.deep_view().subrange(0, results@.len() as int) =~= results.deep_view());
        }
        out.push_str("]");
    }
}

/// The TypeScript declarations of the function exports.
pub fn declarations_text(exports: &Vec<(String, Option<(Vec<String>, Vec<String>)>)>) -> (res: String)
    ensures
        res@ == declarations(exports.deep_view()),
{
    let mut out = String::new();
    let mut i: usize = 0;
    while i < exports.len()
        invariant
            i <= exports@.len(),
            out@ == declarations(exports.deep_view().subrange(0, i as int)),
        decreases exports@.len() - i,
    {
        proof {
            let done = exports.deep_view().subrange(0, i + 1);
            assert(done.drop_last() =~= exports.deep_view().subrange(0, i as int));
            assert(done.last() == exports@[i as int].deep_view());
        }
        let (name, signature) = &exports[i];
        match signature {
            Some((params, results)) => {
                out.push_str("export function ");
                out.push_str(name.as_str());
                out.push_str("(");
                push_params(&mut out, params);
                out.push_str("): ");
                push_result_type(&mut out, results);
                out.push_str(";\n");
            },
            None => {},
        }
        i += 1;
    }
    proof {
        assert(exports.deep_view().subrange(0, exports@.len() as int) =~= exports.deep_view());
    }
    out
}

/// The TypeScript declarations of the functions that a WebAssembly
/// module exports; `None` when the bytes are no WebAssembly module.
pub fn get_types_from_wasm(input: &[u8]) -> (res: Option<String>)
    ensures
        match wasm_exports(input@) {
            Some(exports) => res matches Some(text) && text@ == declarations(exports),
            None => res is None,
        },
{
    match read_wasm_exports(input) {
        Some(exports) => Some(declarations_text(&exports)),
        None => None,
    }
}

/// The declared return type lists every result: none is `void`, one is
/// its own TypeScript type, two are a tuple of both types in order, and
/// each further result adds its type at the end of the tuple.
pub proof fn law_results_declared_in_order(a: Seq<char>, b: Seq<char>, results: Seq<Seq<char>>, c: Seq<char>)
    ensures
        result_type(Seq::empty()) == "void"@,
        result_type(seq![a]) == ts_type(a),
        result_type(seq![a, b]) == "["@ + ts_type(a) + ", "@ + ts_type(b) + "]"@,
        results.len() >= 2 ==> result_type(results.push(c)) == result_type(results).drop_last() + ", "@
            + ts_type(c) + "]"@,
{
    reveal_strlit("]");
    let two = seq![a, b];
    assert(two.drop_last() =~= seq![a]);
    assert(seq![a].drop_last() =~= Seq::<Seq<char>>::empty());
    assert(seq![a].last() == a);
    assert(type_list(Seq::<Seq<char>>::empty()) == Seq::<char>::empty());
    assert(type_list(seq![a]) == type_list(Seq::<Seq<char>>::empty()) + Seq::<char>::empty() + ts_type(a));
    assert(type_list(seq![a]) =~= ts_type(a));
    assert(type_list(two) == type_list(seq![a]) + ", "@ + ts_type(b));
    assert(result_type(two) =~= "["@ + ts_type(a) + ", "@ + ts_type(b) + "]"@);
    if results.len() >= 2 {
        let more = results.push(c);
        assert(more.drop_last() =~= results);
        let head = "["@ + type_list(results);
        assert(result_type(results) == head + "]"@);
        assert((head + "]"@).drop_last() =~= head);
        assert(result_type(more) =~= head + ", "@ + ts_type(c) + "]"@);
    }
}

/// Parameters are named by their position from `param0` on, each with
/// its TypeScript type, separated by `, `; a further parameter adds its
/// name and type at the end.
pub proof fn law_params_named_by_position(a: Seq<char>, b: Seq<char>, params: Seq<Seq<char>>, c: Seq<char>)
    ensures
        param_list(Seq::empty()) == Seq::<char>::empty(),
        param_list(seq![a, b]) == "param0: "@ + ts_type(a) + ", param1: "@ + ts_type(b),
        params.len() >= 1 ==> param_list(params.push(c)) == param_list(params) + ", param"@
            + decimal_chars(params.len()) + ": "@ + ts_type(c),
{
    reveal_strlit("param0: ");
    reveal_strlit(", param1: ");
    reveal_strlit("param");
    reveal_strlit(": ");
    reveal_strlit(", ");
    reveal_strlit(", param");
    let two = seq![a, b];
    assert(two.drop_last() =~= seq![a]);
    assert(seq![a].drop_last() =~= Seq::<Seq<char>>::empty());
    assert(decimal_chars(0) =~= seq!['0']);
    assert(decimal_chars(1) =~= seq!['1']);
    assert(param_list(Seq::<Seq<char>>::empty()) == Seq::<char>::empty());
    assert(seq![a].last() == a);
    assert(param_list(seq![a]) == param_list(Seq::<Seq<char>>::empty()) + Seq::<char>::empty() + "param"@
        + decimal_chars(0) + ": "@ + ts_type(a));
    assert(param_list(seq![a]) =~= "param0: "@ + ts_type(a));
    assert(param_list(two) == param_list(seq![a]) + ", "@ + "param"@ + decimal_chars(1) + ": "@ + ts_type(b));
    assert(param_list(two) =~= "param0: "@ + ts_type(a) + ", param1: "@ + ts_type(b));
    if params.len() >= 1 {
        let more = params.push(c);
        assert(more.drop_last() =~= params);
        assert(param_list(more) =~= param_list(params) + ", param"@ + decimal_chars(params.len()) + ": "@
            + ts_type(c));
    }
}

} // verus!
