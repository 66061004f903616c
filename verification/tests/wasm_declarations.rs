use oxc_node::wasm_types::{get_types_from_wasm, wasm_type_to_ts};

fn module_bytes() -> Vec<u8> {
    let mut m = vec![0x00, 0x61, 0x73, 0x6d, 0x01, 0x00, 0x00, 0x00];
    // Types: (i32, i64) -> i32 and () -> ().
    m.extend_from_slice(&[0x01, 0x0a, 0x02, 0x60, 0x02, 0x7f, 0x7e, 0x01, 0x7f, 0x60, 0x00, 0x00]);
    // Two functions.
    m.extend_from_slice(&[0x03, 0x03, 0x02, 0x00, 0x01]);
    // One memory.
    m.extend_from_slice(&[0x05, 0x03, 0x01, 0x00, 0x01]);
    // Exports: add, nop, and the memory.
    m.extend_from_slice(&[
        0x07, 0x13, 0x03, 0x03, b'a', b'd', b'd', 0x00, 0x00, 0x03, b'n', b'o', b'p', 0x00, 0x01,
        0x03, b'm', b'e', b'm', 0x02, 0x00,
    ]);
    // Code.
    m.extend_from_slice(&[0x0a, 0x09, 0x02, 0x04, 0x00, 0x20, 0x00, 0x0b, 0x02, 0x00, 0x0b]);
    m
}

#[test]
fn function_exports_become_declarations() {
    assert_eq!(
        get_types_from_wasm(&module_bytes()),
        Some("export function add(param0: number, param1: bigint): number;\nexport function nop(): void;\n".to_owned())
    );
}

#[test]
fn invalid_modules_are_refused() {
    assert_eq!(get_types_from_wasm(b"not wasm"), None);
}

#[test]
fn value_types_map_to_typescript() {
    assert_eq!(wasm_type_to_ts("i32"), "number");
    assert_eq!(wasm_type_to_ts("i64"), "bigint");
    assert_eq!(wasm_type_to_ts("f32"), "number");
    assert_eq!(wasm_type_to_ts("f64"), "number");
    assert_eq!(wasm_type_to_ts("v128"), "BigInt64Array");
    assert_eq!(wasm_type_to_ts("funcref"), "any");
    assert_eq!(wasm_type_to_ts("externref"), "any");
}
