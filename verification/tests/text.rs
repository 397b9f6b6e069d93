use wasmbin::types::{FuncType, Limits, ValueType};

#[test]
fn value_type_names() {
    assert_eq!(ValueType::I32.render(), "I32");
    assert_eq!(ValueType::I64.render(), "I64");
    assert_eq!(ValueType::F32.render(), "F32");
    assert_eq!(ValueType::F64.render(), "F64");
}

#[test]
fn func_type_rendering() {
    let ft = FuncType {
        params: vec![ValueType::I32, ValueType::I64],
        results: vec![ValueType::F64],
    };
    assert_eq!(ft.render(), "(I32, I64) -> (F64)");
    let empty = FuncType { params: vec![], results: vec![] };
    assert_eq!(empty.render(), "() -> ()");
    let one = FuncType { params: vec![ValueType::F32], results: vec![] };
    assert_eq!(one.render(), "(F32) -> ()");
}

#[test]
fn limits_rendering() {
    assert_eq!(Limits { min: 5, max: None }.render(), "5..");
    assert_eq!(Limits { min: 5, max: Some(10) }.render(), "5..=10");
    assert_eq!(Limits { min: 0, max: None }.render(), "0..");
    assert_eq!(
        Limits { min: 1234567890, max: Some(u32::MAX) }.render(),
        "1234567890..=4294967295"
    );
}
