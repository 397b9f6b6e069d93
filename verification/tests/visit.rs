use wasmbin::types::{
    BlockType, ElemType, FuncType, GlobalType, Limits, MemType, TableType, ValueType,
};
use wasmbin::visit::{
    leaves_to_vec, transform_block_type, transform_func_type, transform_global_type,
    transform_limits, transform_mem_type, transform_table_type, IdentityTransform, Leaf,
    RejectValueType, ReplaceNum,
};
use wasmbin::wire::encode_to_vec;

#[test]
fn table_type_leaves_in_order() {
    let tt = TableType {
        elem_type: ElemType::FuncRef,
        limits: Limits { min: 5, max: Some(10) },
    };
    assert_eq!(
        leaves_to_vec(&tt),
        vec![Leaf::Elem(ElemType::FuncRef), Leaf::Num(5), Leaf::Num(10)]
    );
    let open = TableType {
        elem_type: ElemType::FuncRef,
        limits: Limits { min: 5, max: None },
    };
    assert_eq!(
        leaves_to_vec(&open),
        vec![Leaf::Elem(ElemType::FuncRef), Leaf::Num(5)]
    );
}

#[test]
fn func_type_leaves_in_order() {
    let ft = FuncType {
        params: vec![ValueType::I32, ValueType::I64],
        results: vec![ValueType::F64],
    };
    assert_eq!(
        leaves_to_vec(&ft),
        vec![
            Leaf::Val(ValueType::I32),
            Leaf::Val(ValueType::I64),
            Leaf::Val(ValueType::F64)
        ]
    );
}

#[test]
fn other_leaves() {
    assert_eq!(leaves_to_vec(&ValueType::F32), vec![Leaf::Val(ValueType::F32)]);
    assert_eq!(leaves_to_vec(&BlockType::Empty), vec![]);
    assert_eq!(
        leaves_to_vec(&BlockType::Value(ValueType::I32)),
        vec![Leaf::Val(ValueType::I32)]
    );
    assert_eq!(
        leaves_to_vec(&MemType { limits: Limits { min: 0, max: None } }),
        vec![Leaf::Num(0)]
    );
    assert_eq!(
        leaves_to_vec(&GlobalType { value_type: ValueType::I32, mutable: true }),
        vec![Leaf::Val(ValueType::I32), Leaf::Flag(true)]
    );
}

#[test]
fn innermost_leaf_transformation_is_observable_after_reassembly() {
    let tt = TableType {
        elem_type: ElemType::FuncRef,
        limits: Limits { min: 5, max: Some(10) },
    };
    let bump = ReplaceNum { from: 10, to: 42 };
    let rebuilt = transform_table_type(&bump, &tt).expect("no leaf cancels");
    assert_eq!(
        rebuilt,
        TableType {
            elem_type: ElemType::FuncRef,
            limits: Limits { min: 5, max: Some(42) },
        }
    );
    assert_eq!(encode_to_vec(&rebuilt), vec![0x70, 0x01, 5, 42]);
}

#[test]
fn identity_transform_rebuilds_everything_unchanged() {
    let id = IdentityTransform;
    let ft = FuncType {
        params: vec![ValueType::I32, ValueType::I64],
        results: vec![ValueType::F64],
    };
    assert_eq!(transform_func_type(&id, &ft), Some(ft.clone()));
    let tt = TableType {
        elem_type: ElemType::FuncRef,
        limits: Limits { min: 1, max: None },
    };
    assert_eq!(transform_table_type(&id, &tt), Some(tt));
    let g = GlobalType { value_type: ValueType::F64, mutable: false };
    assert_eq!(transform_global_type(&id, &g), Some(g));
    let mt = MemType { limits: Limits { min: 7, max: Some(9) } };
    assert_eq!(transform_mem_type(&id, &mt), Some(mt));
    assert_eq!(
        transform_block_type(&id, &BlockType::Value(ValueType::F32)),
        Some(BlockType::Value(ValueType::F32))
    );
    assert_eq!(
        transform_limits(&id, &Limits { min: 3, max: Some(4) }),
        Some(Limits { min: 3, max: Some(4) })
    );
}

#[test]
fn cancellation_propagates_through_enclosing_calls() {
    let reject = RejectValueType { reject: ValueType::I64 };
    let with_i64 = FuncType {
        params: vec![ValueType::I32, ValueType::I64],
        results: vec![ValueType::F64],
    };
    assert_eq!(transform_func_type(&reject, &with_i64), None);
    let without_i64 = FuncType {
        params: vec![ValueType::I32],
        results: vec![ValueType::F64],
    };
    assert_eq!(transform_func_type(&reject, &without_i64), Some(without_i64.clone()));
    let g = GlobalType { value_type: ValueType::I64, mutable: true };
    assert_eq!(transform_global_type(&reject, &g), None);
    assert_eq!(transform_block_type(&reject, &BlockType::Value(ValueType::I64)), None);
}
