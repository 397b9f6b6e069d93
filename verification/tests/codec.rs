use wasmbin::error::DecodeError;
use wasmbin::types::{
    BlockType, ElemType, FuncType, GlobalType, Limits, MemType, TableType, ValueType,
};
use wasmbin::collection::{decode_seq, encode_seq};
use wasmbin::wire::{decode_exact, decode_varint_u32, encode_to_vec, encode_varint_u32};

fn round_trip<T>(v: &T) -> T
where
    T: wasmbin::wire::Wire + PartialEq + std::fmt::Debug,
{
    let bytes = encode_to_vec(v);
    decode_exact::<T>(&bytes).expect("encoding must decode")
}

#[test]
fn value_type_tags() {
    assert_eq!(encode_to_vec(&ValueType::I32), vec![0x7F]);
    assert_eq!(encode_to_vec(&ValueType::I64), vec![0x7E]);
    assert_eq!(encode_to_vec(&ValueType::F32), vec![0x7D]);
    assert_eq!(encode_to_vec(&ValueType::F64), vec![0x7C]);
}

#[test]
fn value_type_round_trip() {
    for v in [ValueType::I32, ValueType::I64, ValueType::F32, ValueType::F64] {
        assert_eq!(round_trip(&v), v);
    }
}

#[test]
fn value_type_rejects_unknown_tag() {
    assert_eq!(
        decode_exact::<ValueType>(&vec![0x00]),
        Err(DecodeError::InvalidDiscriminant(0x00))
    );
    assert_eq!(
        decode_exact::<ValueType>(&vec![0x7B]),
        Err(DecodeError::InvalidDiscriminant(0x7B))
    );
}

#[test]
fn block_type_dispatch() {
    assert_eq!(encode_to_vec(&BlockType::Empty), vec![0x40]);
    assert_eq!(encode_to_vec(&BlockType::Value(ValueType::I32)), vec![0x7F]);
    assert_eq!(decode_exact::<BlockType>(&vec![0x40]), Ok(BlockType::Empty));
    assert_eq!(
        decode_exact::<BlockType>(&vec![0x7F]),
        Ok(BlockType::Value(ValueType::I32))
    );
    assert_eq!(
        decode_exact::<BlockType>(&vec![0x00]),
        Err(DecodeError::InvalidDiscriminant(0x00))
    );
}

#[test]
fn limits_collapsing() {
    let no_max = Limits { min: 5, max: None };
    let with_max = Limits { min: 5, max: Some(10) };
    assert_eq!(encode_to_vec(&no_max), vec![0x00, 5]);
    assert_eq!(encode_to_vec(&with_max), vec![0x01, 5, 10]);
    assert_eq!(decode_exact::<Limits>(&vec![0x00, 5]), Ok(no_max));
    assert_eq!(decode_exact::<Limits>(&vec![0x01, 5, 10]), Ok(with_max));
}

#[test]
fn limits_rejects_unknown_flag() {
    assert_eq!(
        decode_exact::<Limits>(&vec![0x02, 5]),
        Err(DecodeError::InvalidDiscriminant(0x02))
    );
}

#[test]
fn limits_max_below_min_still_decodes() {
    assert_eq!(
        decode_exact::<Limits>(&vec![0x01, 10, 5]),
        Ok(Limits { min: 10, max: Some(5) })
    );
}

#[test]
fn limits_truncated_is_unexpected_end() {
    assert_eq!(decode_exact::<Limits>(&vec![]), Err(DecodeError::UnexpectedEnd));
    assert_eq!(decode_exact::<Limits>(&vec![0x00]), Err(DecodeError::UnexpectedEnd));
    assert_eq!(decode_exact::<Limits>(&vec![0x01, 5]), Err(DecodeError::UnexpectedEnd));
}

#[test]
fn func_type_empty_encoding() {
    let ft = FuncType { params: vec![], results: vec![] };
    assert_eq!(encode_to_vec(&ft), vec![0x60, 0x00, 0x00]);
    assert_eq!(decode_exact::<FuncType>(&vec![0x60, 0x00, 0x00]), Ok(ft));
}

#[test]
fn func_type_round_trip() {
    let ft = FuncType {
        params: vec![ValueType::I32, ValueType::I64],
        results: vec![ValueType::F64],
    };
    assert_eq!(encode_to_vec(&ft), vec![0x60, 2, 0x7F, 0x7E, 1, 0x7C]);
    assert_eq!(round_trip(&ft), ft);
}

#[test]
fn func_type_rejects_unknown_tag() {
    assert_eq!(
        decode_exact::<FuncType>(&vec![0x61, 0x00, 0x00]),
        Err(DecodeError::InvalidDiscriminant(0x61))
    );
}

#[test]
fn sequence_truncated_mid_element_is_unexpected_end() {
    let ft = FuncType {
        params: vec![ValueType::I32, ValueType::I64, ValueType::F32],
        results: vec![],
    };
    let bytes = encode_to_vec(&ft);
    assert_eq!(bytes, vec![0x60, 3, 0x7F, 0x7E, 0x7D, 0]);
    for cut in 0..bytes.len() {
        let truncated: Vec<u8> = bytes[..cut].to_vec();
        assert_eq!(
            decode_exact::<FuncType>(&truncated),
            Err(DecodeError::UnexpectedEnd),
            "cut at {cut}"
        );
    }
}

#[test]
fn elem_type_round_trip_and_rejection() {
    assert_eq!(encode_to_vec(&ElemType::FuncRef), vec![0x70]);
    assert_eq!(decode_exact::<ElemType>(&vec![0x70]), Ok(ElemType::FuncRef));
    assert_eq!(
        decode_exact::<ElemType>(&vec![0x71]),
        Err(DecodeError::InvalidDiscriminant(0x71))
    );
}

#[test]
fn mem_type_is_unwrapped_limits() {
    let mt = MemType { limits: Limits { min: 1, max: Some(2) } };
    assert_eq!(encode_to_vec(&mt), vec![0x01, 1, 2]);
    assert_eq!(round_trip(&mt), mt);
}

#[test]
fn table_type_round_trip() {
    let tt = TableType {
        elem_type: ElemType::FuncRef,
        limits: Limits { min: 1, max: Some(2) },
    };
    assert_eq!(encode_to_vec(&tt), vec![0x70, 0x01, 1, 2]);
    assert_eq!(round_trip(&tt), tt);
}

#[test]
fn global_type_round_trip() {
    let g = GlobalType { value_type: ValueType::I64, mutable: true };
    assert_eq!(encode_to_vec(&g), vec![0x7E, 0x01]);
    assert_eq!(round_trip(&g), g);
    let g2 = GlobalType { value_type: ValueType::F32, mutable: false };
    assert_eq!(encode_to_vec(&g2), vec![0x7D, 0x00]);
    assert_eq!(round_trip(&g2), g2);
}

#[test]
fn global_type_rejects_invalid_boolean() {
    assert_eq!(
        decode_exact::<GlobalType>(&vec![0x7F, 0x02]),
        Err(DecodeError::InvalidBoolean(0x02))
    );
}

#[test]
fn trailing_data_is_reported() {
    assert_eq!(
        decode_exact::<ValueType>(&vec![0x7F, 0x00]),
        Err(DecodeError::TrailingData)
    );
    assert_eq!(
        decode_exact::<Limits>(&vec![0x00, 5, 9]),
        Err(DecodeError::TrailingData)
    );
}

#[test]
fn sequence_element_error_propagates() {
    assert_eq!(
        decode_exact::<FuncType>(&vec![0x60, 1, 0x00]),
        Err(DecodeError::InvalidDiscriminant(0x00))
    );
}

#[test]
fn counted_sequence_codec() {
    let items = vec![
        Limits { min: 1, max: None },
        Limits { min: 2, max: Some(3) },
    ];
    let mut out: Vec<u8> = Vec::new();
    encode_seq(&items, &mut out);
    assert_eq!(out, vec![2, 0x00, 1, 0x01, 2, 3]);
    let (decoded, end): (Vec<Limits>, usize) = decode_seq(&out, 0).unwrap();
    assert_eq!(decoded, items);
    assert_eq!(end, out.len());
    let empty: Vec<Limits> = vec![];
    let mut out2: Vec<u8> = Vec::new();
    encode_seq(&empty, &mut out2);
    assert_eq!(out2, vec![0]);
}

#[test]
fn sequence_cut_inside_an_element() {
    // Two limits promised; the first is cut after its flag byte.
    let bytes: Vec<u8> = vec![2, 0x01, 5];
    assert_eq!(
        decode_seq::<Limits>(&bytes, 0),
        Err(DecodeError::UnexpectedEnd)
    );
}

#[test]
fn varint_minimal_encoding() {
    let mut out: Vec<u8> = Vec::new();
    encode_varint_u32(0, &mut out);
    assert_eq!(out, vec![0x00]);
    out.clear();
    encode_varint_u32(127, &mut out);
    assert_eq!(out, vec![0x7F]);
    out.clear();
    encode_varint_u32(300, &mut out);
    assert_eq!(out, vec![0xAC, 0x02]);
    out.clear();
    encode_varint_u32(u32::MAX, &mut out);
    assert_eq!(out, vec![0xFF, 0xFF, 0xFF, 0xFF, 0x0F]);
}

#[test]
fn varint_round_trip() {
    for v in [0u32, 1, 127, 128, 300, 16384, u32::MAX - 1, u32::MAX] {
        let bytes = encode_to_vec(&v);
        assert_eq!(decode_exact::<u32>(&bytes), Ok(v));
    }
}

#[test]
fn varint_out_of_range() {
    // The continuation bytes place the final payload at bit 32.
    assert_eq!(
        decode_exact::<u32>(&vec![0x80, 0x80, 0x80, 0x80, 0x10]),
        Err(DecodeError::VarintOutOfRange)
    );
}

#[test]
fn varint_unexpected_end_mid_sequence() {
    let input: Vec<u8> = vec![0xAC];
    assert_eq!(decode_varint_u32(&input, 0), Err(DecodeError::UnexpectedEnd));
}

#[test]
fn varint_redundant_continuation_still_in_domain() {
    // Redundant continuation bytes are not minimal, but the value stays in
    // the 32-bit domain, so decoding succeeds.
    assert_eq!(decode_exact::<u32>(&vec![0x80, 0x00]), Ok(0));
}
