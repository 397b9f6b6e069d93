//! The wire format of each grammar type, and the proofs that the codec obeys
//! it.
//!
//! Sum types encode as one discriminant byte and the active variant's payload;
//! decoding a byte outside the declared set fails with `InvalidDiscriminant`
//! and never guesses. Product types encode as the concatenation of their
//! fields' encodings in declaration order and decode field by field, failing
//! on the first field error. `Limits` goes through its two-variant wire shape
//! [`LimitsRepr`] and a thin conversion in each direction.

use vstd::prelude::*;

use crate::collection::{
    decode_seq, elems_ok, encode_seq, lemma_seq_prefix, lemma_seq_round_trip, parse_seq, seq_view,
    wire_seq,
};
use crate::error::DecodeError;
use crate::product::{
    decode_pair, encode_pair, lemma_pair_prefix, lemma_pair_round_trip, parse_pair, wire_pair,
};
use crate::types::{BlockType, ElemType, FuncType, FuncTypeV, Limits, LimitsRepr, ValueType};
use crate::wire::Wire;

verus! {

/// The fixed tag byte of a value type.
pub open spec fn value_type_tag(v: ValueType) -> u8 {
    match v {
        ValueType::I32 => 0x7F,
        ValueType::I64 => 0x7E,
        ValueType::F32 => 0x7D,
        ValueType::F64 => 0x7C,
    }
}

/// A value type is one tag byte on the wire.
pub open spec fn wire_value_type(v: ValueType) -> Seq<u8> {
    seq![value_type_tag(v)]
}

/// What decoding a value type yields: exactly the four declared tag bytes are
/// accepted; any other byte is `InvalidDiscriminant`.
pub open spec fn parse_value_type(s: Seq<u8>) -> Result<(ValueType, nat), DecodeError> {
    if s.len() == 0 {
        Err(DecodeError::UnexpectedEnd)
    } else if s[0] == 0x7F {
        Ok((ValueType::I32, 1))
    } else if s[0] == 0x7E {
        Ok((ValueType::I64, 1))
    } else if s[0] == 0x7D {
        Ok((ValueType::F32, 1))
    } else if s[0] == 0x7C {
        Ok((ValueType::F64, 1))
    } else {
        Err(DecodeError::InvalidDiscriminant(s[0]))
    }
}

impl Wire for ValueType {
    open spec fn wire_ok(m: ValueType) -> bool {
        true
    }

    open spec fn wire_of(m: ValueType) -> Seq<u8> {
        wire_value_type(m)
    }

    open spec fn parse(s: Seq<u8>) -> Result<(ValueType, nat), DecodeError> {
        parse_value_type(s)
    }

    fn encode(&self, out: &mut Vec<u8>) {
        let tag: u8 = match self {
            ValueType::I32 => 0x7F,
            ValueType::I64 => 0x7E,
            ValueType::F32 => 0x7D,
            ValueType::F64 => 0x7C,
        };
        out.push(tag);
        assert(out@ =~= old(out)@ + wire_value_type(*self));
    }

    fn decode(input: &Vec<u8>, pos: usize) -> (r: Result<(ValueType, usize), DecodeError>) {
        let ghost s = input@.skip(pos as int);
        if pos == input.len() {
            assert(s.len() == 0);
            return Err(DecodeError::UnexpectedEnd);
        }
        let b: u8 = input[pos];
        assert(s[0] == b);
        if b == 0x7F {
            Ok((ValueType::I32, pos + 1))
        } else if b == 0x7E {
            Ok((ValueType::I64, pos + 1))
        } else if b == 0x7D {
            Ok((ValueType::F32, pos + 1))
        } else if b == 0x7C {
            Ok((ValueType::F64, pos + 1))
        } else {
            Err(DecodeError::InvalidDiscriminant(b))
        }
    }

    proof fn lemma_wire_nonempty(m: ValueType) {
    }

    proof fn lemma_round_trip(m: ValueType, rest: Seq<u8>) {
        assert((wire_value_type(m) + rest)[0] == value_type_tag(m));
    }

    proof fn lemma_parse_prefix(m: ValueType, n: int) {
        assert(wire_value_type(m).take(0) =~= Seq::<u8>::empty());
    }
}

/// A block type on the wire: the reserved empty tag, or a value type's own
/// tag byte selecting the value variant.
pub open spec fn wire_block_type(b: BlockType) -> Seq<u8> {
    match b {
        BlockType::Empty => seq![0x40u8],
        BlockType::Value(v) => wire_value_type(v),
    }
}

/// Two-level dispatch on one leading byte: the block type's own reserved tag
/// is tried first; any other byte is handed to the value-type decoder, whose
/// rejection is also this type's rejection.
pub open spec fn parse_block_type(s: Seq<u8>) -> Result<(BlockType, nat), DecodeError> {
    if s.len() == 0 {
        Err(DecodeError::UnexpectedEnd)
    } else if s[0] == 0x40 {
        Ok((BlockType::Empty, 1))
    } else {
        match parse_value_type(s) {
            Ok(p) => Ok((BlockType::Value(p.0), p.1)),
            Err(e) => Err(e),
        }
    }
}

impl Wire for BlockType {
    open spec fn wire_ok(m: BlockType) -> bool {
        true
    }

    open spec fn wire_of(m: BlockType) -> Seq<u8> {
        wire_block_type(m)
    }

    open spec fn parse(s: Seq<u8>) -> Result<(BlockType, nat), DecodeError> {
        parse_block_type(s)
    }

    fn encode(&self, out: &mut Vec<u8>) {
        match self {
            BlockType::Empty => {
                out.push(0x40);
                assert(out@ =~= old(out)@ + wire_block_type(*self));
            },
            BlockType::Value(v) => {
                v.encode(out);
            },
        }
    }

    fn decode(input: &Vec<u8>, pos: usize) -> (r: Result<(BlockType, usize), DecodeError>) {
        let ghost s = input@.skip(pos as int);
        if pos == input.len() {
            assert(s.len() == 0);
            return Err(DecodeError::UnexpectedEnd);
        }
        let b: u8 = input[pos];
        assert(s[0] == b);
        if b == 0x40 {
            Ok((BlockType::Empty, pos + 1))
        } else {
            match ValueType::decode(input, pos) {
                Ok((v, end)) => Ok((BlockType::Value(v), end)),
                Err(e) => Err(e),
            }
        }
    }

    proof fn lemma_wire_nonempty(m: BlockType) {
    }

    proof fn lemma_round_trip(m: BlockType, rest: Seq<u8>) {
        match m {
            BlockType::Empty => {
                assert((wire_block_type(m) + rest)[0] == 0x40);
            },
            BlockType::Value(v) => {
                assert((wire_block_type(m) + rest)[0] == value_type_tag(v));
                ValueType::lemma_round_trip(v, rest);
            },
        }
    }

    proof fn lemma_parse_prefix(m: BlockType, n: int) {
        assert(wire_block_type(m).take(0) =~= Seq::<u8>::empty());
    }
}

/// An element type is one tag byte on the wire.
pub open spec fn wire_elem_type(e: ElemType) -> Seq<u8> {
    seq![0x70u8]
}

/// What decoding an element type yields: only the declared tag byte is
/// accepted.
pub open spec fn parse_elem_type(s: Seq<u8>) -> Result<(ElemType, nat), DecodeError> {
    if s.len() == 0 {
        Err(DecodeError::UnexpectedEnd)
    } else if s[0] == 0x70 {
        Ok((ElemType::FuncRef, 1))
    } else {
        Err(DecodeError::InvalidDiscriminant(s[0]))
    }
}

impl Wire for ElemType {
    open spec fn wire_ok(m: ElemType) -> bool {
        true
    }

    open spec fn wire_of(m: ElemType) -> Seq<u8> {
        wire_elem_type(m)
    }

    open spec fn parse(s: Seq<u8>) -> Result<(ElemType, nat), DecodeError> {
        parse_elem_type(s)
    }

    fn encode(&self, out: &mut Vec<u8>) {
        out.push(0x70);
        assert(out@ =~= old(out)@ + wire_elem_type(*self));
    }

    fn decode(input: &Vec<u8>, pos: usize) -> (r: Result<(ElemType, usize), DecodeError>) {
        let ghost s = input@.skip(pos as int);
        if pos == input.len() {
            assert(s.len() == 0);
            return Err(DecodeError::UnexpectedEnd);
        }
        let b: u8 = input[pos];
        assert(s[0] == b);
        if b == 0x70 {
            Ok((ElemType::FuncRef, pos + 1))
        } else {
            Err(DecodeError::InvalidDiscriminant(b))
        }
    }

    proof fn lemma_wire_nonempty(m: ElemType) {
    }

    proof fn lemma_round_trip(m: ElemType, rest: Seq<u8>) {
        assert((wire_elem_type(m) + rest)[0] == 0x70);
    }

    proof fn lemma_parse_prefix(m: ElemType, n: int) {
        assert(wire_elem_type(m).take(0) =~= Seq::<u8>::empty());
    }
}

/// The wire bytes of the limits wire shape: a flag byte naming the variant,
/// then that variant's fields as varints in declaration order.
pub open spec fn wire_limits_repr(r: LimitsRepr) -> Seq<u8> {
    match r {
        LimitsRepr::Min { min } => seq![0x00u8] + crate::wire::wire_varint_u32(min as nat),
        LimitsRepr::MinMax { min, max } => seq![0x01u8] + crate::wire::wire_varint_u32(min as nat)
            + crate::wire::wire_varint_u32(max as nat),
    }
}

/// What decoding the limits wire shape yields: flag byte 0 brings one varint,
/// flag byte 1 brings two; any other flag is `InvalidDiscriminant`.
pub open spec fn parse_limits_repr(s: Seq<u8>) -> Result<(LimitsRepr, nat), DecodeError> {
    if s.len() == 0 {
        Err(DecodeError::UnexpectedEnd)
    } else if s[0] == 0x00 {
        match crate::wire::parse_varint_u32(s.skip(1)) {
            Ok(p) => Ok((LimitsRepr::Min { min: p.0 }, 1 + p.1)),
            Err(e) => Err(e),
        }
    } else if s[0] == 0x01 {
        match crate::wire::parse_varint_u32(s.skip(1)) {
            Ok(p) => match crate::wire::parse_varint_u32(s.skip(1).skip(p.1 as int)) {
                Ok(q) => Ok((LimitsRepr::MinMax { min: p.0, max: q.0 }, 1 + p.1 + q.1)),
                Err(e) => Err(e),
            },
            Err(e) => Err(e),
        }
    } else {
        Err(DecodeError::InvalidDiscriminant(s[0]))
    }
}

impl Wire for LimitsRepr {
    open spec fn wire_ok(m: LimitsRepr) -> bool {
        true
    }

    open spec fn wire_of(m: LimitsRepr) -> Seq<u8> {
        wire_limits_repr(m)
    }

    open spec fn parse(s: Seq<u8>) -> Result<(LimitsRepr, nat), DecodeError> {
        parse_limits_repr(s)
    }

    fn encode(&self, out: &mut Vec<u8>) {
        match self {
            LimitsRepr::Min { min } => {
                out.push(0x00);
                crate::wire::encode_varint_u32(*min, out);
                assert(out@ =~= old(out)@ + wire_limits_repr(*self));
            },
            LimitsRepr::MinMax { min, max } => {
                out.push(0x01);
                crate::wire::encode_varint_u32(*min, out);
                crate::wire::encode_varint_u32(*max, out);
                assert(out@ =~= old(out)@ + wire_limits_repr(*self));
            },
        }
    }

    fn decode(input: &Vec<u8>, pos: usize) -> (r: Result<(LimitsRepr, usize), DecodeError>) {
        let ghost s = input@.skip(pos as int);
        if pos == input.len() {
            assert(s.len() == 0);
            return Err(DecodeError::UnexpectedEnd);
        }
        let b: u8 = input[pos];
        assert(s[0] == b);
        if b == 0x00 {
            proof {
                assert(input@.skip(pos as int + 1) =~= s.skip(1));
            }
            match crate::wire::decode_varint_u32(input, pos + 1) {
                Ok((min, end)) => Ok((LimitsRepr::Min { min }, end)),
                Err(e) => Err(e),
            }
        } else if b == 0x01 {
            proof {
                assert(input@.skip(pos as int + 1) =~= s.skip(1));
            }
            match crate::wire::decode_varint_u32(input, pos + 1) {
                Ok((min, mid)) => {
                    proof {
                        assert(input@.skip(mid as int) =~= s.skip(1).skip(
                            (mid - (pos + 1)) as int,
                        ));
                    }
                    match crate::wire::decode_varint_u32(input, mid) {
                        Ok((max, end)) => Ok((LimitsRepr::MinMax { min, max }, end)),
                        Err(e) => Err(e),
                    }
                },
                Err(e) => Err(e),
            }
        } else {
            Err(DecodeError::InvalidDiscriminant(b))
        }
    }

    proof fn lemma_wire_nonempty(m: LimitsRepr) {
    }

    proof fn lemma_round_trip(m: LimitsRepr, rest: Seq<u8>) {
        match m {
            LimitsRepr::Min { min } => {
                let v = crate::wire::wire_varint_u32(min as nat);
                assert(wire_limits_repr(m) + rest =~= seq![0x00u8] + (v + rest));
                assert((seq![0x00u8] + (v + rest))[0] == 0x00u8);
                assert((seq![0x00u8] + (v + rest)).skip(1) =~= v + rest);
                crate::wire::lemma_varint_u32_round_trip(min, rest);
            },
            LimitsRepr::MinMax { min, max } => {
                let v1 = crate::wire::wire_varint_u32(min as nat);
                let v2 = crate::wire::wire_varint_u32(max as nat);
                assert(wire_limits_repr(m) + rest =~= seq![0x01u8] + (v1 + (v2 + rest)));
                assert((seq![0x01u8] + (v1 + (v2 + rest)))[0] == 0x01u8);
                assert((seq![0x01u8] + (v1 + (v2 + rest))).skip(1) =~= v1 + (v2 + rest));
                crate::wire::lemma_varint_u32_round_trip(min, v2 + rest);
                assert((v1 + (v2 + rest)).skip(v1.len() as int) =~= v2 + rest);
                crate::wire::lemma_varint_u32_round_trip(max, rest);
            },
        }
    }

    proof fn lemma_parse_prefix(m: LimitsRepr, n: int) {
        let w = wire_limits_repr(m);
        if n == 0 {
            assert(w.take(0) =~= Seq::<u8>::empty());
        } else {
            match m {
                LimitsRepr::Min { min } => {
                    let v = crate::wire::wire_varint_u32(min as nat);
                    assert(w.take(n) =~= seq![0x00u8] + v.take(n - 1));
                    assert(w.take(n)[0] == 0x00u8);
                    assert(w.take(n).skip(1) =~= v.take(n - 1));
                    crate::wire::lemma_varint_u32_prefix(min as nat, n - 1);
                },
                LimitsRepr::MinMax { min, max } => {
                    let v1 = crate::wire::wire_varint_u32(min as nat);
                    let v2 = crate::wire::wire_varint_u32(max as nat);
                    assert(w.take(n)[0] == 0x01u8);
                    if n - 1 < v1.len() {
                        assert(w.take(n) =~= seq![0x01u8] + v1.take(n - 1));
                        assert(w.take(n).skip(1) =~= v1.take(n - 1));
                        crate::wire::lemma_varint_u32_prefix(min as nat, n - 1);
                    } else {
                        let k = n - 1 - v1.len();
                        assert(w.take(n) =~= seq![0x01u8] + (v1 + v2.take(k)));
                        assert(w.take(n).skip(1) =~= v1 + v2.take(k));
                        crate::wire::lemma_varint_u32_round_trip(min, v2.take(k));
                        assert((v1 + v2.take(k)).skip(v1.len() as int) =~= v2.take(k));
                        crate::wire::lemma_varint_u32_prefix(max as nat, k);
                    }
                },
            }
        }
    }
}

/// The logical limits mapped to their wire shape: the variant is selected by
/// whether the maximum is present.
pub open spec fn limits_to_repr(l: Limits) -> LimitsRepr {
    match l.max {
        None => LimitsRepr::Min { min: l.min },
        Some(max) => LimitsRepr::MinMax { min: l.min, max },
    }
}

/// The wire shape mapped back to the logical limits.
pub open spec fn repr_to_limits(r: LimitsRepr) -> Limits {
    match r {
        LimitsRepr::Min { min } => Limits { min, max: None },
        LimitsRepr::MinMax { min, max } => Limits { min, max: Some(max) },
    }
}

/// Limits on the wire: exactly their wire shape's bytes.
pub open spec fn wire_limits(l: Limits) -> Seq<u8> {
    wire_limits_repr(limits_to_repr(l))
}

/// What decoding limits yields: the wire shape's result, mapped back to the
/// logical shape.
pub open spec fn parse_limits(s: Seq<u8>) -> Result<(Limits, nat), DecodeError> {
    match parse_limits_repr(s) {
        Ok(p) => Ok((repr_to_limits(p.0), p.1)),
        Err(e) => Err(e),
    }
}

impl Wire for Limits {
    open spec fn wire_ok(m: Limits) -> bool {
        true
    }

    open spec fn wire_of(m: Limits) -> Seq<u8> {
        wire_limits(m)
    }

    open spec fn parse(s: Seq<u8>) -> Result<(Limits, nat), DecodeError> {
        parse_limits(s)
    }

    fn encode(&self, out: &mut Vec<u8>) {
        let repr: LimitsRepr = match self.max {
            Some(max) => LimitsRepr::MinMax { min: self.min, max },
            None => LimitsRepr::Min { min: self.min },
        };
        repr.encode(out);
    }

    fn decode(input: &Vec<u8>, pos: usize) -> (r: Result<(Limits, usize), DecodeError>) {
        match LimitsRepr::decode(input, pos) {
            Ok((repr, end)) => {
                let l: Limits = match repr {
                    LimitsRepr::Min { min } => Limits { min, max: None },
                    LimitsRepr::MinMax { min, max } => Limits { min, max: Some(max) },
                };
                Ok((l, end))
            },
            Err(e) => Err(e),
        }
    }

    proof fn lemma_wire_nonempty(m: Limits) {
        LimitsRepr::lemma_wire_nonempty(limits_to_repr(m));
    }

    proof fn lemma_round_trip(m: Limits, rest: Seq<u8>) {
        LimitsRepr::lemma_round_trip(limits_to_repr(m), rest);
    }

    proof fn lemma_parse_prefix(m: Limits, n: int) {
        LimitsRepr::lemma_parse_prefix(limits_to_repr(m), n);
    }
}

/// A memory descriptor is its limits, unwrapped.
pub open spec fn wire_mem_type(m: crate::types::MemType) -> Seq<u8> {
    wire_limits(m.limits)
}

/// What decoding a memory descriptor yields: its limits.
pub open spec fn parse_mem_type(s: Seq<u8>) -> Result<(crate::types::MemType, nat), DecodeError> {
    match parse_limits(s) {
        Ok(p) => Ok((crate::types::MemType { limits: p.0 }, p.1)),
        Err(e) => Err(e),
    }
}

impl Wire for crate::types::MemType {
    open spec fn wire_ok(m: crate::types::MemType) -> bool {
        true
    }

    open spec fn wire_of(m: crate::types::MemType) -> Seq<u8> {
        wire_mem_type(m)
    }

    open spec fn parse(s: Seq<u8>) -> Result<(crate::types::MemType, nat), DecodeError> {
        parse_mem_type(s)
    }

    fn encode(&self, out: &mut Vec<u8>) {
        self.limits.encode(out);
    }

    fn decode(input: &Vec<u8>, pos: usize) -> (r: Result<
        (crate::types::MemType, usize),
        DecodeError,
    >) {
        match Limits::decode(input, pos) {
            Ok((limits, end)) => Ok((crate::types::MemType { limits }, end)),
            Err(e) => Err(e),
        }
    }

    proof fn lemma_wire_nonempty(m: crate::types::MemType) {
        Limits::lemma_wire_nonempty(m.limits);
    }

    proof fn lemma_round_trip(m: crate::types::MemType, rest: Seq<u8>) {
        Limits::lemma_round_trip(m.limits, rest);
    }

    proof fn lemma_parse_prefix(m: crate::types::MemType, n: int) {
        Limits::lemma_parse_prefix(m.limits, n);
    }
}

/// A global descriptor on the wire: the product of its value type and its
/// mutability flag, in field order.
pub open spec fn wire_global_type(g: crate::types::GlobalType) -> Seq<u8> {
    wire_pair::<ValueType, bool>(g.value_type, g.mutable)
}

/// What decoding a global descriptor yields: the field product, aggregated
/// into the type.
pub open spec fn parse_global_type(s: Seq<u8>) -> Result<
    (crate::types::GlobalType, nat),
    DecodeError,
> {
    match parse_pair::<ValueType, bool>(s) {
        Ok(p) => Ok((crate::types::GlobalType { value_type: p.0.0, mutable: p.0.1 }, p.1)),
        Err(e) => Err(e),
    }
}

impl Wire for crate::types::GlobalType {
    open spec fn wire_ok(m: crate::types::GlobalType) -> bool {
        true
    }

    open spec fn wire_of(m: crate::types::GlobalType) -> Seq<u8> {
        wire_global_type(m)
    }

    open spec fn parse(s: Seq<u8>) -> Result<(crate::types::GlobalType, nat), DecodeError> {
        parse_global_type(s)
    }

    fn encode(&self, out: &mut Vec<u8>) {
        encode_pair::<ValueType, bool>(&self.value_type, &self.mutable, out);
    }

    fn decode(input: &Vec<u8>, pos: usize) -> (r: Result<
        (crate::types::GlobalType, usize),
        DecodeError,
    >) {
        match decode_pair::<ValueType, bool>(input, pos) {
            Ok(((value_type, mutable), end)) => Ok((
                crate::types::GlobalType { value_type, mutable },
                end,
            )),
            Err(e) => Err(e),
        }
    }

    proof fn lemma_wire_nonempty(m: crate::types::GlobalType) {
        ValueType::lemma_wire_nonempty(m.value_type);
    }

    proof fn lemma_round_trip(m: crate::types::GlobalType, rest: Seq<u8>) {
        lemma_pair_round_trip::<ValueType, bool>(m.value_type, m.mutable, rest);
    }

    proof fn lemma_parse_prefix(m: crate::types::GlobalType, n: int) {
        lemma_pair_prefix::<ValueType, bool>(m.value_type, m.mutable, n);
    }
}

/// A table descriptor on the wire: the product of its element type and its
/// limits, in field order.
pub open spec fn wire_table_type(t: crate::types::TableType) -> Seq<u8> {
    wire_pair::<ElemType, Limits>(t.elem_type, t.limits)
}

/// What decoding a table descriptor yields: the field product, aggregated
/// into the type.
pub open spec fn parse_table_type(s: Seq<u8>) -> Result<
    (crate::types::TableType, nat),
    DecodeError,
> {
    match parse_pair::<ElemType, Limits>(s) {
        Ok(p) => Ok((crate::types::TableType { elem_type: p.0.0, limits: p.0.1 }, p.1)),
        Err(e) => Err(e),
    }
}

impl Wire for crate::types::TableType {
    open spec fn wire_ok(m: crate::types::TableType) -> bool {
        true
    }

    open spec fn wire_of(m: crate::types::TableType) -> Seq<u8> {
        wire_table_type(m)
    }

    open spec fn parse(s: Seq<u8>) -> Result<(crate::types::TableType, nat), DecodeError> {
        parse_table_type(s)
    }

    fn encode(&self, out: &mut Vec<u8>) {
        encode_pair::<ElemType, Limits>(&self.elem_type, &self.limits, out);
    }

    fn decode(input: &Vec<u8>, pos: usize) -> (r: Result<
        (crate::types::TableType, usize),
        DecodeError,
    >) {
        match decode_pair::<ElemType, Limits>(input, pos) {
            Ok(((elem_type, limits), end)) => Ok((
                crate::types::TableType { elem_type, limits },
                end,
            )),
            Err(e) => Err(e),
        }
    }

    proof fn lemma_wire_nonempty(m: crate::types::TableType) {
        ElemType::lemma_wire_nonempty(m.elem_type);
    }

    proof fn lemma_round_trip(m: crate::types::TableType, rest: Seq<u8>) {
        lemma_pair_round_trip::<ElemType, Limits>(m.elem_type, m.limits, rest);
    }

    proof fn lemma_parse_prefix(m: crate::types::TableType, n: int) {
        lemma_pair_prefix::<ElemType, Limits>(m.elem_type, m.limits, n);
    }
}

/// A function signature on the wire: its own tag byte, then the parameter
/// types as a counted sequence, then the result types as a counted sequence.
pub open spec fn wire_func_type(m: FuncTypeV) -> Seq<u8> {
    seq![0x60u8] + wire_seq::<ValueType>(m.params) + wire_seq::<ValueType>(m.results)
}

/// Whether a function signature fits the wire format on this machine: each
/// sequence count must fit the 32-bit domain.
pub open spec fn func_type_ok(m: FuncTypeV) -> bool {
    m.params.len() <= u32::MAX && m.results.len() <= u32::MAX
}

/// What decoding a function signature yields: the tag byte is required first;
/// then the two counted sequences in order, failing on the first error.
pub open spec fn parse_func_type(s: Seq<u8>) -> Result<(FuncTypeV, nat), DecodeError> {
    if s.len() == 0 {
        Err(DecodeError::UnexpectedEnd)
    } else if s[0] != 0x60 {
        Err(DecodeError::InvalidDiscriminant(s[0]))
    } else {
        match parse_seq::<ValueType>(s.skip(1)) {
            Ok(p) => match parse_seq::<ValueType>(s.skip(1).skip(p.1 as int)) {
                Ok(q) => Ok((FuncTypeV { params: p.0, results: q.0 }, 1 + p.1 + q.1)),
                Err(e) => Err(e),
            },
            Err(e) => Err(e),
        }
    }
}

impl Wire for FuncType {
    open spec fn wire_ok(m: FuncTypeV) -> bool {
        func_type_ok(m)
    }

    open spec fn wire_of(m: FuncTypeV) -> Seq<u8> {
        wire_func_type(m)
    }

    open spec fn parse(s: Seq<u8>) -> Result<(FuncTypeV, nat), DecodeError> {
        parse_func_type(s)
    }

    fn encode(&self, out: &mut Vec<u8>) {
        proof {
            assert(seq_view(self.params@) =~= self.params@);
            assert(seq_view(self.results@) =~= self.results@);
        }
        out.push(0x60);
        encode_seq::<ValueType>(&self.params, out);
        encode_seq::<ValueType>(&self.results, out);
        assert(out@ =~= old(out)@ + wire_func_type(self@));
    }

    fn decode(input: &Vec<u8>, pos: usize) -> (r: Result<(FuncType, usize), DecodeError>) {
        let ghost s = input@.skip(pos as int);
        if pos == input.len() {
            assert(s.len() == 0);
            return Err(DecodeError::UnexpectedEnd);
        }
        let b: u8 = input[pos];
        assert(s[0] == b);
        if b != 0x60 {
            return Err(DecodeError::InvalidDiscriminant(b));
        }
        proof {
            assert(input@.skip(pos as int + 1) =~= s.skip(1));
        }
        match decode_seq::<ValueType>(input, pos + 1) {
            Ok((params, mid)) => {
                proof {
                    assert(input@.skip(mid as int) =~= s.skip(1).skip((mid - (pos + 1)) as int));
                    assert(seq_view(params@) =~= params@);
                }
                match decode_seq::<ValueType>(input, mid) {
                    Ok((results, end)) => {
                        proof {
                            assert(seq_view(results@) =~= results@);
                        }
                        Ok((FuncType { params, results }, end))
                    },
                    Err(e) => Err(e),
                }
            },
            Err(e) => Err(e),
        }
    }

    proof fn lemma_wire_nonempty(m: FuncTypeV) {
    }

    proof fn lemma_round_trip(m: FuncTypeV, rest: Seq<u8>) {
        let c1 = wire_seq::<ValueType>(m.params);
        let c2 = wire_seq::<ValueType>(m.results);
        let w = wire_func_type(m);
        assert(w + rest =~= seq![0x60u8] + (c1 + (c2 + rest)));
        assert((w + rest)[0] == 0x60u8);
        assert((w + rest).skip(1) =~= c1 + (c2 + rest));
        assert(elems_ok::<ValueType>(m.params));
        assert(elems_ok::<ValueType>(m.results));
        lemma_seq_round_trip::<ValueType>(m.params, c2 + rest);
        assert((c1 + (c2 + rest)).skip(c1.len() as int) =~= c2 + rest);
        lemma_seq_round_trip::<ValueType>(m.results, rest);
        assert(FuncTypeV { params: m.params, results: m.results } =~= m);
    }

    proof fn lemma_parse_prefix(m: FuncTypeV, n: int) {
        let c1 = wire_seq::<ValueType>(m.params);
        let c2 = wire_seq::<ValueType>(m.results);
        let w = wire_func_type(m);
        assert(elems_ok::<ValueType>(m.params));
        assert(elems_ok::<ValueType>(m.results));
        if n == 0 {
            assert(w.take(0) =~= Seq::<u8>::empty());
        } else {
            let k = n - 1;
            assert(w.take(n)[0] == 0x60u8);
            if k < c1.len() {
                assert(w.take(n) =~= seq![0x60u8] + c1.take(k));
                assert(w.take(n).skip(1) =~= c1.take(k));
                lemma_seq_prefix::<ValueType>(m.params, k);
            } else {
                let k2 = k - c1.len();
                assert(w.take(n) =~= seq![0x60u8] + (c1 + c2.take(k2)));
                assert(w.take(n).skip(1) =~= c1 + c2.take(k2));
                lemma_seq_round_trip::<ValueType>(m.params, c2.take(k2));
                assert((c1 + c2.take(k2)).skip(c1.len() as int) =~= c2.take(k2));
                lemma_seq_prefix::<ValueType>(m.results, k2);
            }
        }
    }
}

} // verus!
