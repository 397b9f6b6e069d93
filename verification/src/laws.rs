//! The library-wide laws, stated once and proved from the codec's
//! specifications: whole-buffer round trips, and the rejection of every
//! undeclared discriminant byte.
//!
//! Round trips with arbitrary trailing bytes, and the rejection of truncated
//! encodings, are proof obligations of the [`Wire`] trait itself and are
//! discharged by every implementation; the collection-level statements live in
//! [`crate::collection`].

use vstd::prelude::*;

use crate::codec::{
    parse_block_type, parse_elem_type, parse_func_type, parse_limits, parse_value_type,
};
use crate::error::DecodeError;
use crate::types::{BlockType, ElemType, FuncTypeV, Limits, ValueType};
use crate::wire::Wire;

verus! {

/// Round trip over a whole buffer: for every encodable value of any wire
/// type, parsing exactly its encoding yields the value back with nothing left
/// over.
pub proof fn lemma_round_trip_exact<T: Wire>(m: T::V)
    requires
        T::wire_ok(m),
    ensures
        T::parse(T::wire_of(m)) == Ok::<(T::V, nat), DecodeError>((m, T::wire_of(m).len())),
{
    T::lemma_round_trip(m, Seq::<u8>::empty());
    assert(T::wire_of(m) + Seq::<u8>::empty() =~= T::wire_of(m));
}

/// Rejection for value types: a leading byte outside the four declared tags
/// fails with `InvalidDiscriminant` carrying that byte — never a default.
pub proof fn lemma_value_type_rejects(b: u8, rest: Seq<u8>)
    requires
        b != 0x7F,
        b != 0x7E,
        b != 0x7D,
        b != 0x7C,
    ensures
        parse_value_type(seq![b] + rest) == Err::<(ValueType, nat), DecodeError>(
            DecodeError::InvalidDiscriminant(b),
        ),
{
    assert((seq![b] + rest)[0] == b);
}

/// Rejection for block types: a leading byte that is neither the reserved
/// empty tag nor a value-type tag fails with `InvalidDiscriminant`.
pub proof fn lemma_block_type_rejects(b: u8, rest: Seq<u8>)
    requires
        b != 0x40,
        b != 0x7F,
        b != 0x7E,
        b != 0x7D,
        b != 0x7C,
    ensures
        parse_block_type(seq![b] + rest) == Err::<(BlockType, nat), DecodeError>(
            DecodeError::InvalidDiscriminant(b),
        ),
{
    assert((seq![b] + rest)[0] == b);
}

/// Rejection for element types: any leading byte but the one declared tag
/// fails with `InvalidDiscriminant`.
pub proof fn lemma_elem_type_rejects(b: u8, rest: Seq<u8>)
    requires
        b != 0x70,
    ensures
        parse_elem_type(seq![b] + rest) == Err::<(ElemType, nat), DecodeError>(
            DecodeError::InvalidDiscriminant(b),
        ),
{
    assert((seq![b] + rest)[0] == b);
}

/// Rejection for limits: a flag byte other than the two declared variants of
/// the wire shape fails with `InvalidDiscriminant`.
pub proof fn lemma_limits_rejects(b: u8, rest: Seq<u8>)
    requires
        b != 0x00,
        b != 0x01,
    ensures
        parse_limits(seq![b] + rest) == Err::<(Limits, nat), DecodeError>(
            DecodeError::InvalidDiscriminant(b),
        ),
{
    assert((seq![b] + rest)[0] == b);
}

/// Rejection for function signatures: a leading byte other than the declared
/// tag fails with `InvalidDiscriminant`.
pub proof fn lemma_func_type_rejects(b: u8, rest: Seq<u8>)
    requires
        b != 0x60,
    ensures
        parse_func_type(seq![b] + rest) == Err::<(FuncTypeV, nat), DecodeError>(
            DecodeError::InvalidDiscriminant(b),
        ),
{
    assert((seq![b] + rest)[0] == b);
}

} // verus!
