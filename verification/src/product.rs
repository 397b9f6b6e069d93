//! The product codec, written once for every pair of wire types: a
//! fixed-arity product encodes as the concatenation of its fields' encodings
//! in declaration order, with no separators, lengths, or padding; decoding
//! reads the fields strictly in the same order and fails on the first field
//! error, producing no partial value. Grammar structs map their fields
//! through this module instead of restating the composition.

use vstd::prelude::*;

use crate::error::DecodeError;
use crate::wire::Wire;

verus! {

/// The wire bytes of a two-field product: the first field's encoding, then
/// the second's.
pub open spec fn wire_pair<A: Wire, B: Wire>(a: A::V, b: B::V) -> Seq<u8> {
    A::wire_of(a) + B::wire_of(b)
}

/// What decoding a two-field product from the front of `s` yields: the first
/// field, then the second from the bytes after it, failing on the first
/// field's error.
pub open spec fn parse_pair<A: Wire, B: Wire>(s: Seq<u8>) -> Result<((A::V, B::V), nat), DecodeError> {
    match A::parse(s) {
        Ok(p) => match B::parse(s.skip(p.1 as int)) {
            Ok(q) => Ok(((p.0, q.0), p.1 + q.1)),
            Err(e) => Err(e),
        },
        Err(e) => Err(e),
    }
}

/// Append the product encoding of `a` then `b` to `out`.
pub fn encode_pair<A: Wire, B: Wire>(a: &A, b: &B, out: &mut Vec<u8>)
    requires
        A::wire_ok(a@),
        B::wire_ok(b@),
    ensures
        final(out)@ == old(out)@ + wire_pair::<A, B>(a@, b@),
{
    a.encode(out);
    b.encode(out);
    assert(out@ =~= old(out)@ + wire_pair::<A, B>(a@, b@));
}

/// Decode a two-field product from `input` at `pos`, exactly as `parse_pair`
/// describes on the bytes from `pos` on.
pub fn decode_pair<A: Wire, B: Wire>(input: &Vec<u8>, pos: usize) -> (r: Result<
    ((A, B), usize),
    DecodeError,
>)
    requires
        pos <= input@.len(),
    ensures
        (match r {
            Ok(p) => {
                &&& pos < p.1 <= input@.len()
                &&& parse_pair::<A, B>(input@.skip(pos as int)) == Ok::<
                    ((A::V, B::V), nat),
                    DecodeError,
                >(((p.0.0@, p.0.1@), (p.1 - pos) as nat))
            },
            Err(e) => parse_pair::<A, B>(input@.skip(pos as int)) == Err::<
                ((A::V, B::V), nat),
                DecodeError,
            >(e),
        }),
{
    let ghost s = input@.skip(pos as int);
    match A::decode(input, pos) {
        Ok((a, mid)) => {
            proof {
                assert(input@.skip(mid as int) =~= s.skip((mid - pos) as int));
            }
            match B::decode(input, mid) {
                Ok((b, end)) => Ok(((a, b), end)),
                Err(e) => Err(e),
            }
        },
        Err(e) => Err(e),
    }
}

/// Round trip of the product codec: parsing the encodings of `a` then `b`,
/// whatever follows them, yields both fields back.
pub proof fn lemma_pair_round_trip<A: Wire, B: Wire>(a: A::V, b: B::V, rest: Seq<u8>)
    requires
        A::wire_ok(a),
        B::wire_ok(b),
    ensures
        parse_pair::<A, B>(wire_pair::<A, B>(a, b) + rest) == Ok::<((A::V, B::V), nat), DecodeError>(
            ((a, b), wire_pair::<A, B>(a, b).len()),
        ),
{
    let wa = A::wire_of(a);
    let wb = B::wire_of(b);
    assert(wire_pair::<A, B>(a, b) + rest =~= wa + (wb + rest));
    A::lemma_round_trip(a, wb + rest);
    assert((wa + (wb + rest)).skip(wa.len() as int) =~= wb + rest);
    B::lemma_round_trip(b, rest);
}

/// Truncation of a product: a strict prefix cuts inside one of the two
/// fields' encodings, and either way parsing reports the stream ended too
/// early.
pub proof fn lemma_pair_prefix<A: Wire, B: Wire>(a: A::V, b: B::V, n: int)
    requires
        A::wire_ok(a),
        B::wire_ok(b),
        0 <= n < wire_pair::<A, B>(a, b).len(),
    ensures
        parse_pair::<A, B>(wire_pair::<A, B>(a, b).take(n)) == Err::<
            ((A::V, B::V), nat),
            DecodeError,
        >(DecodeError::UnexpectedEnd),
{
    let wa = A::wire_of(a);
    let wb = B::wire_of(b);
    if n < wa.len() {
        assert(wire_pair::<A, B>(a, b).take(n) =~= wa.take(n));
        A::lemma_parse_prefix(a, n);
    } else {
        let k = n - wa.len();
        assert(wire_pair::<A, B>(a, b).take(n) =~= wa + wb.take(k));
        A::lemma_round_trip(a, wb.take(k));
        assert((wa + wb.take(k)).skip(wa.len() as int) =~= wb.take(k));
        B::lemma_parse_prefix(b, k);
    }
}

} // verus!
