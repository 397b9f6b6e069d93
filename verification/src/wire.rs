//! The wire capability: every grammar type couples its executable encoder and
//! decoder to a mathematical description of its wire format, together with the
//! proofs that encoding round-trips and that truncated input is rejected.
//!
//! This module defines the [`Wire`] trait, the primitive codec for
//! variable-length unsigned 32-bit integers (base-128 with continuation bits,
//! minimal-length on the encoding side) and for single-byte booleans, and the
//! whole-buffer entry points [`encode_to_vec`] and [`decode_exact`].

use vstd::prelude::*;

use crate::error::DecodeError;

verus! {

/// The wire bytes of `n` as a base-128 varint with continuation bits, in
/// minimal-length form: the low seven bits come first, and every byte but the
/// last carries the continuation bit.
pub open spec fn wire_varint_u32(n: nat) -> Seq<u8>
    decreases n,
{
    if n < 128 {
        seq![n as u8]
    } else {
        seq![(128 + n % 128) as u8] + wire_varint_u32(n / 128)
    }
}

/// What decoding a varint from the front of `s` yields: the value and the
/// number of bytes consumed, or the error. Continuation-tagged bytes are read
/// until a byte with the continuation bit clear; a stream that ends first is
/// `UnexpectedEnd`, and a value outside the 32-bit domain is
/// `VarintOutOfRange`.
pub open spec fn parse_varint_u32(s: Seq<u8>) -> Result<(u32, nat), DecodeError>
    decreases s.len(),
{
    if s.len() == 0 {
        Err(DecodeError::UnexpectedEnd)
    } else if s[0] < 128 {
        Ok((s[0] as u32, 1))
    } else {
        match parse_varint_u32(s.skip(1)) {
            Ok(hi) => {
                if (s[0] - 128) + 128 * (hi.0 as int) <= u32::MAX {
                    Ok((((s[0] - 128) + 128 * (hi.0 as int)) as u32, hi.1 + 1))
                } else {
                    Err(DecodeError::VarintOutOfRange)
                }
            },
            Err(e) => Err(e),
        }
    }
}

/// A type with a wire format. `wire_of` and `parse` describe the format over
/// the type's mathematical view; `encode` and `decode` are the executable
/// codec, tied exactly to that description; the three lemmas are proof
/// obligations every implementation discharges: encodings are nonempty,
/// decoding an encoding returns the encoded value whatever bytes follow it,
/// and a strict prefix of an encoding fails with `UnexpectedEnd`.
pub trait Wire: View + Sized {
    /// Whether the value can be encoded at all on this machine: every
    /// sequence it contains is short enough for its count to fit in 32 bits.
    spec fn wire_ok(m: Self::V) -> bool;

    /// The wire bytes of a value.
    spec fn wire_of(m: Self::V) -> Seq<u8>;

    /// What decoding from the front of `s` yields: the value and the number
    /// of bytes consumed, or the precise error.
    spec fn parse(s: Seq<u8>) -> Result<(Self::V, nat), DecodeError>;

    /// Append the encoding of `self` to `out`.
    fn encode(&self, out: &mut Vec<u8>)
        requires
            Self::wire_ok(self@),
        ensures
            final(out)@ == old(out)@ + Self::wire_of(self@),
    ;

    /// Decode one value from `input` starting at `pos`; on success the
    /// returned position is just past the bytes consumed.
    fn decode(input: &Vec<u8>, pos: usize) -> (r: Result<(Self, usize), DecodeError>)
        requires
            pos <= input@.len(),
        ensures
            (match r {
                Ok(p) => {
                    &&& pos < p.1 <= input@.len()
                    &&& Self::parse(input@.skip(pos as int)) == Ok::<(Self::V, nat), DecodeError>(
                        (p.0@, (p.1 - pos) as nat),
                    )
                },
                Err(e) => Self::parse(input@.skip(pos as int)) == Err::<(Self::V, nat), DecodeError>(e),
            }),
    ;

    /// No value encodes to the empty byte string.
    proof fn lemma_wire_nonempty(m: Self::V)
        requires
            Self::wire_ok(m),
        ensures
            Self::wire_of(m).len() >= 1,
    ;

    /// Round trip: decoding starts on the encoding of `m`, whatever follows
    /// it, yields `m` back and consumes exactly the encoding.
    proof fn lemma_round_trip(m: Self::V, rest: Seq<u8>)
        requires
            Self::wire_ok(m),
        ensures
            Self::parse(Self::wire_of(m) + rest) == Ok::<(Self::V, nat), DecodeError>(
                (m, Self::wire_of(m).len()),
            ),
    ;

    /// Truncation: a strict prefix of an encoding, however short, is rejected
    /// as ending too early — never read as some other value.
    proof fn lemma_parse_prefix(m: Self::V, n: int)
        requires
            Self::wire_ok(m),
            0 <= n < Self::wire_of(m).len(),
        ensures
            Self::parse(Self::wire_of(m).take(n)) == Err::<(Self::V, nat), DecodeError>(
                DecodeError::UnexpectedEnd,
            ),
    ;
}

/// Append the minimal varint encoding of `n` to `out`.
pub fn encode_varint_u32(n: u32, out: &mut Vec<u8>)
    ensures
        final(out)@ == old(out)@ + wire_varint_u32(n as nat),
    decreases n,
{
    if n < 128 {
        out.push(n as u8);
        assert(out@ =~= old(out)@ + wire_varint_u32(n as nat));
    } else {
        let b: u8 = ((n % 128) as u8) + 128;
        out.push(b);
        encode_varint_u32(n / 128, out);
        assert(out@ =~= old(out)@ + wire_varint_u32(n as nat));
    }
}

/// Decode a varint from `input` at `pos`, exactly as `parse_varint_u32`
/// describes on the bytes from `pos` on.
pub fn decode_varint_u32(input: &Vec<u8>, pos: usize) -> (r: Result<(u32, usize), DecodeError>)
    requires
        pos <= input@.len(),
    ensures
        (match r {
            Ok(p) => {
                &&& pos < p.1 <= input@.len()
                &&& parse_varint_u32(input@.skip(pos as int)) == Ok::<(u32, nat), DecodeError>(
                    (p.0, (p.1 - pos) as nat),
                )
            },
            Err(e) => parse_varint_u32(input@.skip(pos as int)) == Err::<(u32, nat), DecodeError>(e),
        }),
    decreases input@.len() - pos,
{
    let ghost s = input@.skip(pos as int);
    if pos == input.len() {
        assert(s.len() == 0);
        return Err(DecodeError::UnexpectedEnd);
    }
    let b: u8 = input[pos];
    assert(s[0] == b);
    if b < 128 {
        Ok((b as u32, pos + 1))
    } else {
        proof {
            assert(input@.skip(pos as int + 1) =~= s.skip(1));
        }
        match decode_varint_u32(input, pos + 1) {
            Ok((hi, end)) => {
                let lo: u8 = b - 128;
                let total: u64 = (lo as u64) + 128u64 * (hi as u64);
                if total <= u32::MAX as u64 {
                    Ok((total as u32, end))
                } else {
                    Err(DecodeError::VarintOutOfRange)
                }
            },
            Err(e) => Err(e),
        }
    }
}

/// Round trip of the varint codec: parsing the encoding of `v`, whatever
/// follows it, yields `v` and consumes exactly the encoding.
pub proof fn lemma_varint_u32_round_trip(v: u32, rest: Seq<u8>)
    ensures
        parse_varint_u32(wire_varint_u32(v as nat) + rest) == Ok::<(u32, nat), DecodeError>(
            (v, wire_varint_u32(v as nat).len()),
        ),
    decreases v,
{
    let w = wire_varint_u32(v as nat);
    if v < 128 {
        assert((w + rest)[0] == v as u8);
    } else {
        let b: u8 = (128 + (v as nat) % 128) as u8;
        let w2 = wire_varint_u32((v as nat) / 128);
        assert(w == seq![b] + w2);
        assert((w + rest)[0] == b);
        assert((w + rest).skip(1) =~= w2 + rest);
        assert((v / 128) as nat == (v as nat) / 128);
        lemma_varint_u32_round_trip(v / 128, rest);
        assert((b - 128) + 128 * ((v / 128) as int) == v as int);
    }
}

/// Truncation of a varint: any strict prefix of an encoding still carries a
/// continuation bit on its last byte (or is empty), so parsing it fails with
/// `UnexpectedEnd`.
pub proof fn lemma_varint_u32_prefix(v: nat, n: int)
    requires
        0 <= n < wire_varint_u32(v).len(),
    ensures
        parse_varint_u32(wire_varint_u32(v).take(n)) == Err::<(u32, nat), DecodeError>(
            DecodeError::UnexpectedEnd,
        ),
    decreases v,
{
    let w = wire_varint_u32(v);
    if n == 0 {
        assert(w.take(0) =~= Seq::<u8>::empty());
    } else {
        assert(v >= 128) by {
            if v < 128 {
                assert(w.len() == 1);
            }
        }
        let b: u8 = (128 + v % 128) as u8;
        let w2 = wire_varint_u32(v / 128);
        assert(w == seq![b] + w2);
        assert(w.take(n) =~= seq![b] + w2.take(n - 1));
        assert(w.take(n)[0] == b);
        assert(w.take(n).skip(1) =~= w2.take(n - 1));
        lemma_varint_u32_prefix(v / 128, n - 1);
    }
}

impl Wire for u32 {
    /// A 32-bit integer always fits its own wire format.
    open spec fn wire_ok(m: u32) -> bool {
        true
    }

    open spec fn wire_of(m: u32) -> Seq<u8> {
        wire_varint_u32(m as nat)
    }

    open spec fn parse(s: Seq<u8>) -> Result<(u32, nat), DecodeError> {
        parse_varint_u32(s)
    }

    fn encode(&self, out: &mut Vec<u8>) {
        encode_varint_u32(*self, out);
    }

    fn decode(input: &Vec<u8>, pos: usize) -> (r: Result<(u32, usize), DecodeError>) {
        decode_varint_u32(input, pos)
    }

    proof fn lemma_wire_nonempty(m: u32) {
    }

    proof fn lemma_round_trip(m: u32, rest: Seq<u8>) {
        lemma_varint_u32_round_trip(m, rest);
    }

    proof fn lemma_parse_prefix(m: u32, n: int) {
        lemma_varint_u32_prefix(m as nat, n);
    }
}

/// The wire byte of a boolean: 0 for false, 1 for true.
pub open spec fn wire_bool(b: bool) -> Seq<u8> {
    if b {
        seq![1u8]
    } else {
        seq![0u8]
    }
}

/// What decoding a boolean from the front of `s` yields: any byte other than
/// 0 or 1 is `InvalidBoolean`.
pub open spec fn parse_bool(s: Seq<u8>) -> Result<(bool, nat), DecodeError> {
    if s.len() == 0 {
        Err(DecodeError::UnexpectedEnd)
    } else if s[0] == 0 {
        Ok((false, 1))
    } else if s[0] == 1 {
        Ok((true, 1))
    } else {
        Err(DecodeError::InvalidBoolean(s[0]))
    }
}

impl Wire for bool {
    open spec fn wire_ok(m: bool) -> bool {
        true
    }

    open spec fn wire_of(m: bool) -> Seq<u8> {
        wire_bool(m)
    }

    open spec fn parse(s: Seq<u8>) -> Result<(bool, nat), DecodeError> {
        parse_bool(s)
    }

    fn encode(&self, out: &mut Vec<u8>) {
        if *self {
            out.push(1);
        } else {
            out.push(0);
        }
        assert(out@ =~= old(out)@ + wire_bool(*self));
    }

    fn decode(input: &Vec<u8>, pos: usize) -> (r: Result<(bool, usize), DecodeError>) {
        let ghost s = input@.skip(pos as int);
        if pos == input.len() {
            assert(s.len() == 0);
            return Err(DecodeError::UnexpectedEnd);
        }
        let b: u8 = input[pos];
        assert(s[0] == b);
        if b == 0 {
            Ok((false, pos + 1))
        } else if b == 1 {
            Ok((true, pos + 1))
        } else {
            Err(DecodeError::InvalidBoolean(b))
        }
    }

    proof fn lemma_wire_nonempty(m: bool) {
    }

    proof fn lemma_round_trip(m: bool, rest: Seq<u8>) {
        assert((wire_bool(m) + rest)[0] == wire_bool(m)[0]);
    }

    proof fn lemma_parse_prefix(m: bool, n: int) {
        assert(wire_bool(m).take(0) =~= Seq::<u8>::empty());
    }
}

/// Encode `v` into a fresh buffer holding exactly its wire bytes.
pub fn encode_to_vec<T: Wire>(v: &T) -> (r: Vec<u8>)
    requires
        T::wire_ok(v@),
    ensures
        r@ == T::wire_of(v@),
{
    let mut out: Vec<u8> = Vec::new();
    v.encode(&mut out);
    proof {
        assert(out@ =~= T::wire_of(v@));
    }
    out
}

/// Decode one value that must occupy the whole of `input`: bytes left over
/// after a successful decode are `TrailingData`.
pub fn decode_exact<T: Wire>(input: &Vec<u8>) -> (r: Result<T, DecodeError>)
    ensures
        (match r {
            Ok(v) => T::parse(input@) == Ok::<(T::V, nat), DecodeError>((v@, input@.len())),
            Err(e) => (match T::parse(input@) {
                Ok(p) => e == DecodeError::TrailingData && p.1 < input@.len(),
                Err(pe) => e == pe,
            }),
        }),
{
    proof {
        assert(input@.skip(0) =~= input@);
    }
    match T::decode(input, 0) {
        Ok((v, end)) => {
            if end == input.len() {
                Ok(v)
            } else {
                Err(DecodeError::TrailingData)
            }
        },
        Err(e) => Err(e),
    }
}

} // verus!
