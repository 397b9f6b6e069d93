//! The collection codec, written once for every wire type: an ordered
//! sequence encodes as a varint element count followed by each element's
//! encoding in order, and decodes symmetrically, reading exactly that many
//! elements and propagating the first element error.

use vstd::prelude::*;

use crate::error::DecodeError;
use crate::wire::{
    Wire, decode_varint_u32, encode_varint_u32, lemma_varint_u32_prefix,
    lemma_varint_u32_round_trip, parse_varint_u32, wire_varint_u32,
};

verus! {

/// The views of the elements of `s`, in order.
pub open spec fn seq_view<T: View>(s: Seq<T>) -> Seq<T::V> {
    s.map_values(|x: T| x@)
}

/// The concatenated encodings of the elements of `s`, in order, with no
/// separators.
pub open spec fn wire_elems<T: Wire>(s: Seq<T::V>) -> Seq<u8>
    decreases s.len(),
{
    if s.len() == 0 {
        Seq::<u8>::empty()
    } else {
        T::wire_of(s[0]) + wire_elems::<T>(s.skip(1))
    }
}

/// The wire bytes of a counted sequence: the element count as a varint, then
/// the elements. An empty sequence is a single zero varint and nothing else.
pub open spec fn wire_seq<T: Wire>(s: Seq<T::V>) -> Seq<u8> {
    wire_varint_u32(s.len()) + wire_elems::<T>(s)
}

/// Every element of `s` can be encoded.
pub open spec fn elems_ok<T: Wire>(s: Seq<T::V>) -> bool {
    forall|i: int| 0 <= i < s.len() ==> T::wire_ok(#[trigger] s[i])
}

/// A counted sequence can be encoded: the count fits the 32-bit domain and
/// every element can be encoded.
pub open spec fn seq_ok<T: Wire>(s: Seq<T::V>) -> bool {
    s.len() <= u32::MAX && elems_ok::<T>(s)
}

/// What decoding exactly `n` elements from the front of `s` yields: the
/// elements in order and the bytes consumed, or the first element's error.
pub open spec fn parse_elems<T: Wire>(s: Seq<u8>, n: nat) -> Result<(Seq<T::V>, nat), DecodeError>
    decreases n,
{
    if n == 0 {
        Ok((Seq::<T::V>::empty(), 0))
    } else {
        match T::parse(s) {
            Ok(p) => match parse_elems::<T>(s.skip(p.1 as int), (n - 1) as nat) {
                Ok(q) => Ok((seq![p.0] + q.0, p.1 + q.1)),
                Err(e) => Err(e),
            },
            Err(e) => Err(e),
        }
    }
}

/// What decoding a counted sequence from the front of `s` yields: the count
/// is read as a varint, then exactly that many elements.
pub open spec fn parse_seq<T: Wire>(s: Seq<u8>) -> Result<(Seq<T::V>, nat), DecodeError> {
    match parse_varint_u32(s) {
        Ok(c) => match parse_elems::<T>(s.skip(c.1 as int), c.0 as nat) {
            Ok(q) => Ok((q.0, c.1 + q.1)),
            Err(e) => Err(e),
        },
        Err(e) => Err(e),
    }
}

/// Appending one element extends the concatenated encodings by that
/// element's encoding.
pub proof fn lemma_wire_elems_snoc<T: Wire>(s: Seq<T::V>, i: int)
    requires
        0 <= i < s.len(),
    ensures
        wire_elems::<T>(s.take(i + 1)) == wire_elems::<T>(s.take(i)) + T::wire_of(s[i]),
    decreases i,
{
    if i == 0 {
        assert(s.take(1).skip(1) =~= Seq::<T::V>::empty());
        assert(s.take(1)[0] == s[0]);
        assert(wire_elems::<T>(Seq::<T::V>::empty()) == Seq::<u8>::empty());
        assert(T::wire_of(s[0]) + Seq::<u8>::empty() =~= T::wire_of(s[0]));
        assert(wire_elems::<T>(s.take(1)) =~= T::wire_of(s[0]));
        assert(s.take(0) =~= Seq::<T::V>::empty());
        assert(wire_elems::<T>(s.take(0)) + T::wire_of(s[0]) =~= T::wire_of(s[0]));
    } else {
        let t = s.skip(1);
        lemma_wire_elems_snoc::<T>(t, i - 1);
        assert(s.take(i + 1).skip(1) =~= t.take(i));
        assert(s.take(i).skip(1) =~= t.take(i - 1));
        assert(s.take(i + 1)[0] == s[0]);
        assert(s.take(i)[0] == s[0]);
        assert(t[i - 1] == s[i]);
        assert(wire_elems::<T>(s.take(i + 1)) == T::wire_of(s[0]) + wire_elems::<T>(t.take(i)));
        assert(wire_elems::<T>(s.take(i)) == T::wire_of(s[0]) + wire_elems::<T>(t.take(i - 1)));
        assert(T::wire_of(s[0]) + (wire_elems::<T>(t.take(i - 1)) + T::wire_of(s[i])) =~= (
        T::wire_of(s[0]) + wire_elems::<T>(t.take(i - 1))) + T::wire_of(s[i]));
    }
}

/// Append the counted-sequence encoding of `items` to `out`.
pub fn encode_seq<T: Wire>(items: &Vec<T>, out: &mut Vec<u8>)
    requires
        seq_ok::<T>(seq_view(items@)),
    ensures
        final(out)@ == old(out)@ + wire_seq::<T>(seq_view(items@)),
{
    let ghost vs = seq_view(items@);
    let n: u32 = items.len() as u32;
    encode_varint_u32(n, out);
    assert(out@ == old(out)@ + wire_varint_u32(vs.len()));
    let mut i: usize = 0;
    while i < items.len()
        invariant
            0 <= i <= items@.len(),
            vs == seq_view(items@),
            seq_ok::<T>(vs),
            out@ == old(out)@ + wire_varint_u32(vs.len()) + wire_elems::<T>(vs.take(i as int)),
        decreases items@.len() - i,
    {
        assert(vs.take(i as int) =~= vs.take(i as int));
        assert(T::wire_ok(items@[i as int]@)) by {
            assert(vs[i as int] == items@[i as int]@);
        }
        items[i].encode(out);
        proof {
            lemma_wire_elems_snoc::<T>(vs, i as int);
            assert(vs[i as int] == items@[i as int]@);
            assert((old(out)@ + wire_varint_u32(vs.len()) + wire_elems::<T>(vs.take(i as int)))
                + T::wire_of(items@[i as int]@) =~= old(out)@ + wire_varint_u32(vs.len())
                + wire_elems::<T>(vs.take(i + 1)));
        }
        i = i + 1;
    }
    assert(vs.take(items@.len() as int) =~= vs);
}

/// Decode a counted sequence from `input` at `pos`, exactly as `parse_seq`
/// describes on the bytes from `pos` on.
pub fn decode_seq<T: Wire>(input: &Vec<u8>, pos: usize) -> (r: Result<(Vec<T>, usize), DecodeError>)
    requires
        pos <= input@.len(),
    ensures
        (match r {
            Ok(p) => {
                &&& pos < p.1 <= input@.len()
                &&& parse_seq::<T>(input@.skip(pos as int)) == Ok::<(Seq<T::V>, nat), DecodeError>(
                    (seq_view(p.0@), (p.1 - pos) as nat),
                )
            },
            Err(e) => parse_seq::<T>(input@.skip(pos as int)) == Err::<(Seq<T::V>, nat), DecodeError>(
                e,
            ),
        }),
{
    let ghost s0 = input@.skip(pos as int);
    let count: u32;
    let elems_start: usize;
    match decode_varint_u32(input, pos) {
        Ok(p) => {
            count = p.0;
            elems_start = p.1;
        },
        Err(e) => {
            return Err(e);
        },
    }
    let ghost se = input@.skip(elems_start as int);
    proof {
        assert(se =~= s0.skip((elems_start - pos) as int));
    }
    let mut acc: Vec<T> = Vec::new();
    let mut i: u32 = 0;
    let mut p: usize = elems_start;
    while i < count
        invariant
            pos < elems_start <= p <= input@.len(),
            i <= count,
            s0 == input@.skip(pos as int),
            se == input@.skip(elems_start as int),
            parse_varint_u32(s0) == Ok::<(u32, nat), DecodeError>(
                (count, (elems_start - pos) as nat),
            ),
            se == s0.skip((elems_start - pos) as int),
            parse_elems::<T>(se, count as nat) == (match parse_elems::<T>(
                input@.skip(p as int),
                (count - i) as nat,
            ) {
                Ok(q) => Ok::<(Seq<T::V>, nat), DecodeError>(
                    (seq_view(acc@) + q.0, (p - elems_start) as nat + q.1),
                ),
                Err(e) => Err::<(Seq<T::V>, nat), DecodeError>(e),
            }),
        decreases count - i,
    {
        match T::decode(input, p) {
            Ok((v, end)) => {
                proof {
                    assert(input@.skip(p as int).skip((end - p) as int) =~= input@.skip(
                        end as int,
                    ));
                    assert(seq_view(acc@.push(v)) =~= seq_view(acc@) + seq![v@]);
                    let r2 = parse_elems::<T>(input@.skip(end as int), (count - i - 1) as nat);
                    match r2 {
                        Ok(q2) => {
                            assert(seq_view(acc@) + (seq![v@] + q2.0) =~= (seq_view(acc@)
                                + seq![v@]) + q2.0);
                        },
                        Err(_) => {},
                    }
                }
                acc.push(v);
                p = end;
                i = i + 1;
            },
            Err(e) => {
                return Err(e);
            },
        }
    }
    proof {
        assert(seq_view(acc@) + Seq::<T::V>::empty() =~= seq_view(acc@));
    }
    Ok((acc, p))
}

/// Round trip of the element run: parsing the concatenated encodings of `s`,
/// whatever follows them, yields `s` back.
pub proof fn lemma_elems_round_trip<T: Wire>(s: Seq<T::V>, rest: Seq<u8>)
    requires
        elems_ok::<T>(s),
    ensures
        parse_elems::<T>(wire_elems::<T>(s) + rest, s.len()) == Ok::<(Seq<T::V>, nat), DecodeError>(
            (s, wire_elems::<T>(s).len()),
        ),
    decreases s.len(),
{
    if s.len() == 0 {
        assert(wire_elems::<T>(s) + rest =~= rest);
        assert(Seq::<T::V>::empty() =~= s);
    } else {
        let a = T::wire_of(s[0]);
        let w2 = wire_elems::<T>(s.skip(1));
        assert((a + w2) + rest =~= a + (w2 + rest));
        T::lemma_round_trip(s[0], w2 + rest);
        assert((a + (w2 + rest)).skip(a.len() as int) =~= w2 + rest);
        assert(elems_ok::<T>(s.skip(1))) by {
            assert forall|i: int| 0 <= i < s.skip(1).len() implies T::wire_ok(
                #[trigger] s.skip(1)[i],
            ) by {
                assert(s.skip(1)[i] == s[i + 1]);
            }
        }
        lemma_elems_round_trip::<T>(s.skip(1), rest);
        assert(seq![s[0]] + s.skip(1) =~= s);
    }
}

/// Round trip of the collection codec: parsing the counted-sequence encoding
/// of `s`, whatever follows it, yields `s` back and consumes exactly the
/// encoding.
pub proof fn lemma_seq_round_trip<T: Wire>(s: Seq<T::V>, rest: Seq<u8>)
    requires
        seq_ok::<T>(s),
    ensures
        parse_seq::<T>(wire_seq::<T>(s) + rest) == Ok::<(Seq<T::V>, nat), DecodeError>(
            (s, wire_seq::<T>(s).len()),
        ),
{
    let c = wire_varint_u32(s.len());
    let w = wire_elems::<T>(s);
    assert((c + w) + rest =~= c + (w + rest));
    lemma_varint_u32_round_trip(s.len() as u32, w + rest);
    assert((c + (w + rest)).skip(c.len() as int) =~= w + rest);
    lemma_elems_round_trip::<T>(s, rest);
}

/// Truncating an element run mid-element leaves either a strict prefix of the
/// next element or too few elements, so parsing reports the stream ended too
/// early — never a short valid sequence.
pub proof fn lemma_elems_prefix<T: Wire>(s: Seq<T::V>, n: int)
    requires
        elems_ok::<T>(s),
        0 <= n < wire_elems::<T>(s).len(),
    ensures
        parse_elems::<T>(wire_elems::<T>(s).take(n), s.len()) == Err::<(Seq<T::V>, nat), DecodeError>(
            DecodeError::UnexpectedEnd,
        ),
    decreases s.len(),
{
    if s.len() == 0 {
        assert(false);
    } else {
        let a = T::wire_of(s[0]);
        let w2 = wire_elems::<T>(s.skip(1));
        assert(elems_ok::<T>(s.skip(1))) by {
            assert forall|i: int| 0 <= i < s.skip(1).len() implies T::wire_ok(
                #[trigger] s.skip(1)[i],
            ) by {
                assert(s.skip(1)[i] == s[i + 1]);
            }
        }
        if n < a.len() {
            assert(wire_elems::<T>(s).take(n) =~= a.take(n));
            T::lemma_parse_prefix(s[0], n);
        } else {
            let m = n - a.len();
            assert(wire_elems::<T>(s).take(n) =~= a + w2.take(m));
            T::lemma_round_trip(s[0], w2.take(m));
            assert((a + w2.take(m)).skip(a.len() as int) =~= w2.take(m));
            lemma_elems_prefix::<T>(s.skip(1), m);
        }
    }
}

/// Truncating a counted-sequence encoding anywhere — inside the count or
/// inside the elements — makes parsing fail with `UnexpectedEnd`.
pub proof fn lemma_seq_prefix<T: Wire>(s: Seq<T::V>, n: int)
    requires
        seq_ok::<T>(s),
        0 <= n < wire_seq::<T>(s).len(),
    ensures
        parse_seq::<T>(wire_seq::<T>(s).take(n)) == Err::<(Seq<T::V>, nat), DecodeError>(
            DecodeError::UnexpectedEnd,
        ),
{
    let c = wire_varint_u32(s.len());
    let w = wire_elems::<T>(s);
    if n < c.len() {
        assert(wire_seq::<T>(s).take(n) =~= c.take(n));
        lemma_varint_u32_prefix(s.len(), n);
    } else {
        let m = n - c.len();
        assert(wire_seq::<T>(s).take(n) =~= c + w.take(m));
        lemma_varint_u32_round_trip(s.len() as u32, w.take(m));
        assert((c + w.take(m)).skip(c.len() as int) =~= w.take(m));
        lemma_elems_prefix::<T>(s, m);
    }
}

} // verus!
