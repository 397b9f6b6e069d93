//! The minimal human-readable rendering used for diagnostics: parenthesized,
//! comma-separated type lists for function signatures, and `min..` or
//! `min..=max` for limits.

use vstd::prelude::*;
use vstd::string::StringExecFns;

use crate::types::{FuncType, FuncTypeV, Limits, ValueType};

verus! {

/// The printed name of a value type.
pub open spec fn value_type_name(v: ValueType) -> Seq<char> {
    match v {
        ValueType::I32 => "I32"@,
        ValueType::I64 => "I64"@,
        ValueType::F32 => "F32"@,
        ValueType::F64 => "F64"@,
    }
}

/// The text of every element after the first: a comma-space separator before
/// each name.
pub open spec fn tail_text(s: Seq<ValueType>) -> Seq<char>
    decreases s.len(),
{
    if s.len() == 0 {
        Seq::<char>::empty()
    } else {
        ", "@ + value_type_name(s[0]) + tail_text(s.skip(1))
    }
}

/// A comma-separated list of type names, empty for the empty list.
pub open spec fn type_list_text(s: Seq<ValueType>) -> Seq<char> {
    if s.len() == 0 {
        Seq::<char>::empty()
    } else {
        value_type_name(s[0]) + tail_text(s.skip(1))
    }
}

/// A function signature rendered as its parenthesized parameter list, an
/// arrow, then its parenthesized result list.
pub open spec fn func_type_text(m: FuncTypeV) -> Seq<char> {
    "("@ + type_list_text(m.params) + ") -> ("@ + type_list_text(m.results) + ")"@
}

/// One decimal digit as a character.
pub open spec fn dec_digit(d: nat) -> char {
    if d == 0 {
        '0'
    } else if d == 1 {
        '1'
    } else if d == 2 {
        '2'
    } else if d == 3 {
        '3'
    } else if d == 4 {
        '4'
    } else if d == 5 {
        '5'
    } else if d == 6 {
        '6'
    } else if d == 7 {
        '7'
    } else if d == 8 {
        '8'
    } else {
        '9'
    }
}

/// The decimal text of a number, most significant digit first, with no
/// leading zeroes except for the number zero itself.
pub open spec fn u32_text(n: nat) -> Seq<char>
    decreases n,
{
    if n < 10 {
        seq![dec_digit(n)]
    } else {
        u32_text(n / 10) + seq![dec_digit(n % 10)]
    }
}

/// Limits rendered as `min..` when no maximum is present and `min..=max` when
/// one is.
pub open spec fn limits_text(m: Limits) -> Seq<char> {
    match m.max {
        None => u32_text(m.min as nat) + ".."@,
        Some(mx) => u32_text(m.min as nat) + "..="@ + u32_text(mx as nat),
    }
}

/// One decimal digit as a string slice.
fn digit_str(d: u32) -> (r: &'static str)
    requires
        d < 10,
    ensures
        r@ == seq![dec_digit(d as nat)],
{
    proof {
        reveal_strlit("0");
        reveal_strlit("1");
        reveal_strlit("2");
        reveal_strlit("3");
        reveal_strlit("4");
        reveal_strlit("5");
        reveal_strlit("6");
        reveal_strlit("7");
        reveal_strlit("8");
        reveal_strlit("9");
    }
    let r: &'static str = if d == 0 {
        "0"
    } else if d == 1 {
        "1"
    } else if d == 2 {
        "2"
    } else if d == 3 {
        "3"
    } else if d == 4 {
        "4"
    } else if d == 5 {
        "5"
    } else if d == 6 {
        "6"
    } else if d == 7 {
        "7"
    } else if d == 8 {
        "8"
    } else {
        "9"
    };
    proof {
        assert(r@ =~= seq![dec_digit(d as nat)]);
    }
    r
}

/// Append the decimal text of `n` to `s`.
fn append_u32(s: &mut String, n: u32)
    ensures
        final(s)@ == old(s)@ + u32_text(n as nat),
    decreases n,
{
    if n < 10 {
        s.append(digit_str(n));
        assert(s@ =~= old(s)@ + u32_text(n as nat));
    } else {
        append_u32(s, n / 10);
        s.append(digit_str(n % 10));
        assert(s@ =~= old(s)@ + u32_text(n as nat));
    }
}

impl ValueType {
    /// The printed name of the type.
    pub fn render(&self) -> (r: String)
        ensures
            r@ == value_type_name(*self),
    {
        match self {
            ValueType::I32 => String::from_str("I32"),
            ValueType::I64 => String::from_str("I64"),
            ValueType::F32 => String::from_str("F32"),
            ValueType::F64 => String::from_str("F64"),
        }
    }
}

/// After the element at `i` joins the list, the text grows by one separator
/// and that element's name.
proof fn lemma_tail_text_snoc(s: Seq<ValueType>, i: int)
    requires
        0 <= i < s.len(),
    ensures
        tail_text(s.take(i + 1)) == tail_text(s.take(i)) + (", "@ + value_type_name(s[i])),
    decreases i,
{
    if i == 0 {
        assert(s.take(1)[0] == s[0]);
        assert(s.take(1).skip(1) =~= Seq::<ValueType>::empty());
        assert(tail_text(Seq::<ValueType>::empty()) == Seq::<char>::empty());
        assert(s.take(0) =~= Seq::<ValueType>::empty());
        assert((", "@ + value_type_name(s[0])) + Seq::<char>::empty() =~= ", "@
            + value_type_name(s[0]));
        assert(Seq::<char>::empty() + (", "@ + value_type_name(s[0])) =~= ", "@
            + value_type_name(s[0]));
    } else {
        let t = s.skip(1);
        lemma_tail_text_snoc(t, i - 1);
        assert(s.take(i + 1)[0] == s[0]);
        assert(s.take(i)[0] == s[0]);
        assert(s.take(i + 1).skip(1) =~= t.take(i));
        assert(s.take(i).skip(1) =~= t.take(i - 1));
        assert(t[i - 1] == s[i]);
        let head = ", "@ + value_type_name(s[0]);
        assert(tail_text(s.take(i + 1)) == head + tail_text(t.take(i)));
        assert(tail_text(s.take(i)) == head + tail_text(t.take(i - 1)));
        assert(head + (tail_text(t.take(i - 1)) + (", "@ + value_type_name(s[i]))) =~= (head
            + tail_text(t.take(i - 1))) + (", "@ + value_type_name(s[i])));
    }
}

/// Same growth step, at the level of the whole list text.
proof fn lemma_type_list_snoc(s: Seq<ValueType>, i: int)
    requires
        1 <= i < s.len(),
    ensures
        type_list_text(s.take(i + 1)) == type_list_text(s.take(i)) + (", "@ + value_type_name(
            s[i],
        )),
{
    let t = s.skip(1);
    lemma_tail_text_snoc(t, i - 1);
    assert(s.take(i + 1)[0] == s[0]);
    assert(s.take(i)[0] == s[0]);
    assert(s.take(i + 1).skip(1) =~= t.take(i));
    assert(s.take(i).skip(1) =~= t.take(i - 1));
    assert(t[i - 1] == s[i]);
    let head = value_type_name(s[0]);
    assert(type_list_text(s.take(i + 1)) == head + tail_text(t.take(i)));
    assert(type_list_text(s.take(i)) == head + tail_text(t.take(i - 1)));
    assert(head + (tail_text(t.take(i - 1)) + (", "@ + value_type_name(s[i]))) =~= (head
        + tail_text(t.take(i - 1))) + (", "@ + value_type_name(s[i])));
}

/// Append a comma-separated list of type names to `s`.
fn append_type_list(s: &mut String, items: &Vec<ValueType>)
    ensures
        final(s)@ == old(s)@ + type_list_text(items@),
{
    let mut i: usize = 0;
    while i < items.len()
        invariant
            0 <= i <= items@.len(),
            s@ == old(s)@ + type_list_text(items@.take(i as int)),
        decreases items@.len() - i,
    {
        if i == 0 {
            let name = items[0].render();
            s.append(name.as_str());
            proof {
                assert(items@.take(1)[0] == items@[0]);
                assert(items@.take(1).skip(1) =~= Seq::<ValueType>::empty());
                assert(items@.take(0) =~= Seq::<ValueType>::empty());
                assert(value_type_name(items@[0]) + Seq::<char>::empty() =~= value_type_name(
                    items@[0],
                ));
                assert(s@ =~= old(s)@ + type_list_text(items@.take(1)));
            }
        } else {
            s.append(", ");
            let name = items[i].render();
            s.append(name.as_str());
            proof {
                lemma_type_list_snoc(items@, i as int);
                assert(s@ =~= old(s)@ + type_list_text(items@.take(i + 1)));
            }
        }
        i = i + 1;
    }
    assert(items@.take(items@.len() as int) =~= items@);
}

impl FuncType {
    /// The human-readable rendering used in diagnostics: the parameter types,
    /// parenthesized and comma-separated, an arrow, then the result types.
    pub fn render(&self) -> (r: String)
        ensures
            r@ == func_type_text(self@),
    {
        let mut s = String::from_str("(");
        append_type_list(&mut s, &self.params);
        s.append(") -> (");
        append_type_list(&mut s, &self.results);
        s.append(")");
        proof {
            assert(s@ =~= func_type_text(self@));
        }
        s
    }
}

impl Limits {
    /// The human-readable rendering used in diagnostics: `min..` or
    /// `min..=max`.
    pub fn render(&self) -> (r: String)
        ensures
            r@ == limits_text(*self),
    {
        let mut s = String::new();
        append_u32(&mut s, self.min);
        match self.max {
            None => {
                s.append("..");
            },
            Some(mx) => {
                s.append("..=");
                append_u32(&mut s, mx);
            },
        }
        proof {
            assert(s@ =~= limits_text(*self));
        }
        s
    }
}

} // verus!
