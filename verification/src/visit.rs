//! The traversal capability over the grammar: enumerate the leaves of any
//! value, or rebuild it with a caller-supplied transformation applied to every
//! leaf, depth-first, in each type's natural field and variant order, without
//! the caller writing per-type recursion.
//!
//! A leaf is a value with no grammar-typed children of its own: a value type,
//! an element type, a 32-bit number, or a boolean flag. Sequences and optional
//! fields are recursed through transparently. A transformation may cancel at
//! any leaf by returning `None`; the failure propagates up through every
//! enclosing call and no rebuilt value is produced.

use vstd::prelude::*;

use crate::types::{
    BlockType, ElemType, FuncType, FuncTypeV, GlobalType, Limits, MemType, TableType, ValueType,
};

verus! {

/// One leaf of a grammar value.
#[derive(Debug, Clone, Copy, PartialEq, Eq, Structural)]
pub enum Leaf {
    /// A value type.
    Val(ValueType),
    /// An element type.
    Elem(ElemType),
    /// An unsigned 32-bit number, such as a limit bound.
    Num(u32),
    /// A boolean flag, such as mutability.
    Flag(bool),
}

/// A caller-supplied transformation of leaves. Each executable method is tied
/// exactly to its specification twin, so everything proved of the traversal
/// engine holds for any implementation. Returning `None` cancels the whole
/// traversal.
pub trait Transform {
    /// What the transformation does to a value-type leaf.
    spec fn value_type_spec(&self, v: ValueType) -> Option<ValueType>;

    /// What the transformation does to an element-type leaf.
    spec fn elem_type_spec(&self, e: ElemType) -> Option<ElemType>;

    /// What the transformation does to a numeric leaf.
    spec fn num_spec(&self, n: u32) -> Option<u32>;

    /// What the transformation does to a flag leaf.
    spec fn flag_spec(&self, b: bool) -> Option<bool>;

    /// Transform a value-type leaf.
    fn value_type(&self, v: ValueType) -> (r: Option<ValueType>)
        ensures
            r == self.value_type_spec(v),
    ;

    /// Transform an element-type leaf.
    fn elem_type(&self, e: ElemType) -> (r: Option<ElemType>)
        ensures
            r == self.elem_type_spec(e),
    ;

    /// Transform a numeric leaf.
    fn num(&self, n: u32) -> (r: Option<u32>)
        ensures
            r == self.num_spec(n),
    ;

    /// Transform a flag leaf.
    fn flag(&self, b: bool) -> (r: Option<bool>)
        ensures
            r == self.flag_spec(b),
    ;
}

/// A type whose leaves can be enumerated, in the type's natural field and
/// variant order.
pub trait Visit: View + Sized {
    /// The leaves of a value, in traversal order.
    spec fn leaves_of(m: Self::V) -> Seq<Leaf>;

    /// Append the leaves of `self` to `out`, in traversal order.
    fn leaves(&self, out: &mut Vec<Leaf>)
        ensures
            final(out)@ == old(out)@ + Self::leaves_of(self@),
    ;
}

/// Enumerate the leaves of `v` into a fresh vector.
pub fn leaves_to_vec<V: Visit>(v: &V) -> (r: Vec<Leaf>)
    ensures
        r@ == V::leaves_of(v@),
{
    let mut out: Vec<Leaf> = Vec::new();
    v.leaves(&mut out);
    proof {
        assert(out@ =~= V::leaves_of(v@));
    }
    out
}

/// The leaves of a run of value types, one per element, in order.
pub open spec fn val_leaves(s: Seq<ValueType>) -> Seq<Leaf> {
    s.map_values(|v: ValueType| Leaf::Val(v))
}

impl Visit for ValueType {
    open spec fn leaves_of(m: ValueType) -> Seq<Leaf> {
        seq![Leaf::Val(m)]
    }

    fn leaves(&self, out: &mut Vec<Leaf>) {
        out.push(Leaf::Val(*self));
        assert(out@ =~= old(out)@ + Self::leaves_of(*self));
    }
}

impl Visit for BlockType {
    open spec fn leaves_of(m: BlockType) -> Seq<Leaf> {
        match m {
            BlockType::Empty => Seq::<Leaf>::empty(),
            BlockType::Value(v) => seq![Leaf::Val(v)],
        }
    }

    fn leaves(&self, out: &mut Vec<Leaf>) {
        match self {
            BlockType::Empty => {
                assert(out@ =~= old(out)@ + Self::leaves_of(*self));
            },
            BlockType::Value(v) => {
                out.push(Leaf::Val(*v));
                assert(out@ =~= old(out)@ + Self::leaves_of(*self));
            },
        }
    }
}

impl Visit for ElemType {
    open spec fn leaves_of(m: ElemType) -> Seq<Leaf> {
        seq![Leaf::Elem(m)]
    }

    fn leaves(&self, out: &mut Vec<Leaf>) {
        out.push(Leaf::Elem(*self));
        assert(out@ =~= old(out)@ + Self::leaves_of(*self));
    }
}

impl Visit for Limits {
    open spec fn leaves_of(m: Limits) -> Seq<Leaf> {
        match m.max {
            None => seq![Leaf::Num(m.min)],
            Some(mx) => seq![Leaf::Num(m.min), Leaf::Num(mx)],
        }
    }

    fn leaves(&self, out: &mut Vec<Leaf>) {
        out.push(Leaf::Num(self.min));
        match self.max {
            None => {},
            Some(mx) => {
                out.push(Leaf::Num(mx));
            },
        }
        assert(out@ =~= old(out)@ + Self::leaves_of(*self));
    }
}

impl Visit for MemType {
    open spec fn leaves_of(m: MemType) -> Seq<Leaf> {
        Limits::leaves_of(m.limits)
    }

    fn leaves(&self, out: &mut Vec<Leaf>) {
        self.limits.leaves(out);
    }
}

impl Visit for TableType {
    open spec fn leaves_of(m: TableType) -> Seq<Leaf> {
        ElemType::leaves_of(m.elem_type) + Limits::leaves_of(m.limits)
    }

    fn leaves(&self, out: &mut Vec<Leaf>) {
        self.elem_type.leaves(out);
        self.limits.leaves(out);
        assert(out@ =~= old(out)@ + Self::leaves_of(*self));
    }
}

impl Visit for GlobalType {
    open spec fn leaves_of(m: GlobalType) -> Seq<Leaf> {
        seq![Leaf::Val(m.value_type), Leaf::Flag(m.mutable)]
    }

    fn leaves(&self, out: &mut Vec<Leaf>) {
        out.push(Leaf::Val(self.value_type));
        out.push(Leaf::Flag(self.mutable));
        assert(out@ =~= old(out)@ + Self::leaves_of(*self));
    }
}

impl Visit for FuncType {
    open spec fn leaves_of(m: FuncTypeV) -> Seq<Leaf> {
        val_leaves(m.params) + val_leaves(m.results)
    }

    fn leaves(&self, out: &mut Vec<Leaf>) {
        push_val_leaves(&self.params, out);
        push_val_leaves(&self.results, out);
        assert(out@ =~= old(out)@ + Self::leaves_of(self@));
    }
}

/// Append one leaf per value type in `items`, in order.
fn push_val_leaves(items: &Vec<ValueType>, out: &mut Vec<Leaf>)
    ensures
        final(out)@ == old(out)@ + val_leaves(items@),
{
    let mut i: usize = 0;
    while i < items.len()
        invariant
            0 <= i <= items@.len(),
            out@ == old(out)@ + val_leaves(items@.take(i as int)),
        decreases items@.len() - i,
    {
        out.push(Leaf::Val(items[i]));
        proof {
            assert(val_leaves(items@.take(i + 1)) =~= val_leaves(items@.take(i as int)).push(
                Leaf::Val(items@[i as int]),
            ));
        }
        i = i + 1;
    }
    assert(items@.take(items@.len() as int) =~= items@);
}

/// What rebuilding a run of value types yields: each element transformed in
/// order, or the first cancellation.
pub open spec fn transform_value_types_spec<T: Transform>(t: T, s: Seq<ValueType>) -> Option<
    Seq<ValueType>,
>
    decreases s.len(),
{
    if s.len() == 0 {
        Some(Seq::<ValueType>::empty())
    } else {
        match t.value_type_spec(s[0]) {
            Some(v) => match transform_value_types_spec(t, s.skip(1)) {
                Some(rest) => Some(seq![v] + rest),
                None => None,
            },
            None => None,
        }
    }
}

/// Rebuild a run of value types with `t` applied to each element, in order,
/// stopping at the first cancellation.
pub fn transform_value_types<T: Transform>(t: &T, items: &Vec<ValueType>) -> (r: Option<
    Vec<ValueType>,
>)
    ensures
        (match r {
            Some(v) => transform_value_types_spec(*t, items@) == Some(v@),
            None => transform_value_types_spec(*t, items@) == None::<Seq<ValueType>>,
        }),
{
    let mut acc: Vec<ValueType> = Vec::new();
    let mut i: usize = 0;
    proof {
        assert(items@.skip(0) =~= items@);
        match transform_value_types_spec(*t, items@) {
            Some(rest) => {
                assert(Seq::<ValueType>::empty() + rest =~= rest);
            },
            None => {},
        }
    }
    while i < items.len()
        invariant
            0 <= i <= items@.len(),
            transform_value_types_spec(*t, items@) == (match transform_value_types_spec(
                *t,
                items@.skip(i as int),
            ) {
                Some(rest) => Some(acc@ + rest),
                None => None::<Seq<ValueType>>,
            }),
        decreases items@.len() - i,
    {
        let ghost pre = items@.skip(i as int);
        assert(pre[0] == items@[i as int]);
        proof {
            assert(items@.skip(i + 1) =~= pre.skip(1));
        }
        match t.value_type(items[i]) {
            Some(v) => {
                proof {
                    let r2 = transform_value_types_spec(*t, items@.skip(i + 1));
                    match r2 {
                        Some(rest) => {
                            assert(acc@ + (seq![v] + rest) =~= (acc@ + seq![v]) + rest);
                            assert(acc@.push(v) =~= acc@ + seq![v]);
                        },
                        None => {},
                    }
                }
                acc.push(v);
                i = i + 1;
            },
            None => {
                return None;
            },
        }
    }
    proof {
        assert(items@.skip(items@.len() as int) =~= Seq::<ValueType>::empty());
        assert(acc@ + Seq::<ValueType>::empty() =~= acc@);
    }
    Some(acc)
}

/// What rebuilding a block type yields: the empty block is left alone; a
/// value block has its value type transformed.
pub open spec fn transform_block_type_spec<T: Transform>(t: T, m: BlockType) -> Option<BlockType> {
    match m {
        BlockType::Empty => Some(BlockType::Empty),
        BlockType::Value(v) => match t.value_type_spec(v) {
            Some(v2) => Some(BlockType::Value(v2)),
            None => None,
        },
    }
}

/// Rebuild a block type with `t` applied to its leaves.
pub fn transform_block_type<T: Transform>(t: &T, x: &BlockType) -> (r: Option<BlockType>)
    ensures
        r == transform_block_type_spec(*t, *x),
{
    match x {
        BlockType::Empty => Some(BlockType::Empty),
        BlockType::Value(v) => match t.value_type(*v) {
            Some(v2) => Some(BlockType::Value(v2)),
            None => None,
        },
    }
}

/// What rebuilding limits yields: the minimum, then the maximum if present,
/// each through the numeric transformation.
pub open spec fn transform_limits_spec<T: Transform>(t: T, m: Limits) -> Option<Limits> {
    match t.num_spec(m.min) {
        Some(min) => match m.max {
            None => Some(Limits { min, max: None }),
            Some(mx) => match t.num_spec(mx) {
                Some(mx2) => Some(Limits { min, max: Some(mx2) }),
                None => None,
            },
        },
        None => None,
    }
}

/// Rebuild limits with `t` applied to its leaves, in field order.
pub fn transform_limits<T: Transform>(t: &T, x: &Limits) -> (r: Option<Limits>)
    ensures
        r == transform_limits_spec(*t, *x),
{
    match t.num(x.min) {
        Some(min) => match x.max {
            None => Some(Limits { min, max: None }),
            Some(mx) => match t.num(mx) {
                Some(mx2) => Some(Limits { min, max: Some(mx2) }),
                None => None,
            },
        },
        None => None,
    }
}

/// What rebuilding a memory descriptor yields: its limits, rebuilt.
pub open spec fn transform_mem_type_spec<T: Transform>(t: T, m: MemType) -> Option<MemType> {
    match transform_limits_spec(t, m.limits) {
        Some(l) => Some(MemType { limits: l }),
        None => None,
    }
}

/// Rebuild a memory descriptor with `t` applied to its leaves.
pub fn transform_mem_type<T: Transform>(t: &T, x: &MemType) -> (r: Option<MemType>)
    ensures
        r == transform_mem_type_spec(*t, *x),
{
    match transform_limits(t, &x.limits) {
        Some(l) => Some(MemType { limits: l }),
        None => None,
    }
}

/// What rebuilding a table descriptor yields: its element type, then its
/// limits, in field order.
pub open spec fn transform_table_type_spec<T: Transform>(t: T, m: TableType) -> Option<TableType> {
    match t.elem_type_spec(m.elem_type) {
        Some(e) => match transform_limits_spec(t, m.limits) {
            Some(l) => Some(TableType { elem_type: e, limits: l }),
            None => None,
        },
        None => None,
    }
}

/// Rebuild a table descriptor with `t` applied to its leaves, depth-first in
/// field order.
pub fn transform_table_type<T: Transform>(t: &T, x: &TableType) -> (r: Option<TableType>)
    ensures
        r == transform_table_type_spec(*t, *x),
{
    match t.elem_type(x.elem_type) {
        Some(e) => match transform_limits(t, &x.limits) {
            Some(l) => Some(TableType { elem_type: e, limits: l }),
            None => None,
        },
        None => None,
    }
}

/// What rebuilding a global descriptor yields: its value type, then its
/// mutability flag.
pub open spec fn transform_global_type_spec<T: Transform>(t: T, m: GlobalType) -> Option<
    GlobalType,
> {
    match t.value_type_spec(m.value_type) {
        Some(v) => match t.flag_spec(m.mutable) {
            Some(b) => Some(GlobalType { value_type: v, mutable: b }),
            None => None,
        },
        None => None,
    }
}

/// Rebuild a global descriptor with `t` applied to its leaves, in field
/// order.
pub fn transform_global_type<T: Transform>(t: &T, x: &GlobalType) -> (r: Option<GlobalType>)
    ensures
        r == transform_global_type_spec(*t, *x),
{
    match t.value_type(x.value_type) {
        Some(v) => match t.flag(x.mutable) {
            Some(b) => Some(GlobalType { value_type: v, mutable: b }),
            None => None,
        },
        None => None,
    }
}

/// What rebuilding a function signature yields: every parameter type, then
/// every result type, in order.
pub open spec fn transform_func_type_spec<T: Transform>(t: T, m: FuncTypeV) -> Option<FuncTypeV> {
    match transform_value_types_spec(t, m.params) {
        Some(ps) => match transform_value_types_spec(t, m.results) {
            Some(rs) => Some(FuncTypeV { params: ps, results: rs }),
            None => None,
        },
        None => None,
    }
}

/// Rebuild a function signature with `t` applied to its leaves, depth-first
/// in field order.
pub fn transform_func_type<T: Transform>(t: &T, x: &FuncType) -> (r: Option<FuncType>)
    ensures
        (match r {
            Some(v) => transform_func_type_spec(*t, x@) == Some(v@),
            None => transform_func_type_spec(*t, x@) == None::<FuncTypeV>,
        }),
{
    match transform_value_types(t, &x.params) {
        Some(params) => match transform_value_types(t, &x.results) {
            Some(results) => {
                let r = FuncType { params, results };
                proof {
                    assert(transform_func_type_spec(*t, x@) == Some(r@));
                }
                Some(r)
            },
            None => None,
        },
        None => None,
    }
}

/// The transformation that leaves every leaf unchanged and never cancels.
pub struct IdentityTransform;

impl Transform for IdentityTransform {
    open spec fn value_type_spec(&self, v: ValueType) -> Option<ValueType> {
        Some(v)
    }

    open spec fn elem_type_spec(&self, e: ElemType) -> Option<ElemType> {
        Some(e)
    }

    open spec fn num_spec(&self, n: u32) -> Option<u32> {
        Some(n)
    }

    open spec fn flag_spec(&self, b: bool) -> Option<bool> {
        Some(b)
    }

    fn value_type(&self, v: ValueType) -> (r: Option<ValueType>) {
        Some(v)
    }

    fn elem_type(&self, e: ElemType) -> (r: Option<ElemType>) {
        Some(e)
    }

    fn num(&self, n: u32) -> (r: Option<u32>) {
        Some(n)
    }

    fn flag(&self, b: bool) -> (r: Option<bool>) {
        Some(b)
    }
}

/// Rebuilding a run of value types with the identity transformation returns
/// it unchanged and never cancels.
pub proof fn lemma_identity_value_types(s: Seq<ValueType>)
    ensures
        transform_value_types_spec(IdentityTransform, s) == Some(s),
    decreases s.len(),
{
    if s.len() == 0 {
        assert(Seq::<ValueType>::empty() =~= s);
    } else {
        lemma_identity_value_types(s.skip(1));
        assert(seq![s[0]] + s.skip(1) =~= s);
    }
}

/// Rebuilding a function signature with the identity transformation returns
/// it unchanged and never cancels.
pub proof fn lemma_identity_func_type(m: FuncTypeV)
    ensures
        transform_func_type_spec(IdentityTransform, m) == Some(m),
{
    lemma_identity_value_types(m.params);
    lemma_identity_value_types(m.results);
    assert(FuncTypeV { params: m.params, results: m.results } =~= m);
}

/// Rebuilding a table descriptor with the identity transformation returns it
/// unchanged and never cancels.
pub proof fn lemma_identity_table_type(m: TableType)
    ensures
        transform_table_type_spec(IdentityTransform, m) == Some(m),
{
}

/// The transformation that replaces every numeric leaf equal to `from` with
/// `to` and leaves everything else unchanged.
pub struct ReplaceNum {
    pub from: u32,
    pub to: u32,
}

impl Transform for ReplaceNum {
    open spec fn value_type_spec(&self, v: ValueType) -> Option<ValueType> {
        Some(v)
    }

    open spec fn elem_type_spec(&self, e: ElemType) -> Option<ElemType> {
        Some(e)
    }

    open spec fn num_spec(&self, n: u32) -> Option<u32> {
        if n == self.from {
            Some(self.to)
        } else {
            Some(n)
        }
    }

    open spec fn flag_spec(&self, b: bool) -> Option<bool> {
        Some(b)
    }

    fn value_type(&self, v: ValueType) -> (r: Option<ValueType>) {
        Some(v)
    }

    fn elem_type(&self, e: ElemType) -> (r: Option<ElemType>) {
        Some(e)
    }

    fn num(&self, n: u32) -> (r: Option<u32>) {
        if n == self.from {
            Some(self.to)
        } else {
            Some(n)
        }
    }

    fn flag(&self, b: bool) -> (r: Option<bool>) {
        Some(b)
    }
}

/// The transformation that cancels at any value-type leaf equal to `reject`
/// and leaves every other leaf unchanged; the cancellation propagates up
/// through every enclosing recursive call.
pub struct RejectValueType {
    pub reject: ValueType,
}

impl Transform for RejectValueType {
    open spec fn value_type_spec(&self, v: ValueType) -> Option<ValueType> {
        if v == self.reject {
            None
        } else {
            Some(v)
        }
    }

    open spec fn elem_type_spec(&self, e: ElemType) -> Option<ElemType> {
        Some(e)
    }

    open spec fn num_spec(&self, n: u32) -> Option<u32> {
        Some(n)
    }

    open spec fn flag_spec(&self, b: bool) -> Option<bool> {
        Some(b)
    }

    fn value_type(&self, v: ValueType) -> (r: Option<ValueType>) {
        if v == self.reject {
            None
        } else {
            Some(v)
        }
    }

    fn elem_type(&self, e: ElemType) -> (r: Option<ElemType>) {
        Some(e)
    }

    fn num(&self, n: u32) -> (r: Option<u32>) {
        Some(n)
    }

    fn flag(&self, b: bool) -> (r: Option<bool>) {
        Some(b)
    }
}

} // verus!
