//! The grammar types: a strict tree of value types, block types, function
//! signatures, limits, and the memory/table/global descriptors composed from
//! them. Equality is structural; values are immutable once constructed except
//! through whole-value replacement.

use vstd::prelude::*;

verus! {

/// A numeric value type, each tagged by one fixed wire byte.
#[derive(Debug, Clone, Copy, PartialEq, Eq, Hash, Structural)]
pub enum ValueType {
    I32,
    I64,
    F32,
    F64,
}

impl View for ValueType {
    type V = ValueType;

    open spec fn view(&self) -> ValueType {
        *self
    }
}

/// The type of a block: either empty or a single value type. Its tag space
/// conflates one reserved byte with the value-type tags: the reserved byte is
/// tried first, any other byte is delegated to the value-type dispatch.
#[derive(Debug, Clone, Copy, PartialEq, Eq, Hash, Structural)]
pub enum BlockType {
    Empty,
    Value(ValueType),
}

impl View for BlockType {
    type V = BlockType;

    open spec fn view(&self) -> BlockType {
        *self
    }
}

/// A function signature: the parameter types and the result types, both
/// positional and possibly empty.
#[derive(Debug, Clone, PartialEq, Eq, Hash)]
pub struct FuncType {
    pub params: Vec<ValueType>,
    pub results: Vec<ValueType>,
}

/// The mathematical view of a [`FuncType`]: the two type lists as sequences.
#[verifier::ext_equal]
pub ghost struct FuncTypeV {
    pub params: Seq<ValueType>,
    pub results: Seq<ValueType>,
}

impl View for FuncType {
    type V = FuncTypeV;

    open spec fn view(&self) -> FuncTypeV {
        FuncTypeV { params: self.params@, results: self.results@ }
    }
}

/// Resource limits: a required minimum and an optional maximum. No relation
/// between the two is enforced at this layer; a stream carrying a maximum
/// below the minimum still decodes.
#[derive(Debug, Clone, Copy, PartialEq, Eq, Hash)]
pub struct Limits {
    pub min: u32,
    pub max: Option<u32>,
}

impl View for Limits {
    type V = Limits;

    open spec fn view(&self) -> Limits {
        *self
    }
}

/// The wire shape of [`Limits`]: the optional maximum has no direct wire
/// counterpart, so the wire carries one of two tagged variants and a thin
/// conversion maps between them and the logical shape.
#[derive(Debug, Clone, Copy, PartialEq, Eq, Hash)]
pub enum LimitsRepr {
    Min { min: u32 },
    MinMax { min: u32, max: u32 },
}

impl View for LimitsRepr {
    type V = LimitsRepr;

    open spec fn view(&self) -> LimitsRepr {
        *self
    }
}

/// A memory descriptor: its limits, encoded unwrapped.
#[derive(Debug, Clone, Copy, PartialEq, Eq, Hash)]
pub struct MemType {
    pub limits: Limits,
}

impl View for MemType {
    type V = MemType;

    open spec fn view(&self) -> MemType {
        *self
    }
}

/// The element type of a table; a single variant today, still tag-encoded so
/// the wire format can grow.
#[derive(Debug, Clone, Copy, PartialEq, Eq, Hash, Structural)]
pub enum ElemType {
    FuncRef,
}

impl View for ElemType {
    type V = ElemType;

    open spec fn view(&self) -> ElemType {
        *self
    }
}

/// A table descriptor: its element type, then its limits.
#[derive(Debug, Clone, Copy, PartialEq, Eq, Hash)]
pub struct TableType {
    pub elem_type: ElemType,
    pub limits: Limits,
}

impl View for TableType {
    type V = TableType;

    open spec fn view(&self) -> TableType {
        *self
    }
}

/// A global descriptor: its value type and whether it is mutable.
#[derive(Debug, Clone, Copy, PartialEq, Eq, Hash)]
pub struct GlobalType {
    pub value_type: ValueType,
    pub mutable: bool,
}

impl View for GlobalType {
    type V = GlobalType;

    open spec fn view(&self) -> GlobalType {
        *self
    }
}

} // verus!
