//! Binary codec for the WebAssembly type-section grammar: value types, block
//! types, function signatures, limits, and the memory/table/global
//! descriptors built from them.
//!
//! Every grammar type implements [`wire::Wire`], which couples the executable
//! encoder and decoder to a mathematical description of the wire format and
//! carries the proofs that the two agree: decoding an encoding returns the
//! encoded value whatever bytes follow it, and a truncated encoding is
//! rejected, never misread. [`product`] composes field codecs once for every
//! product shape, and [`collection`] does the same for counted sequences of
//! any element type. [`visit`] adds a traversal
//! capability over the same shapes: enumerating the leaves of a value, and
//! rebuilding it with every leaf transformed, depth-first and cancellable.
//! [`laws`] states the library-wide round-trip and rejection theorems, and
//! [`text`] renders values for diagnostics.

pub mod codec;
pub mod collection;
pub mod error;
pub mod laws;
pub mod product;
pub mod text;
pub mod types;
pub mod visit;
pub mod wire;
