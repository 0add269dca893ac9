//! Mirror of the proving engine's quadratic-arithmetic-program shape.
//!
//! The engine's own QAP type keeps its fields private; this mirror lays
//! out the same data — the three polynomial columns, the target
//! polynomial, the public-input count and the degree — so that reference
//! material can be rebuilt or serialized without reaching into the
//! engine's internals.

use vstd::prelude::*;

verus! {

/// The shape of a quadratic arithmetic program over polynomials `P`.
pub struct QAPDef<P> {
    pub u: Vec<P>,
    pub v: Vec<P>,
    pub w: Vec<P>,
    pub t: P,
    pub input: usize,
    pub degree: usize,
}

} // verus!
