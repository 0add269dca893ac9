//! Compiler for bit-level comparator and range-check circuits over the prime
//! field of order 251, proved correct end to end: the emitted constraint
//! programs are well formed, deterministic, and compute exactly the unsigned
//! comparison of their operands under the reference interpreter.  Around the
//! compiler stands the proving pipeline's data model: witness encoding, the
//! witness and public-input bundles, a small modular scalar ring, and
//! Ed25519 signing of proof material.

pub mod circuit;
pub mod common;
pub mod comparator;
pub mod correctness;
pub mod crypto;
pub mod emit;
pub mod eval;
pub mod evaluate;
pub mod fp251;
pub mod interface;
pub mod knowledge;
pub mod remote_serde;
pub mod semantics;
pub mod transform;
pub mod z655;
pub mod wellformed;
