//! Entry points of the circuit compiler.
//!
//! A generation request is a pair of selectors: an operand count (2 selects
//! comparator mode, 3 selects range mode) and a bit width (8, 16, 32 or 64).
//! Invalid selectors are rejected with a `ConfigError` before any output is
//! produced; a validated request is compiled to a structured program and
//! serialized to its artifact text.  Generation is a pure function of the
//! two selectors, so repeated generation is byte-identical.
//!
//! A documented caveat of the gadget itself: the emitted constraints do
//! not force any operand signal to be boolean.  The comparison guarantee
//! holds for boolean assignments; a witness assignment with values near
//! the field modulus can wrap the additive encoding and change the
//! outcome.  This is a known, unresolved suspicion about the gadget's
//! arithmetic and is deliberately preserved rather than papered over:
//! callers must constrain or trust the bit-ness of the operands.

use vstd::prelude::*;
use vstd::string::{StrSliceExecFns, StringSliceAdditionalSpecFns};
use crate::circuit::{build_program, in_sigs, out_sigs, program_cons, verify_sigs, CircuitProgram};
use crate::emit::{emit_program, program_bytes};

verus! {

/// Rejection of an unsupported generation request.  No artifact is produced
/// for a rejected request.
#[derive(Clone, Copy, PartialEq, Eq, Structural, Debug)]
pub enum ConfigError {
    /// The operand count is neither 2 (comparator) nor 3 (range).
    UnsupportedOperandCount,
    /// The bit width is not one of 8, 16, 32 or 64.
    UnsupportedBitWidth,
}

/// An operand count the generator supports.
pub open spec fn arity_ok(q: int) -> bool {
    q == 2 || q == 3
}

/// A bit width the generator supports.
pub open spec fn width_ok(n: int) -> bool {
    n == 8 || n == 16 || n == 32 || n == 64
}

/// A validated generation request.
#[derive(Clone, Copy, PartialEq, Eq, Structural, Debug)]
pub struct CircuitSpec {
    pub operand_count: usize,
    pub bit_width: usize,
}

impl CircuitSpec {
    /// A request the generator accepts.
    pub open spec fn wf(self) -> bool {
        arity_ok(self.operand_count as int) && width_ok(self.bit_width as int)
    }

    /// Fail-fast validation of the two selectors: the only error source of
    /// the generator.  The operand count is examined first.
    pub fn new(operand_count: usize, bit_width: usize) -> (r: Result<CircuitSpec, ConfigError>)
        ensures
            r is Ok <==> (arity_ok(operand_count as int) && width_ok(bit_width as int)),
            r matches Ok(s) ==> (s.operand_count == operand_count && s.bit_width == bit_width
                && s.wf()),
            !arity_ok(operand_count as int) ==> (r matches Err(e) && e
                == ConfigError::UnsupportedOperandCount),
            arity_ok(operand_count as int) && !width_ok(bit_width as int) ==> (r matches Err(e)
                && e == ConfigError::UnsupportedBitWidth),
    {
        if operand_count != 2 && operand_count != 3 {
            Err(ConfigError::UnsupportedOperandCount)
        } else if bit_width != 8 && bit_width != 16 && bit_width != 32 && bit_width != 64 {
            Err(ConfigError::UnsupportedBitWidth)
        } else {
            Ok(CircuitSpec { operand_count, bit_width })
        }
    }
}

/// The request a textual tag names: an operand-count word (`COMP` or
/// `RANGE`) behind a bit-width number, or nothing for an unknown tag.
pub open spec fn tag_request(bs: Seq<u8>) -> Option<CircuitSpec> {
    if bs == seq![51u8, 50u8, 32u8, 82u8, 65u8, 78u8, 71u8, 69u8] {  // "32 RANGE"
        Some(CircuitSpec { operand_count: 3, bit_width: 32 })
    } else if bs == seq![49u8, 54u8, 32u8, 82u8, 65u8, 78u8, 71u8, 69u8] {  // "16 RANGE"
        Some(CircuitSpec { operand_count: 3, bit_width: 16 })
    } else if bs == seq![56u8, 32u8, 82u8, 65u8, 78u8, 71u8, 69u8] {  // "8 RANGE"
        Some(CircuitSpec { operand_count: 3, bit_width: 8 })
    } else if bs == seq![51u8, 50u8, 32u8, 67u8, 79u8, 77u8, 80u8] {  // "32 COMP"
        Some(CircuitSpec { operand_count: 2, bit_width: 32 })
    } else if bs == seq![49u8, 54u8, 32u8, 67u8, 79u8, 77u8, 80u8] {  // "16 COMP"
        Some(CircuitSpec { operand_count: 2, bit_width: 16 })
    } else if bs == seq![56u8, 32u8, 67u8, 79u8, 77u8, 80u8] {  // "8 COMP"
        Some(CircuitSpec { operand_count: 2, bit_width: 8 })
    } else {
        None
    }
}

/// Maps a request tag to its validated request; exactly the six known
/// tags are accepted, and every accepted request is well formed.
pub fn request_of_tag(tag: &str) -> (r: Option<CircuitSpec>)
    ensures
        r == tag_request(tag.spec_bytes()),
        r matches Some(s) ==> s.wf(),
{
    let bs = tag.as_bytes_vec();
    if bs.len() == 8 && bs[0] == 51 && bs[1] == 50 && bs[2] == 32 && bs[3] == 82 && bs[4] == 65
        && bs[5] == 78 && bs[6] == 71 && bs[7] == 69 {
        proof {
            assert(bs@ =~= seq![51u8, 50u8, 32u8, 82u8, 65u8, 78u8, 71u8, 69u8]);
        }
        Some(CircuitSpec { operand_count: 3, bit_width: 32 })
    } else if bs.len() == 8 && bs[0] == 49 && bs[1] == 54 && bs[2] == 32 && bs[3] == 82 && bs[4]
        == 65 && bs[5] == 78 && bs[6] == 71 && bs[7] == 69 {
        proof {
            assert(bs@ =~= seq![49u8, 54u8, 32u8, 82u8, 65u8, 78u8, 71u8, 69u8]);
        }
        Some(CircuitSpec { operand_count: 3, bit_width: 16 })
    } else if bs.len() == 7 && bs[0] == 56 && bs[1] == 32 && bs[2] == 82 && bs[3] == 65 && bs[4]
        == 78 && bs[5] == 71 && bs[6] == 69 {
        proof {
            assert(bs@ =~= seq![56u8, 32u8, 82u8, 65u8, 78u8, 71u8, 69u8]);
        }
        Some(CircuitSpec { operand_count: 3, bit_width: 8 })
    } else if bs.len() == 7 && bs[0] == 51 && bs[1] == 50 && bs[2] == 32 && bs[3] == 67 && bs[4]
        == 79 && bs[5] == 77 && bs[6] == 80 {
        proof {
            assert(bs@ =~= seq![51u8, 50u8, 32u8, 67u8, 79u8, 77u8, 80u8]);
        }
        Some(CircuitSpec { operand_count: 2, bit_width: 32 })
    } else if bs.len() == 7 && bs[0] == 49 && bs[1] == 54 && bs[2] == 32 && bs[3] == 67 && bs[4]
        == 79 && bs[5] == 77 && bs[6] == 80 {
        proof {
            assert(bs@ =~= seq![49u8, 54u8, 32u8, 67u8, 79u8, 77u8, 80u8]);
        }
        Some(CircuitSpec { operand_count: 2, bit_width: 16 })
    } else if bs.len() == 6 && bs[0] == 56 && bs[1] == 32 && bs[2] == 67 && bs[3] == 79 && bs[4]
        == 77 && bs[5] == 80 {
        proof {
            assert(bs@ =~= seq![56u8, 32u8, 67u8, 79u8, 77u8, 80u8]);
        }
        Some(CircuitSpec { operand_count: 2, bit_width: 8 })
    } else {
        proof {
            assert(bs@ != seq![51u8, 50u8, 32u8, 82u8, 65u8, 78u8, 71u8, 69u8]);
            assert(bs@ != seq![49u8, 54u8, 32u8, 82u8, 65u8, 78u8, 71u8, 69u8]);
            assert(bs@ != seq![56u8, 32u8, 82u8, 65u8, 78u8, 71u8, 69u8]);
            assert(bs@ != seq![51u8, 50u8, 32u8, 67u8, 79u8, 77u8, 80u8]);
            assert(bs@ != seq![49u8, 54u8, 32u8, 67u8, 79u8, 77u8, 80u8]);
            assert(bs@ != seq![56u8, 32u8, 67u8, 79u8, 77u8, 80u8]);
        }
        None
    }
}

/// The artifact text generated for operand count `q` and bit width `n`.
pub open spec fn circuit_bytes(q: int, n: int) -> Seq<u8> {
    program_bytes(in_sigs(q, n), out_sigs(q), verify_sigs(q, n), program_cons(q, n))
}

/// Compiles a validated request into its structured program.
pub fn compile(spec: &CircuitSpec) -> (p: CircuitProgram)
    requires
        spec.wf(),
    ensures
        p.inputs@ == in_sigs(spec.operand_count as int, spec.bit_width as int),
        p.outputs@ == out_sigs(spec.operand_count as int),
        p.verify@ == verify_sigs(spec.operand_count as int, spec.bit_width as int),
        p.constraints@ == program_cons(spec.operand_count as int, spec.bit_width as int),
{
    build_program(spec.operand_count, spec.bit_width)
}

/// Generates the artifact text of a validated request.
pub fn generate(spec: &CircuitSpec) -> (r: Vec<u8>)
    requires
        spec.wf(),
    ensures
        r@ == circuit_bytes(spec.operand_count as int, spec.bit_width as int),
{
    let p = compile(spec);
    emit_program(&p)
}

/// Validates the two selectors and generates the artifact text.  Exactly the
/// unsupported requests are rejected, each with its configuration error, and
/// a rejected request produces no output at all.
pub fn generate_checked(operand_count: usize, bit_width: usize) -> (r: Result<Vec<u8>, ConfigError>)
    ensures
        r matches Ok(text) ==> text@ == circuit_bytes(operand_count as int, bit_width as int),
        r is Ok <==> (arity_ok(operand_count as int) && width_ok(bit_width as int)),
        !arity_ok(operand_count as int) ==> (r matches Err(e) && e
            == ConfigError::UnsupportedOperandCount),
        arity_ok(operand_count as int) && !width_ok(bit_width as int) ==> (r matches Err(e) && e
            == ConfigError::UnsupportedBitWidth),
{
    match CircuitSpec::new(operand_count, bit_width) {
        Ok(spec) => Ok(generate(&spec)),
        Err(e) => Err(e),
    }
}

/// Determinism of generation: the artifact text is a function of the two
/// selectors alone, so any two generation runs for the same request yield
/// byte-identical output.
pub proof fn lemma_generation_deterministic(r1: Seq<u8>, r2: Seq<u8>, q: int, n: int)
    requires
        r1 == circuit_bytes(q, n),
        r2 == circuit_bytes(q, n),
    ensures
        r1 == r2,
{
}

} // verus!
