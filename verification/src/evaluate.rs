//! Executable evaluation of generated circuits.
//!
//! These entry points compile a circuit, bind the operand bit vectors and
//! run the reference interpreter.  Their contracts carry the comparator
//! theorem down to executable results: the returned byte is 1 exactly when
//! the compared operand's unsigned value exceeds the shared operand's.

use vstd::prelude::*;
use crate::circuit::{build_program, res_sig, Family, Role, Signal};
use crate::comparator::arity_ok;
use crate::correctness::{env_has, lemma_program_correct};
use crate::eval::{
    bounded, init_bits_env, init_env, run, run_constraints, wf_from, SigEnv,
};
use crate::fp251::{b2i, is_bit};
use crate::semantics::{is_bits, val};
use crate::wellformed::{lemma_init_env_dom, lemma_program_wf};

verus! {

/// True when every entry of the vector is a boolean bit.
pub fn all_bits(v: &Vec<u8>) -> (r: bool)
    ensures
        r == is_bits(v@),
{
    let mut i: usize = 0;
    while i < v.len()
        invariant
            i <= v.len(),
            forall|j: int| 0 <= j < i ==> is_bit(#[trigger] v@[j] as int),
        decreases v.len() - i,
    {
        if v[i] > 1 {
            return false;
        }
        i = i + 1;
    }
    true
}

/// Compiles the circuit for the given mode and bit width and evaluates it on
/// the operand bit vectors, returning the full signal environment.
pub fn eval_circuit(q: usize, n: usize, a: &Vec<u8>, b: &Vec<u8>, c: &Vec<u8>) -> (env: SigEnv)
    requires
        arity_ok(q as int),
        1 <= n,
        a@.len() == n,
        b@.len() == n,
        q == 3 ==> c@.len() == n,
        q == 2 ==> c@.len() == 0,
        is_bits(a@),
        is_bits(b@),
        is_bits(c@),
    ensures
        env@ == run(init_env(a@, b@, c@), crate::circuit::program_cons(q as int, n as int)),
{
    let p = build_program(q, n);
    let mut env = init_bits_env(a, b, c);
    proof {
        assert(bounded(env@));
        lemma_program_wf(q as int, n as int);
        lemma_init_env_dom(a@, b@, c@, q as int, n as int);
        assert(wf_from(env@.dom(), p.constraints@));
    }
    let ok = run_constraints(&mut env, &p.constraints);
    proof {
        assert(ok);
    }
    env
}

/// Evaluates the comparator circuit of width `n` on operands `a` and `b`.
/// Exactly the well-shaped requests succeed, and the result is the
/// comparison indicator: 1 when `val(b) > val(a)`, else 0.
pub fn evaluate_comparator(n: usize, a: &Vec<u8>, b: &Vec<u8>) -> (r: Option<u8>)
    ensures
        r is Some <==> (1 <= n && a@.len() == n && b@.len() == n && is_bits(a@) && is_bits(b@)),
        r matches Some(v) ==> v as int == b2i(val(b@) > val(a@)),
{
    if n < 1 || a.len() != n || b.len() != n || !all_bits(a) || !all_bits(b) {
        return None;
    }
    let c: Vec<u8> = Vec::new();
    let env = eval_circuit(2, n, a, b, &c);
    proof {
        lemma_program_correct(a@, b@, c@, 2, n as int);
        assert(env_has(env@, res_sig(Family::B), b2i(val(b@) > val(a@))));
    }
    let r = env.get(&Signal { family: Family::B, role: Role::Res, index: 0 });
    match r {
        Some(v) => Some(v),
        None => None,
    }
}

/// Evaluates the range circuit of width `n` on the shared operand `a` and
/// the compared operands `b` and `c`.  The two results are independently
/// correct comparisons against `a`.
pub fn evaluate_range(n: usize, a: &Vec<u8>, b: &Vec<u8>, c: &Vec<u8>) -> (r: Option<(u8, u8)>)
    ensures
        r is Some <==> (1 <= n && a@.len() == n && b@.len() == n && c@.len() == n && is_bits(a@)
            && is_bits(b@) && is_bits(c@)),
        r matches Some(v) ==> (v.0 as int == b2i(val(b@) > val(a@)) && v.1 as int == b2i(
            val(c@) > val(a@),
        )),
{
    if n < 1 || a.len() != n || b.len() != n || c.len() != n || !all_bits(a) || !all_bits(b)
        || !all_bits(c) {
        return None;
    }
    let env = eval_circuit(3, n, a, b, c);
    proof {
        lemma_program_correct(a@, b@, c@, 3, n as int);
        assert(env_has(env@, res_sig(Family::B), b2i(val(b@) > val(a@))));
        assert(env_has(env@, res_sig(Family::C), b2i(val(c@) > val(a@))));
    }
    let rb = env.get(&Signal { family: Family::B, role: Role::Res, index: 0 });
    let rc = env.get(&Signal { family: Family::C, role: Role::Res, index: 0 });
    match (rb, rc) {
        (Some(vb), Some(vc)) => Some((vb, vc)),
        _ => None,
    }
}

} // verus!
