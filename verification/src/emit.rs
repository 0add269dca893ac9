//! Serialization of a structured circuit program into the S-expression text
//! consumed by the downstream constraint-system front end.
//!
//! The emitted artifact has exactly four top-level forms:
//! `(in ...)`, `(out ...)`, `(verify ...)` and `(program ...)`, the last
//! holding one `(= target (* factor factor))` line per constraint.  The text
//! is pinned byte for byte by the spec functions here: signal names, the
//! constant literals `1` and `250`, spacing and line breaks.

use vstd::prelude::*;
use crate::circuit::{CircuitProgram, Constraint, Factor, Family, Role, Signal};

verus! {

/// Decimal digits of `n`, most significant first.
pub open spec fn dec_bytes(n: nat) -> Seq<u8>
    decreases n,
{
    if n < 10 {
        seq![(48 + n) as u8]
    } else {
        dec_bytes(n / 10).push((48 + n % 10) as u8)
    }
}

/// Lower-case family letter, used for raw operand bits.
pub open spec fn fam_low(f: Family) -> Seq<u8> {
    match f {
        Family::A => seq![97u8],
        Family::B => seq![98u8],
        Family::C => seq![99u8],
    }
}

/// Upper-case family letter, used inside intermediate signal names.
pub open spec fn fam_up(f: Family) -> Seq<u8> {
    match f {
        Family::A => seq![65u8],
        Family::B => seq![66u8],
        Family::C => seq![67u8],
    }
}

/// The name prefix of a role within a family: everything before the
/// decimal index digits.  No prefix byte is a digit.
pub open spec fn prefix_bytes(f: Family, r: Role) -> Seq<u8> {
    match r {
        Role::Bit => fam_low(f),
        Role::Diff => seq![100u8, 105u8, 102u8, 102u8] + fam_up(f) + seq![95u8],
        Role::Acc => seq![97u8, 99u8, 99u8] + fam_up(f) + seq![95u8],
        Role::AccAux => seq![97u8, 99u8, 99u8] + fam_up(f) + seq![95u8, 105u8],
        Role::Fdiff => seq![102u8, 100u8, 105u8, 102u8, 102u8] + fam_up(f) + seq![95u8],
        Role::Chk => seq![99u8, 104u8, 107u8, 97u8] + fam_up(f) + seq![95u8],
        Role::Res => seq![114u8, 101u8, 115u8] + fam_up(f) + seq![95u8],
        Role::ResAux => seq![114u8, 101u8, 115u8] + fam_up(f) + seq![95u8, 105u8],
    }
}

/// The rendered name of a signal, e.g. `a0`, `diffB_3`, `accC_i7`,
/// `resB_0`: the role prefix followed by the decimal bit index.
pub open spec fn name_bytes(s: Signal) -> Seq<u8> {
    prefix_bytes(s.family, s.role) + dec_bytes(s.index as nat)
}

/// Decimal renderings are nonempty and consist of digit bytes.
pub proof fn lemma_dec_digits(n: nat)
    ensures
        dec_bytes(n).len() >= 1,
        forall|j: int| 0 <= j < dec_bytes(n).len() ==> 48 <= #[trigger] dec_bytes(n)[j] <= 57,
    decreases n,
{
    if n >= 10 {
        lemma_dec_digits(n / 10);
    }
}

/// Decimal rendering is injective.
pub proof fn lemma_dec_injective(m: nat, n: nat)
    requires
        dec_bytes(m) == dec_bytes(n),
    ensures
        m == n,
    decreases m,
{
    lemma_dec_digits(m);
    lemma_dec_digits(n);
    if m < 10 && n < 10 {
        assert(dec_bytes(m)[0] == (48 + m) as u8);
        assert(dec_bytes(n)[0] == (48 + n) as u8);
        assert(dec_bytes(m)[0] == dec_bytes(n)[0]);
        assert(48 + m < 256 && 48 + n < 256);
    } else if m < 10 {
        lemma_dec_digits(n / 10);
        assert(dec_bytes(n).len() >= 2);
        assert(false);
    } else if n < 10 {
        lemma_dec_digits(m / 10);
        assert(dec_bytes(m).len() >= 2);
        assert(false);
    } else {
        assert(dec_bytes(m) == dec_bytes(m / 10).push((48 + m % 10) as u8));
        assert(dec_bytes(n) == dec_bytes(n / 10).push((48 + n % 10) as u8));
        assert(dec_bytes(m / 10).push((48 + m % 10) as u8).last() == (48 + m % 10) as u8);
        assert(dec_bytes(n / 10).push((48 + n % 10) as u8).last() == (48 + n % 10) as u8);
        assert(dec_bytes(m).last() == dec_bytes(n).last());
        assert((48 + m % 10) as u8 == (48 + n % 10) as u8);
        assert(m % 10 == n % 10);
        assert(dec_bytes(m).drop_last() =~= dec_bytes(m / 10));
        assert(dec_bytes(n).drop_last() =~= dec_bytes(n / 10));
        lemma_dec_injective(m / 10, n / 10);
        assert(m == 10 * (m / 10) + m % 10);
        assert(n == 10 * (n / 10) + n % 10);
    }
}

/// No prefix byte is a decimal digit.
proof fn lemma_prefix_no_digit(f: Family, r: Role)
    ensures
        1 <= prefix_bytes(f, r).len() <= 7,
        forall|j: int|
            0 <= j < prefix_bytes(f, r).len() ==> !(48 <= #[trigger] prefix_bytes(f, r)[j] <= 57),
{
    assert forall|j: int|
        0 <= j < prefix_bytes(f, r).len() implies !(48 <= #[trigger] prefix_bytes(f, r)[j]
        <= 57) by {
        let p = prefix_bytes(f, r);
        assert(p[j] == 65 || p[j] == 66 || p[j] == 67 || p[j] == 95 || p[j] == 97 || p[j] == 98
            || p[j] == 99 || p[j] == 100 || p[j] == 101 || p[j] == 102 || p[j] == 104 || p[j]
            == 105 || p[j] == 107 || p[j] == 114 || p[j] == 115);
    }
}

/// Distinct role-family pairs render distinct prefixes.
#[verifier::rlimit(100)]
proof fn lemma_prefix_injective(f1: Family, r1: Role, f2: Family, r2: Role)
    requires
        prefix_bytes(f1, r1) == prefix_bytes(f2, r2),
    ensures
        f1 == f2,
        r1 == r2,
{
    let p1 = prefix_bytes(f1, r1);
    let p2 = prefix_bytes(f2, r2);
    assert(p1.len() == p2.len());
    assert(p1[0] == p2[0]);
    if p1.len() >= 2 {
        assert(p1[1] == p2[1]);
    }
    if p1.len() >= 3 {
        assert(p1[2] == p2[2]);
    }
    if p1.len() >= 4 {
        assert(p1[3] == p2[3]);
    }
    if p1.len() >= 5 {
        assert(p1[4] == p2[4]);
    }
    if p1.len() >= 6 {
        assert(p1[5] == p2[5]);
    }
    if p1.len() >= 7 {
        assert(p1[6] == p2[6]);
    }
}

/// The naming contract: two distinct signals never collide in their
/// rendered names, so the flat names are a faithful address space.
pub proof fn lemma_name_bytes_injective(s1: Signal, s2: Signal)
    requires
        name_bytes(s1) == name_bytes(s2),
    ensures
        s1 == s2,
{
    let p1 = prefix_bytes(s1.family, s1.role);
    let p2 = prefix_bytes(s2.family, s2.role);
    let d1 = dec_bytes(s1.index as nat);
    let d2 = dec_bytes(s2.index as nat);
    lemma_prefix_no_digit(s1.family, s1.role);
    lemma_prefix_no_digit(s2.family, s2.role);
    lemma_dec_digits(s1.index as nat);
    lemma_dec_digits(s2.index as nat);
    // Equal prefix lengths: otherwise a digit byte would stand where the
    // longer prefix still has a non-digit byte.
    if p1.len() < p2.len() {
        assert((p1 + d1)[p1.len() as int] == d1[0]);
        assert((p2 + d2)[p1.len() as int] == p2[p1.len() as int]);
        assert(false);
    }
    if p2.len() < p1.len() {
        assert((p2 + d2)[p2.len() as int] == d2[0]);
        assert((p1 + d1)[p2.len() as int] == p1[p2.len() as int]);
        assert(false);
    }
    assert(p1 =~= p2) by {
        assert forall|j: int| 0 <= j < p1.len() implies p1[j] == p2[j] by {
            assert((p1 + d1)[j] == p1[j]);
            assert((p2 + d2)[j] == p2[j]);
        }
    }
    lemma_prefix_injective(s1.family, s1.role, s2.family, s2.role);
    assert((p1 + d1).len() == (p2 + d2).len());
    assert(d1.len() == d2.len());
    assert(d1 =~= d2) by {
        assert forall|j: int| 0 <= j < d1.len() implies d1[j] == d2[j] by {
            assert((p1 + d1)[p1.len() + j] == d1[j]);
            assert((p2 + d2)[p2.len() + j] == d2[j]);
        }
    }
    lemma_dec_injective(s1.index as nat, s2.index as nat);
}

/// A declared signal list: one space before each name.
pub open spec fn list_bytes(sigs: Seq<Signal>) -> Seq<u8>
    decreases sigs.len(),
{
    if sigs.len() == 0 {
        Seq::empty()
    } else {
        list_bytes(sigs.drop_last()) + seq![32u8] + name_bytes(sigs.last())
    }
}

/// One factor: the identity literal, a signal name, or a sum form.
pub open spec fn factor_bytes(f: Factor) -> Seq<u8> {
    match f {
        Factor::One => seq![49u8],
        Factor::Var(s) => name_bytes(s),
        Factor::SubSum(s1, s2) => seq![40u8, 43u8, 32u8] + name_bytes(s1) + seq![
            32u8,
            40u8,
            42u8,
            32u8,
            50u8,
            53u8,
            48u8,
            32u8,
        ] + name_bytes(s2) + seq![41u8, 41u8],
        Factor::OrSum(s1, s2, s3) => seq![40u8, 43u8, 32u8] + name_bytes(s1) + seq![32u8]
            + name_bytes(s2) + seq![32u8, 40u8, 42u8, 32u8, 50u8, 53u8, 48u8, 32u8] + name_bytes(s3)
            + seq![41u8, 41u8],
    }
}

/// One constraint line, indented three spaces and newline-terminated.
pub open spec fn con_bytes(c: Constraint) -> Seq<u8> {
    seq![32u8, 32u8, 32u8, 40u8, 61u8, 32u8] + name_bytes(c.target) + seq![32u8, 40u8, 42u8, 32u8]
        + factor_bytes(c.left) + seq![32u8] + factor_bytes(c.right) + seq![41u8, 41u8, 10u8]
}

/// The constraint lines in program order.
pub open spec fn cons_bytes(cs: Seq<Constraint>) -> Seq<u8>
    decreases cs.len(),
{
    if cs.len() == 0 {
        Seq::empty()
    } else {
        cons_bytes(cs.drop_last()) + con_bytes(cs.last())
    }
}

/// The three declaration lines and the opening of the `program` form.
pub open spec fn header_bytes(ins: Seq<Signal>, outs: Seq<Signal>, vers: Seq<Signal>) -> Seq<u8> {
    seq![40u8, 105u8, 110u8] + list_bytes(ins) + seq![41u8, 10u8] + seq![40u8, 111u8, 117u8, 116u8]
        + list_bytes(outs) + seq![41u8, 10u8] + seq![40u8, 118u8, 101u8, 114u8, 105u8, 102u8, 121u8]
        + list_bytes(vers) + seq![41u8, 10u8] + seq![
        40u8,
        112u8,
        114u8,
        111u8,
        103u8,
        114u8,
        97u8,
        109u8,
        10u8,
    ]
}

/// The complete artifact text for the given declared lists and constraints.
pub open spec fn program_bytes(
    ins: Seq<Signal>,
    outs: Seq<Signal>,
    vers: Seq<Signal>,
    cs: Seq<Constraint>,
) -> Seq<u8> {
    header_bytes(ins, outs, vers) + cons_bytes(cs) + seq![41u8, 10u8]
}

/// Appends the decimal digits of `n`.
fn push_dec(out: &mut Vec<u8>, n: usize)
    ensures
        final(out)@ == old(out)@ + dec_bytes(n as nat),
    decreases n,
{
    if n < 10 {
        out.push(48 + (n as u8));
    } else {
        push_dec(out, n / 10);
        out.push(48 + ((n % 10) as u8));
        proof {
            assert(final(out)@ =~= old(out)@ + dec_bytes(n as nat));
        }
    }
}

/// Appends the upper-case family letter.
fn push_fam_up(out: &mut Vec<u8>, f: Family)
    ensures
        final(out)@ == old(out)@ + fam_up(f),
{
    match f {
        Family::A => out.push(65u8),
        Family::B => out.push(66u8),
        Family::C => out.push(67u8),
    }
}

/// Appends the rendered name of a signal.
fn push_name(out: &mut Vec<u8>, s: Signal)
    ensures
        final(out)@ == old(out)@ + name_bytes(s),
{
    match s.role {
        Role::Bit => {
            match s.family {
                Family::A => out.push(97u8),
                Family::B => out.push(98u8),
                Family::C => out.push(99u8),
            }
            push_dec(out, s.index);
        },
        Role::Diff => {
            out.push(100u8);
            out.push(105u8);
            out.push(102u8);
            out.push(102u8);
            push_fam_up(out, s.family);
            out.push(95u8);
            push_dec(out, s.index);
        },
        Role::Acc => {
            out.push(97u8);
            out.push(99u8);
            out.push(99u8);
            push_fam_up(out, s.family);
            out.push(95u8);
            push_dec(out, s.index);
        },
        Role::AccAux => {
            out.push(97u8);
            out.push(99u8);
            out.push(99u8);
            push_fam_up(out, s.family);
            out.push(95u8);
            out.push(105u8);
            push_dec(out, s.index);
        },
        Role::Fdiff => {
            out.push(102u8);
            out.push(100u8);
            out.push(105u8);
            out.push(102u8);
            out.push(102u8);
            push_fam_up(out, s.family);
            out.push(95u8);
            push_dec(out, s.index);
        },
        Role::Chk => {
            out.push(99u8);
            out.push(104u8);
            out.push(107u8);
            out.push(97u8);
            push_fam_up(out, s.family);
            out.push(95u8);
            push_dec(out, s.index);
        },
        Role::Res => {
            out.push(114u8);
            out.push(101u8);
            out.push(115u8);
            push_fam_up(out, s.family);
            out.push(95u8);
            push_dec(out, s.index);
        },
        Role::ResAux => {
            out.push(114u8);
            out.push(101u8);
            out.push(115u8);
            push_fam_up(out, s.family);
            out.push(95u8);
            out.push(105u8);
            push_dec(out, s.index);
        },
    }
    proof {
        assert(final(out)@ =~= old(out)@ + name_bytes(s));
    }
}

/// Appends a declared signal list, one space before each name.
fn push_list(out: &mut Vec<u8>, sigs: &Vec<Signal>)
    ensures
        final(out)@ == old(out)@ + list_bytes(sigs@),
{
    let mut i: usize = 0;
    while i < sigs.len()
        invariant
            i <= sigs.len(),
            out@ == old(out)@ + list_bytes(sigs@.take(i as int)),
        decreases sigs.len() - i,
    {
        out.push(32u8);
        push_name(out, sigs[i]);
        proof {
            assert(sigs@.take(i + 1 as int).drop_last() =~= sigs@.take(i as int));
            assert(out@ =~= old(out)@ + list_bytes(sigs@.take(i + 1 as int)));
        }
        i = i + 1;
    }
    proof {
        assert(sigs@.take(sigs@.len() as int) =~= sigs@);
    }
}

/// Appends one factor.
#[verifier::rlimit(60)]
fn push_factor(out: &mut Vec<u8>, f: &Factor)
    ensures
        final(out)@ == old(out)@ + factor_bytes(*f),
{
    match f {
        Factor::One => {
            out.push(49u8);
        },
        Factor::Var(s) => {
            push_name(out, *s);
        },
        Factor::SubSum(s1, s2) => {
            out.push(40u8);
            out.push(43u8);
            out.push(32u8);
            push_name(out, *s1);
            out.push(32u8);
            out.push(40u8);
            out.push(42u8);
            out.push(32u8);
            out.push(50u8);
            out.push(53u8);
            out.push(48u8);
            out.push(32u8);
            push_name(out, *s2);
            out.push(41u8);
            out.push(41u8);
        },
        Factor::OrSum(s1, s2, s3) => {
            out.push(40u8);
            out.push(43u8);
            out.push(32u8);
            push_name(out, *s1);
            out.push(32u8);
            push_name(out, *s2);
            out.push(32u8);
            out.push(40u8);
            out.push(42u8);
            out.push(32u8);
            out.push(50u8);
            out.push(53u8);
            out.push(48u8);
            out.push(32u8);
            push_name(out, *s3);
            out.push(41u8);
            out.push(41u8);
        },
    }
    proof {
        assert(final(out)@ =~= old(out)@ + factor_bytes(*f));
    }
}

/// Appends one constraint line.
fn push_con(out: &mut Vec<u8>, c: &Constraint)
    ensures
        final(out)@ == old(out)@ + con_bytes(*c),
{
    out.push(32u8);
    out.push(32u8);
    out.push(32u8);
    out.push(40u8);
    out.push(61u8);
    out.push(32u8);
    push_name(out, c.target);
    out.push(32u8);
    out.push(40u8);
    out.push(42u8);
    out.push(32u8);
    push_factor(out, &c.left);
    out.push(32u8);
    push_factor(out, &c.right);
    out.push(41u8);
    out.push(41u8);
    out.push(10u8);
    proof {
        assert(final(out)@ =~= old(out)@ + con_bytes(*c));
    }
}

/// Serializes a structured program into its artifact text.
#[verifier::rlimit(60)]
pub fn emit_program(p: &CircuitProgram) -> (r: Vec<u8>)
    ensures
        r@ == program_bytes(p.inputs@, p.outputs@, p.verify@, p.constraints@),
{
    let mut out: Vec<u8> = Vec::new();
    out.push(40u8);
    out.push(105u8);
    out.push(110u8);
    push_list(&mut out, &p.inputs);
    out.push(41u8);
    out.push(10u8);
    out.push(40u8);
    out.push(111u8);
    out.push(117u8);
    out.push(116u8);
    push_list(&mut out, &p.outputs);
    out.push(41u8);
    out.push(10u8);
    out.push(40u8);
    out.push(118u8);
    out.push(101u8);
    out.push(114u8);
    out.push(105u8);
    out.push(102u8);
    out.push(121u8);
    push_list(&mut out, &p.verify);
    out.push(41u8);
    out.push(10u8);
    out.push(40u8);
    out.push(112u8);
    out.push(114u8);
    out.push(111u8);
    out.push(103u8);
    out.push(114u8);
    out.push(97u8);
    out.push(109u8);
    out.push(10u8);
    let mut i: usize = 0;
    while i < p.constraints.len()
        invariant
            i <= p.constraints.len(),
            out@ == header_bytes(p.inputs@, p.outputs@, p.verify@) + cons_bytes(
                p.constraints@.take(i as int),
            ),
        decreases p.constraints.len() - i,
    {
        push_con(&mut out, &p.constraints[i]);
        proof {
            assert(p.constraints@.take(i + 1 as int).drop_last() =~= p.constraints@.take(i as int));
            assert(cons_bytes(p.constraints@.take(i + 1 as int)) =~= cons_bytes(
                p.constraints@.take(i as int),
            ) + con_bytes(p.constraints@[i as int]));
        }
        i = i + 1;
    }
    out.push(41u8);
    out.push(10u8);
    proof {
        assert(p.constraints@.take(p.constraints@.len() as int) =~= p.constraints@);
        assert(out@ =~= program_bytes(p.inputs@, p.outputs@, p.verify@, p.constraints@));
    }
    out
}

} // verus!
