//! Structured form of the emitted comparator circuits.
//!
//! A signal is addressed by an operand family, a role and a bit index rather
//! than by a concatenated name string; names appear only at the serialization
//! boundary.  A constraint assigns the product of two factors to a target
//! signal, and a program is the fixed-order sequence of constraints together
//! with its declared input, output and publicly verified signal lists.
//!
//! The constraint order is pipeline order: per stage, the `B` family block
//! first, then (in range mode) the `C` family block.  The `Diff` and `Chk`
//! stages walk the bit index upward; the three fold stages (`Acc`, `Fdiff`,
//! `Res`) walk it downward from the most significant position `n-1` (bit
//! index 0 is the least significant position).

use vstd::prelude::*;

verus! {

/// Operand family of a signal: the shared operand `A`, or one of the two
/// compared operands `B` and `C`.
#[derive(Clone, Copy, PartialEq, Eq, Structural, Debug)]
pub enum Family {
    A,
    B,
    C,
}

/// Role of a signal within one compared pair's pipeline.
#[derive(Clone, Copy, PartialEq, Eq, Structural, Debug)]
pub enum Role {
    /// A raw operand bit (circuit input).
    Bit,
    /// Per-bit inequality indicator.
    Diff,
    /// OR fold of `Diff` from the most significant position down.
    Acc,
    /// Product helper of the `Acc` OR fold.
    AccAux,
    /// Transition indicator: 1 exactly at the most significant differing bit.
    Fdiff,
    /// The compared operand's bit isolated at the transition position.
    Chk,
    /// OR fold of `Chk`; index 0 carries the pair's boolean result.
    Res,
    /// Product helper of the `Res` OR fold.
    ResAux,
}

/// A named slot in the emitted circuit.
#[derive(Clone, Copy, PartialEq, Eq, Structural, Debug)]
pub struct Signal {
    pub family: Family,
    pub role: Role,
    pub index: usize,
}

/// One multiplicand of a constraint.
#[derive(Clone, Copy, PartialEq, Eq, Structural, Debug)]
pub enum Factor {
    /// The literal field identity `1`.
    One,
    /// A single signal.
    Var(Signal),
    /// `s1 + 250*s2`: the field encoding of `s1 - s2`.
    SubSum(Signal, Signal),
    /// `s1 + s2 + 250*s3`: with `s3 == s1*s2`, the field encoding of OR.
    OrSum(Signal, Signal, Signal),
}

/// One quadratic constraint: `target = left * right`.
#[derive(Clone, Copy, PartialEq, Eq, Structural, Debug)]
pub struct Constraint {
    pub target: Signal,
    pub left: Factor,
    pub right: Factor,
}

/// A complete circuit program: declared signal lists plus the ordered
/// constraints.  Constraint order is dependency order: every signal read by a
/// constraint is a declared input or the target of an earlier constraint.
pub struct CircuitProgram {
    pub inputs: Vec<Signal>,
    pub outputs: Vec<Signal>,
    pub verify: Vec<Signal>,
    pub constraints: Vec<Constraint>,
}

/// Signal constructor over mathematical indices.
pub open spec fn sig(family: Family, role: Role, index: int) -> Signal {
    Signal { family, role, index: index as usize }
}

/// The raw operand bit `i` of a family.
pub open spec fn bit_sig(f: Family, i: int) -> Signal {
    sig(f, Role::Bit, i)
}

/// The terminal result signal of a compared pair.
pub open spec fn res_sig(y: Family) -> Signal {
    sig(y, Role::Res, 0)
}

/// The `Diff` constraint for bit `i` of pair `(A, y)`:
/// `diff[i] = (a[i] + 250*y[i]) * (a[i] + 250*y[i])`.
pub open spec fn diff_con(y: Family, i: int) -> Constraint {
    Constraint {
        target: sig(y, Role::Diff, i),
        left: Factor::SubSum(bit_sig(Family::A, i), bit_sig(y, i)),
        right: Factor::SubSum(bit_sig(Family::A, i), bit_sig(y, i)),
    }
}

/// The first `k` `Diff` constraints, emitted for bit indices `0..k` upward.
pub open spec fn diff_block(y: Family, k: nat) -> Seq<Constraint>
    decreases k,
{
    if k == 0 {
        Seq::empty()
    } else {
        diff_block(y, (k - 1) as nat).push(diff_con(y, k - 1))
    }
}

/// The `Acc` constraints for bit `i`: the fold base at `i == n-1`, else the
/// product helper followed by the OR combination.
pub open spec fn acc_step(y: Family, n: int, i: int) -> Seq<Constraint> {
    if i == n - 1 {
        seq![
            Constraint {
                target: sig(y, Role::Acc, i),
                left: Factor::One,
                right: Factor::Var(sig(y, Role::Diff, i)),
            },
        ]
    } else {
        seq![
            Constraint {
                target: sig(y, Role::AccAux, i),
                left: Factor::Var(sig(y, Role::Acc, i + 1)),
                right: Factor::Var(sig(y, Role::Diff, i)),
            },
            Constraint {
                target: sig(y, Role::Acc, i),
                left: Factor::One,
                right: Factor::OrSum(
                    sig(y, Role::Acc, i + 1),
                    sig(y, Role::Diff, i),
                    sig(y, Role::AccAux, i),
                ),
            },
        ]
    }
}

/// The first `k` `Acc` steps, emitted for bit indices `n-1` downward.
pub open spec fn acc_block(y: Family, n: int, k: nat) -> Seq<Constraint>
    decreases k,
{
    if k == 0 {
        Seq::empty()
    } else {
        acc_block(y, n, (k - 1) as nat) + acc_step(y, n, n - k)
    }
}

/// The `Fdiff` constraint for bit `i`: the `Acc` value itself at `i == n-1`,
/// else the squared difference of consecutive `Acc` values.
pub open spec fn fdiff_con(y: Family, n: int, i: int) -> Constraint {
    if i == n - 1 {
        Constraint {
            target: sig(y, Role::Fdiff, i),
            left: Factor::One,
            right: Factor::Var(sig(y, Role::Acc, i)),
        }
    } else {
        Constraint {
            target: sig(y, Role::Fdiff, i),
            left: Factor::SubSum(sig(y, Role::Acc, i + 1), sig(y, Role::Acc, i)),
            right: Factor::SubSum(sig(y, Role::Acc, i + 1), sig(y, Role::Acc, i)),
        }
    }
}

/// The first `k` `Fdiff` constraints, emitted for bit indices `n-1` downward.
pub open spec fn fdiff_block(y: Family, n: int, k: nat) -> Seq<Constraint>
    decreases k,
{
    if k == 0 {
        Seq::empty()
    } else {
        fdiff_block(y, n, (k - 1) as nat).push(fdiff_con(y, n, n - k))
    }
}

/// The `Chk` constraint for bit `i`: `chk[i] = y[i] * fdiff[i]`.
pub open spec fn chk_con(y: Family, i: int) -> Constraint {
    Constraint {
        target: sig(y, Role::Chk, i),
        left: Factor::Var(bit_sig(y, i)),
        right: Factor::Var(sig(y, Role::Fdiff, i)),
    }
}

/// The first `k` `Chk` constraints, emitted for bit indices `0..k` upward.
pub open spec fn chk_block(y: Family, k: nat) -> Seq<Constraint>
    decreases k,
{
    if k == 0 {
        Seq::empty()
    } else {
        chk_block(y, (k - 1) as nat).push(chk_con(y, k - 1))
    }
}

/// The `Res` constraints for bit `i`: same fold shape as `Acc`, over `Chk`.
pub open spec fn res_step(y: Family, n: int, i: int) -> Seq<Constraint> {
    if i == n - 1 {
        seq![
            Constraint {
                target: sig(y, Role::Res, i),
                left: Factor::One,
                right: Factor::Var(sig(y, Role::Chk, i)),
            },
        ]
    } else {
        seq![
            Constraint {
                target: sig(y, Role::ResAux, i),
                left: Factor::Var(sig(y, Role::Res, i + 1)),
                right: Factor::Var(sig(y, Role::Chk, i)),
            },
            Constraint {
                target: sig(y, Role::Res, i),
                left: Factor::One,
                right: Factor::OrSum(
                    sig(y, Role::Res, i + 1),
                    sig(y, Role::Chk, i),
                    sig(y, Role::ResAux, i),
                ),
            },
        ]
    }
}

/// The first `k` `Res` steps, emitted for bit indices `n-1` downward.
pub open spec fn res_block(y: Family, n: int, k: nat) -> Seq<Constraint>
    decreases k,
{
    if k == 0 {
        Seq::empty()
    } else {
        res_block(y, n, (k - 1) as nat) + res_step(y, n, n - k)
    }
}

/// A stage segment: the `B` block alone in comparator mode, the `B` block
/// followed by the `C` block in range mode.
pub open spec fn seg(q: int, b: Seq<Constraint>, c: Seq<Constraint>) -> Seq<Constraint> {
    if q == 3 {
        b + c
    } else {
        b
    }
}

/// The full constraint sequence of a program with operand count `q` and bit
/// width `n`, in pipeline order.
pub open spec fn program_cons(q: int, n: int) -> Seq<Constraint> {
    seg(q, diff_block(Family::B, n as nat), diff_block(Family::C, n as nat)) + seg(
        q,
        acc_block(Family::B, n, n as nat),
        acc_block(Family::C, n, n as nat),
    ) + seg(q, fdiff_block(Family::B, n, n as nat), fdiff_block(Family::C, n, n as nat)) + seg(
        q,
        chk_block(Family::B, n as nat),
        chk_block(Family::C, n as nat),
    ) + seg(q, res_block(Family::B, n, n as nat), res_block(Family::C, n, n as nat))
}

/// The raw operand bits of one family, in index order.
pub open spec fn bit_sigs(f: Family, n: int) -> Seq<Signal> {
    Seq::new(n as nat, |i: int| bit_sig(f, i))
}

/// Declared inputs: `A`'s bits, then `B`'s, then `C`'s in range mode.
pub open spec fn in_sigs(q: int, n: int) -> Seq<Signal> {
    if q == 3 {
        bit_sigs(Family::A, n) + bit_sigs(Family::B, n) + bit_sigs(Family::C, n)
    } else {
        bit_sigs(Family::A, n) + bit_sigs(Family::B, n)
    }
}

/// Declared outputs: the terminal result of each compared pair.
pub open spec fn out_sigs(q: int) -> Seq<Signal> {
    if q == 3 {
        seq![res_sig(Family::B), res_sig(Family::C)]
    } else {
        seq![res_sig(Family::B)]
    }
}

/// Publicly verified signals: each pair's result followed by that pair's
/// public operand bits.
pub open spec fn verify_sigs(q: int, n: int) -> Seq<Signal> {
    if q == 3 {
        seq![res_sig(Family::B)] + bit_sigs(Family::B, n) + seq![res_sig(Family::C)] + bit_sigs(
            Family::C,
            n,
        )
    } else {
        seq![res_sig(Family::B)] + bit_sigs(Family::B, n)
    }
}

fn push_bit_sigs(v: &mut Vec<Signal>, f: Family, n: usize)
    ensures
        final(v)@ == old(v)@ + bit_sigs(f, n as int),
{
    let mut i: usize = 0;
    while i < n
        invariant
            i <= n,
            v@ == old(v)@ + bit_sigs(f, i as int),
        decreases n - i,
    {
        v.push(Signal { family: f, role: Role::Bit, index: i });
        proof {
            assert(v@ =~= old(v)@ + bit_sigs(f, (i + 1) as int));
        }
        i = i + 1;
    }
    proof {
        assert(v@ =~= old(v)@ + bit_sigs(f, n as int));
    }
}

fn push_diff_block(cons: &mut Vec<Constraint>, y: Family, n: usize)
    ensures
        final(cons)@ == old(cons)@ + diff_block(y, n as nat),
{
    let mut i: usize = 0;
    while i < n
        invariant
            i <= n,
            cons@ == old(cons)@ + diff_block(y, i as nat),
        decreases n - i,
    {
        let f = Factor::SubSum(
            Signal { family: Family::A, role: Role::Bit, index: i },
            Signal { family: y, role: Role::Bit, index: i },
        );
        cons.push(Constraint { target: Signal { family: y, role: Role::Diff, index: i }, left: f, right: f });
        i = i + 1;
    }
}

fn push_acc_block(cons: &mut Vec<Constraint>, y: Family, n: usize)
    requires
        n >= 1,
    ensures
        final(cons)@ == old(cons)@ + acc_block(y, n as int, n as nat),
{
    let mut k: usize = 0;
    while k < n
        invariant
            k <= n,
            n >= 1,
            cons@ == old(cons)@ + acc_block(y, n as int, k as nat),
        decreases n - k,
    {
        let i: usize = n - 1 - k;
        if i == n - 1 {
            cons.push(Constraint {
                target: Signal { family: y, role: Role::Acc, index: i },
                left: Factor::One,
                right: Factor::Var(Signal { family: y, role: Role::Diff, index: i }),
            });
        } else {
            cons.push(Constraint {
                target: Signal { family: y, role: Role::AccAux, index: i },
                left: Factor::Var(Signal { family: y, role: Role::Acc, index: i + 1 }),
                right: Factor::Var(Signal { family: y, role: Role::Diff, index: i }),
            });
            cons.push(Constraint {
                target: Signal { family: y, role: Role::Acc, index: i },
                left: Factor::One,
                right: Factor::OrSum(
                    Signal { family: y, role: Role::Acc, index: i + 1 },
                    Signal { family: y, role: Role::Diff, index: i },
                    Signal { family: y, role: Role::AccAux, index: i },
                ),
            });
        }
        proof {
            assert(cons@ =~= old(cons)@ + acc_block(y, n as int, (k + 1) as nat));
        }
        k = k + 1;
    }
}

fn push_fdiff_block(cons: &mut Vec<Constraint>, y: Family, n: usize)
    requires
        n >= 1,
    ensures
        final(cons)@ == old(cons)@ + fdiff_block(y, n as int, n as nat),
{
    let mut k: usize = 0;
    while k < n
        invariant
            k <= n,
            n >= 1,
            cons@ == old(cons)@ + fdiff_block(y, n as int, k as nat),
        decreases n - k,
    {
        let i: usize = n - 1 - k;
        if i == n - 1 {
            cons.push(Constraint {
                target: Signal { family: y, role: Role::Fdiff, index: i },
                left: Factor::One,
                right: Factor::Var(Signal { family: y, role: Role::Acc, index: i }),
            });
        } else {
            let f = Factor::SubSum(
                Signal { family: y, role: Role::Acc, index: i + 1 },
                Signal { family: y, role: Role::Acc, index: i },
            );
            cons.push(Constraint {
                target: Signal { family: y, role: Role::Fdiff, index: i },
                left: f,
                right: f,
            });
        }
        proof {
            assert(cons@ =~= old(cons)@ + fdiff_block(y, n as int, (k + 1) as nat));
        }
        k = k + 1;
    }
}

fn push_chk_block(cons: &mut Vec<Constraint>, y: Family, n: usize)
    ensures
        final(cons)@ == old(cons)@ + chk_block(y, n as nat),
{
    let mut i: usize = 0;
    while i < n
        invariant
            i <= n,
            cons@ == old(cons)@ + chk_block(y, i as nat),
        decreases n - i,
    {
        cons.push(Constraint {
            target: Signal { family: y, role: Role::Chk, index: i },
            left: Factor::Var(Signal { family: y, role: Role::Bit, index: i }),
            right: Factor::Var(Signal { family: y, role: Role::Fdiff, index: i }),
        });
        i = i + 1;
    }
}

fn push_res_block(cons: &mut Vec<Constraint>, y: Family, n: usize)
    requires
        n >= 1,
    ensures
        final(cons)@ == old(cons)@ + res_block(y, n as int, n as nat),
{
    let mut k: usize = 0;
    while k < n
        invariant
            k <= n,
            n >= 1,
            cons@ == old(cons)@ + res_block(y, n as int, k as nat),
        decreases n - k,
    {
        let i: usize = n - 1 - k;
        if i == n - 1 {
            cons.push(Constraint {
                target: Signal { family: y, role: Role::Res, index: i },
                left: Factor::One,
                right: Factor::Var(Signal { family: y, role: Role::Chk, index: i }),
            });
        } else {
            cons.push(Constraint {
                target: Signal { family: y, role: Role::ResAux, index: i },
                left: Factor::Var(Signal { family: y, role: Role::Res, index: i + 1 }),
                right: Factor::Var(Signal { family: y, role: Role::Chk, index: i }),
            });
            cons.push(Constraint {
                target: Signal { family: y, role: Role::Res, index: i },
                left: Factor::One,
                right: Factor::OrSum(
                    Signal { family: y, role: Role::Res, index: i + 1 },
                    Signal { family: y, role: Role::Chk, index: i },
                    Signal { family: y, role: Role::ResAux, index: i },
                ),
            });
        }
        proof {
            assert(cons@ =~= old(cons)@ + res_block(y, n as int, (k + 1) as nat));
        }
        k = k + 1;
    }
}

/// Builds the structured program for operand count `q` (2 for comparator
/// mode, 3 for range mode) and bit width `n`.  The stage generators accept
/// any positive bit width; the published entry points restrict it further.
pub fn build_program(q: usize, n: usize) -> (p: CircuitProgram)
    requires
        q == 2 || q == 3,
        1 <= n,
    ensures
        p.inputs@ == in_sigs(q as int, n as int),
        p.outputs@ == out_sigs(q as int),
        p.verify@ == verify_sigs(q as int, n as int),
        p.constraints@ == program_cons(q as int, n as int),
{
    let range = q == 3;
    let mut inputs: Vec<Signal> = Vec::new();
    push_bit_sigs(&mut inputs, Family::A, n);
    push_bit_sigs(&mut inputs, Family::B, n);
    if range {
        push_bit_sigs(&mut inputs, Family::C, n);
    }
    proof {
        assert(inputs@ =~= in_sigs(q as int, n as int));
    }

    let mut outputs: Vec<Signal> = Vec::new();
    outputs.push(Signal { family: Family::B, role: Role::Res, index: 0 });
    if range {
        outputs.push(Signal { family: Family::C, role: Role::Res, index: 0 });
    }
    proof {
        assert(outputs@ =~= out_sigs(q as int));
    }

    let mut verify: Vec<Signal> = Vec::new();
    verify.push(Signal { family: Family::B, role: Role::Res, index: 0 });
    push_bit_sigs(&mut verify, Family::B, n);
    if range {
        verify.push(Signal { family: Family::C, role: Role::Res, index: 0 });
        push_bit_sigs(&mut verify, Family::C, n);
    }
    proof {
        assert(verify@ =~= verify_sigs(q as int, n as int));
    }

    let mut cons: Vec<Constraint> = Vec::new();
    push_diff_block(&mut cons, Family::B, n);
    if range {
        push_diff_block(&mut cons, Family::C, n);
    }
    push_acc_block(&mut cons, Family::B, n);
    if range {
        push_acc_block(&mut cons, Family::C, n);
    }
    push_fdiff_block(&mut cons, Family::B, n);
    if range {
        push_fdiff_block(&mut cons, Family::C, n);
    }
    push_chk_block(&mut cons, Family::B, n);
    if range {
        push_chk_block(&mut cons, Family::C, n);
    }
    push_res_block(&mut cons, Family::B, n);
    if range {
        push_res_block(&mut cons, Family::C, n);
    }
    proof {
        assert(cons@ =~= program_cons(q as int, n as int));
    }

    CircuitProgram { inputs, outputs, verify, constraints: cons }
}

} // verus!
