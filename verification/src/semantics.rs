//! Meaning of one compared pair's pipeline, at the level of bit vectors.
//!
//! For operand bit vectors `x` (the shared operand) and `y` (the compared
//! operand), both of width `n` with bit index 0 the least significant
//! position, the five stages define field values `diff`, `acc`, `fdiff`,
//! `chk` and `res` per bit index.  This module characterizes each stage on
//! boolean inputs and culminates in the comparator theorem: `res` at index 0
//! is 1 exactly when the unsigned value of `y` exceeds that of `x`.

use vstd::prelude::*;
use vstd::arithmetic::power2::{lemma2_to64, lemma_pow2_pos, lemma_pow2_unfold, pow2};
use crate::fp251::{
    b2i, f_mul, is_bit, lemma_mul_bits, lemma_or3_is_or, lemma_sq_diff_is_xor, or3, sq_diff,
};

verus! {

/// Every entry is a boolean bit.
pub open spec fn is_bits(s: Seq<u8>) -> bool {
    forall|i: int| 0 <= i < s.len() ==> is_bit(#[trigger] s[i] as int)
}

/// Unsigned value of a bit vector, bit index 0 least significant.
pub open spec fn val(s: Seq<u8>) -> int
    decreases s.len(),
{
    if s.len() == 0 {
        0
    } else {
        val(s.drop_last()) + (s.last() as int) * pow2((s.len() - 1) as nat)
    }
}

/// Per-bit inequality indicator: `(x[i] - y[i])^2`.
pub open spec fn diff_v(x: Seq<u8>, y: Seq<u8>, i: int) -> int {
    sq_diff(x[i] as int, y[i] as int)
}

/// OR fold of `diff` from the most significant position `n-1` down to `i`.
pub open spec fn acc_v(x: Seq<u8>, y: Seq<u8>, i: int) -> int
    decreases x.len() - i,
{
    if x.len() - 1 <= i {
        diff_v(x, y, i)
    } else {
        or3(acc_v(x, y, i + 1), diff_v(x, y, i))
    }
}

/// Product helper of the `acc` fold, defined for `i < n-1`.
pub open spec fn acc_aux_v(x: Seq<u8>, y: Seq<u8>, i: int) -> int {
    f_mul(acc_v(x, y, i + 1), diff_v(x, y, i))
}

/// Transition indicator: squared difference of consecutive `acc` values.
pub open spec fn fdiff_v(x: Seq<u8>, y: Seq<u8>, i: int) -> int {
    if i == x.len() - 1 {
        acc_v(x, y, i)
    } else {
        sq_diff(acc_v(x, y, i + 1), acc_v(x, y, i))
    }
}

/// `y`'s bit isolated at the transition position.
pub open spec fn chk_v(x: Seq<u8>, y: Seq<u8>, i: int) -> int {
    f_mul(y[i] as int, fdiff_v(x, y, i))
}

/// OR fold of `chk` from position `n-1` down to `i`.
pub open spec fn res_v(x: Seq<u8>, y: Seq<u8>, i: int) -> int
    decreases x.len() - i,
{
    if x.len() - 1 <= i {
        chk_v(x, y, i)
    } else {
        or3(res_v(x, y, i + 1), chk_v(x, y, i))
    }
}

/// Product helper of the `res` fold, defined for `i < n-1`.
pub open spec fn res_aux_v(x: Seq<u8>, y: Seq<u8>, i: int) -> int {
    f_mul(res_v(x, y, i + 1), chk_v(x, y, i))
}

/// `i` is the most significant position where `x` and `y` differ.
pub open spec fn transition_at(x: Seq<u8>, y: Seq<u8>, i: int) -> bool {
    x[i] != y[i] && (forall|j: int| i < j < x.len() ==> x[j] == y[j])
}

/// `diff` is the inequality indicator of the two bits.
pub proof fn lemma_diff_char(x: Seq<u8>, y: Seq<u8>, i: int)
    requires
        is_bits(x),
        is_bits(y),
        x.len() == y.len(),
        0 <= i < x.len(),
    ensures
        diff_v(x, y, i) == b2i(x[i] != y[i]),
        is_bit(diff_v(x, y, i)),
{
    lemma_sq_diff_is_xor(x[i] as int, y[i] as int);
}

/// `acc` is 1 exactly when some position in `i..n` differs.
pub proof fn lemma_acc_char(x: Seq<u8>, y: Seq<u8>, i: int)
    requires
        is_bits(x),
        is_bits(y),
        x.len() == y.len(),
        0 <= i < x.len(),
    ensures
        acc_v(x, y, i) == b2i(exists|j: int| i <= j < x.len() && x[j] != y[j]),
        is_bit(acc_v(x, y, i)),
    decreases x.len() - i,
{
    lemma_diff_char(x, y, i);
    if i == x.len() - 1 {
        if x[i] != y[i] {
            assert(exists|j: int| i <= j < x.len() && x[j] != y[j]);
        }
    } else {
        lemma_acc_char(x, y, i + 1);
        lemma_or3_is_or(acc_v(x, y, i + 1), diff_v(x, y, i));
        if acc_v(x, y, i) == 1 {
            if acc_v(x, y, i + 1) == 1 {
                let j = choose|j: int| i + 1 <= j < x.len() && x[j] != y[j];
                assert(i <= j < x.len() && x[j] != y[j]);
            } else {
                assert(x[i] != y[i]);
            }
        } else {
            assert forall|j: int| i <= j < x.len() implies x[j] == y[j] by {
                if j > i {
                    assert(acc_v(x, y, i + 1) == 0);
                }
            }
        }
    }
}

/// `fdiff` marks exactly the most significant differing position.
pub proof fn lemma_fdiff_char(x: Seq<u8>, y: Seq<u8>, i: int)
    requires
        is_bits(x),
        is_bits(y),
        x.len() == y.len(),
        0 <= i < x.len(),
    ensures
        fdiff_v(x, y, i) == b2i(transition_at(x, y, i)),
        is_bit(fdiff_v(x, y, i)),
{
    lemma_diff_char(x, y, i);
    if i == x.len() - 1 {
        lemma_acc_char(x, y, i);
        if acc_v(x, y, i) == 1 {
            let j = choose|j: int| i <= j < x.len() && x[j] != y[j];
            assert(j == i);
        }
    } else {
        lemma_acc_char(x, y, i);
        lemma_acc_char(x, y, i + 1);
        lemma_sq_diff_is_xor(acc_v(x, y, i + 1), acc_v(x, y, i));
        if acc_v(x, y, i + 1) != acc_v(x, y, i) {
            // A difference exists in i..n but none in i+1..n: it is at i.
            assert(acc_v(x, y, i) == 1);
            let j = choose|j: int| i <= j < x.len() && x[j] != y[j];
            assert(j == i);
            assert(transition_at(x, y, i));
        } else {
            if transition_at(x, y, i) {
                assert(acc_v(x, y, i) == 1);
                assert(forall|j: int| i + 1 <= j < x.len() ==> x[j] == y[j]);
                assert(acc_v(x, y, i + 1) == 0);
            }
        }
    }
}

/// `chk` is 1 exactly at the transition position when `y`'s bit there is 1.
pub proof fn lemma_chk_char(x: Seq<u8>, y: Seq<u8>, i: int)
    requires
        is_bits(x),
        is_bits(y),
        x.len() == y.len(),
        0 <= i < x.len(),
    ensures
        chk_v(x, y, i) == b2i(y[i] == 1 && transition_at(x, y, i)),
        is_bit(chk_v(x, y, i)),
{
    lemma_fdiff_char(x, y, i);
    lemma_mul_bits(y[i] as int, fdiff_v(x, y, i));
}

/// `res` is 1 exactly when some position in `i..n` is the transition and
/// carries a 1 bit of `y`.
pub proof fn lemma_res_char(x: Seq<u8>, y: Seq<u8>, i: int)
    requires
        is_bits(x),
        is_bits(y),
        x.len() == y.len(),
        0 <= i < x.len(),
    ensures
        res_v(x, y, i) == b2i(
            exists|t: int| i <= t < x.len() && y[t] == 1 && transition_at(x, y, t),
        ),
        is_bit(res_v(x, y, i)),
    decreases x.len() - i,
{
    lemma_chk_char(x, y, i);
    if i == x.len() - 1 {
        if y[i] == 1 && transition_at(x, y, i) {
            assert(exists|t: int| i <= t < x.len() && y[t] == 1 && transition_at(x, y, t));
        }
    } else {
        lemma_res_char(x, y, i + 1);
        lemma_or3_is_or(res_v(x, y, i + 1), chk_v(x, y, i));
        if res_v(x, y, i) == 1 {
            if res_v(x, y, i + 1) == 1 {
                let t = choose|t: int| i + 1 <= t < x.len() && y[t] == 1 && transition_at(x, y, t);
                assert(i <= t < x.len() && y[t] == 1 && transition_at(x, y, t));
            } else {
                assert(y[i] == 1 && transition_at(x, y, i));
            }
        } else {
            if exists|t: int| i <= t < x.len() && y[t] == 1 && transition_at(x, y, t) {
                let t = choose|t: int| i <= t < x.len() && y[t] == 1 && transition_at(x, y, t);
                if t == i {
                    assert(chk_v(x, y, i) == 1);
                } else {
                    assert(res_v(x, y, i + 1) == 1);
                }
                assert(false);
            }
        }
    }
}

/// A bit vector's value is bounded by two to its width.
pub proof fn lemma_val_bound(s: Seq<u8>)
    requires
        is_bits(s),
    ensures
        0 <= val(s) < pow2(s.len() as nat),
    decreases s.len(),
{
    if s.len() == 0 {
        lemma2_to64();
    } else {
        assert(is_bits(s.drop_last()));
        lemma_val_bound(s.drop_last());
        lemma_pow2_unfold(s.len() as nat);
        lemma_pow2_pos((s.len() - 1) as nat);
        assert(is_bit(s.last() as int));
    }
}

/// Unsigned comparison in terms of the most significant differing bit:
/// `val(y) > val(x)` exactly when, at the transition position, `y` holds 1.
pub proof fn lemma_val_compare(x: Seq<u8>, y: Seq<u8>)
    requires
        is_bits(x),
        is_bits(y),
        x.len() == y.len(),
    ensures
        (val(y) > val(x)) <==> (exists|t: int|
            0 <= t < x.len() && y[t] == 1 && transition_at(x, y, t)),
    decreases x.len(),
{
    if x.len() == 0 {
        return ;
    }
    let n = x.len() as int;
    let xp = x.drop_last();
    let yp = y.drop_last();
    assert(is_bits(xp));
    assert(is_bits(yp));
    lemma_val_compare(xp, yp);
    lemma_val_bound(xp);
    lemma_val_bound(yp);
    assert(x.last() == x[n - 1]);
    assert(y.last() == y[n - 1]);
    if x[n - 1] == y[n - 1] {
        assert(val(y) - val(x) == val(yp) - val(xp));
        if val(y) > val(x) {
            let t = choose|t: int| 0 <= t < xp.len() && yp[t] == 1 && transition_at(xp, yp, t);
            assert forall|j: int| t < j < n implies x[j] == y[j] by {
                if j < n - 1 {
                    assert(xp[j] == yp[j]);
                }
            }
            assert(y[t] == 1 && transition_at(x, y, t));
        }
        if exists|t: int| 0 <= t < n && y[t] == 1 && transition_at(x, y, t) {
            let t = choose|t: int| 0 <= t < n && y[t] == 1 && transition_at(x, y, t);
            assert(t < n - 1);
            assert forall|j: int| t < j < xp.len() implies xp[j] == yp[j] by {
                assert(x[j] == y[j]);
            }
            assert(yp[t] == 1 && transition_at(xp, yp, t));
        }
    } else {
        assert(is_bit(x[n - 1] as int));
        assert(is_bit(y[n - 1] as int));
        if y[n - 1] == 1 {
            // y gains the top power of two, which dominates the prefix.
            assert(x[n - 1] == 0);
            assert(val(y) == val(yp) + pow2((n - 1) as nat));
            assert(val(x) == val(xp));
            assert(val(y) > val(x));
            assert(y[n - 1] == 1 && transition_at(x, y, n - 1));
        } else {
            assert(x[n - 1] == 1);
            assert(val(x) == val(xp) + pow2((n - 1) as nat));
            assert(val(y) == val(yp));
            assert(val(y) <= val(x));
            if exists|t: int| 0 <= t < n && y[t] == 1 && transition_at(x, y, t) {
                let t = choose|t: int| 0 <= t < n && y[t] == 1 && transition_at(x, y, t);
                assert(t < n - 1);
                assert(x[n - 1] == y[n - 1]);
                assert(false);
            }
        }
    }
}

/// The comparator theorem for one pair: the terminal `res` value is the
/// indicator of `val(y) > val(x)`.
pub proof fn lemma_res_is_gt(x: Seq<u8>, y: Seq<u8>)
    requires
        is_bits(x),
        is_bits(y),
        x.len() == y.len(),
        x.len() >= 1,
    ensures
        res_v(x, y, 0) == b2i(val(y) > val(x)),
        is_bit(res_v(x, y, 0)),
{
    lemma_res_char(x, y, 0);
    lemma_val_compare(x, y);
}

/// The accumulator fold never decreases as the index descends: `acc[i]`
/// dominates `acc[i+1]`.
pub proof fn lemma_acc_monotone(x: Seq<u8>, y: Seq<u8>, i: int)
    requires
        is_bits(x),
        is_bits(y),
        x.len() == y.len(),
        0 <= i < x.len() - 1,
    ensures
        acc_v(x, y, i) >= acc_v(x, y, i + 1),
{
    lemma_acc_char(x, y, i);
    lemma_acc_char(x, y, i + 1);
    if acc_v(x, y, i + 1) == 1 {
        let j = choose|j: int| i + 1 <= j < x.len() && x[j] != y[j];
        assert(i <= j < x.len() && x[j] != y[j]);
    }
}

/// At most one position carries a transition indicator of 1.
pub proof fn lemma_fdiff_unique(x: Seq<u8>, y: Seq<u8>, i: int, j: int)
    requires
        is_bits(x),
        is_bits(y),
        x.len() == y.len(),
        0 <= i < x.len(),
        0 <= j < x.len(),
        fdiff_v(x, y, i) == 1,
        fdiff_v(x, y, j) == 1,
    ensures
        i == j,
{
    lemma_fdiff_char(x, y, i);
    lemma_fdiff_char(x, y, j);
    if i < j {
        assert(x[j] == y[j]);
        assert(false);
    }
    if j < i {
        assert(x[i] == y[i]);
        assert(false);
    }
}

/// Some position in `i..n` differs, so some position there is the
/// transition: the most significant differing one.
proof fn lemma_exists_transition(x: Seq<u8>, y: Seq<u8>, i: int)
    requires
        x.len() == y.len(),
        0 <= i < x.len(),
        exists|j: int| i <= j < x.len() && x[j] != y[j],
    ensures
        exists|t: int| i <= t < x.len() && transition_at(x, y, t),
    decreases x.len() - i,
{
    let n = x.len() as int;
    if exists|j: int| i + 1 <= j < n && x[j] != y[j] {
        lemma_exists_transition(x, y, i + 1);
        let t = choose|t: int| i + 1 <= t < n && transition_at(x, y, t);
        assert(i <= t < n && transition_at(x, y, t));
    } else {
        let j = choose|j: int| i <= j < n && x[j] != y[j];
        assert(j == i);
        assert(transition_at(x, y, i));
    }
}

/// No position carries a transition indicator of 1 exactly when the two
/// operands agree bit for bit.
pub proof fn lemma_fdiff_zero_iff_equal(x: Seq<u8>, y: Seq<u8>)
    requires
        is_bits(x),
        is_bits(y),
        x.len() == y.len(),
    ensures
        (forall|i: int| 0 <= i < x.len() ==> fdiff_v(x, y, i) == 0) <==> x =~= y,
{
    if x =~= y {
        assert forall|i: int| 0 <= i < x.len() implies fdiff_v(x, y, i) == 0 by {
            lemma_fdiff_char(x, y, i);
        }
    } else if forall|i: int| 0 <= i < x.len() ==> fdiff_v(x, y, i) == 0 {
        if forall|j: int| 0 <= j < x.len() ==> x[j] == y[j] {
            assert(x =~= y);
        } else {
            let j = choose|j: int| 0 <= j < x.len() && x[j] != y[j];
            assert(0 <= j < x.len() && x[j] != y[j]);
            lemma_exists_transition(x, y, 0);
            let t = choose|t: int| 0 <= t < x.len() && transition_at(x, y, t);
            lemma_fdiff_char(x, y, t);
            assert(false);
        }
    }
}

} // verus!
