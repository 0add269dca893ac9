//! Witness encoding: turning caller-supplied numbers into the flat value
//! vectors the proving pipeline consumes.
//!
//! Numbers are passed through unchanged; bit decomposition emits each
//! number's bits least significant first, at the width named by a type tag
//! (`u8`, `u16`, `u32` or `u64`).  This is the same bit order the comparator
//! circuits expect, and the decomposition of `x` at width `w` has unsigned
//! value `x % 2^w`.

use vstd::prelude::*;
use vstd::arithmetic::div_mod::{lemma_div_denominator, lemma_mod_breakdown, lemma_small_mod};
use vstd::arithmetic::power2::{lemma2_to64, lemma_pow2_pos, lemma_pow2_unfold, pow2};
use vstd::string::{StrSliceExecFns, StringSliceAdditionalSpecFns};
use crate::fp251::b2i;
use crate::semantics::{is_bits, lemma_res_is_gt, res_v, val};

verus! {

/// Bit `i` of a non-negative number.
pub open spec fn bit_of(x: int, i: int) -> u8 {
    (((x / pow2(i as nat) as int) % 2)) as u8
}

/// The `w` low bits of a number, least significant first.
pub open spec fn bits_of(x: int, w: int) -> Seq<u8> {
    Seq::new(w as nat, |i: int| bit_of(x, i))
}

/// The width named by a type tag, as UTF-8 bytes; 0 for an unknown tag.
pub open spec fn tag_width(bs: Seq<u8>) -> int {
    if bs == seq![117u8, 56u8] {  // "u8"
        8
    } else if bs == seq![117u8, 49u8, 54u8] {  // "u16"
        16
    } else if bs == seq![117u8, 51u8, 50u8] {  // "u32"
        32
    } else if bs == seq![117u8, 54u8, 52u8] {  // "u64"
        64
    } else {
        0
    }
}

/// The flat bit-decomposition of a number vector at width `w`.
pub open spec fn collect_bits_spec(xs: Seq<usize>, w: int) -> Seq<u8>
    decreases xs.len(),
{
    if xs.len() == 0 {
        Seq::empty()
    } else {
        collect_bits_spec(xs.drop_last(), w) + bits_of(xs.last() as int, w)
    }
}

/// Conversion of caller-supplied numbers into proving-pipeline value
/// vectors, as numbers or as bits.
pub trait IntoField: Sized + View<V = Seq<usize>> {
    /// Passes the numbers through; an empty vector yields `None`.
    fn collect_nums(self) -> (r: Option<Vec<usize>>)
        ensures
            r is Some <==> self@.len() > 0,
            r matches Some(v) ==> v@ == self@,
    ;

    /// Decomposes each number into bits, least significant first, at the
    /// width the tag names; an empty vector yields `None`.  Only the four
    /// unsigned-width tags are accepted.
    fn collect_bits(self, t: &str) -> (r: Option<Vec<usize>>)
        requires
            tag_width(t.spec_bytes()) != 0,
        ensures
            r is Some <==> self@.len() > 0,
            r matches Some(v) ==> (v@.len() == self@.len() * tag_width(t.spec_bytes())
                && v@.map_values(|x: usize| x as u8) == collect_bits_spec(
                self@,
                tag_width(t.spec_bytes()),
            ) && (forall|j: int| 0 <= j < v@.len() ==> (#[trigger] v@[j]) <= 1)),
    ;
}

/// Reads the width named by a type tag; 0 for an unknown tag.
fn tag_bits(t: &str) -> (r: usize)
    ensures
        r as int == tag_width(t.spec_bytes()),
{
    let bs = t.as_bytes_vec();
    if bs.len() == 2 && bs[0] == 117 && bs[1] == 56 {
        proof {
            assert(bs@ =~= seq![117u8, 56u8]);
        }
        8
    } else if bs.len() == 3 && bs[0] == 117 && bs[1] == 49 && bs[2] == 54 {
        proof {
            assert(bs@ =~= seq![117u8, 49u8, 54u8]);
        }
        16
    } else if bs.len() == 3 && bs[0] == 117 && bs[1] == 51 && bs[2] == 50 {
        proof {
            assert(bs@ =~= seq![117u8, 51u8, 50u8]);
        }
        32
    } else if bs.len() == 3 && bs[0] == 117 && bs[1] == 54 && bs[2] == 52 {
        proof {
            assert(bs@ =~= seq![117u8, 54u8, 52u8]);
        }
        64
    } else {
        proof {
            assert(bs@ != seq![117u8, 56u8]);
            assert(bs@ != seq![117u8, 49u8, 54u8]);
            assert(bs@ != seq![117u8, 51u8, 50u8]);
            assert(bs@ != seq![117u8, 54u8, 52u8]);
        }
        0
    }
}

/// Appends the `w` low bits of `x`, least significant first.
fn push_bits(out: &mut Vec<usize>, x: usize, w: usize)
    ensures
        final(out)@.len() == old(out)@.len() + w,
        final(out)@.map_values(|b: usize| b as u8) == old(out)@.map_values(|b: usize| b as u8)
            + bits_of(x as int, w as int),
        forall|j: int|
            old(out)@.len() <= j < final(out)@.len() ==> (#[trigger] final(out)@[j]) <= 1,
        forall|j: int| 0 <= j < old(out)@.len() ==> (#[trigger] final(out)@[j]) == old(out)@[j],
{
    let mut cur: usize = x;
    let mut i: usize = 0;
    proof {
        lemma2_to64();
    }
    while i < w
        invariant
            i <= w,
            cur as int == x as int / pow2(i as nat) as int,
            out@.len() == old(out)@.len() + i,
            out@.map_values(|b: usize| b as u8) =~= old(out)@.map_values(|b: usize| b as u8)
                + bits_of(x as int, i as int),
            forall|j: int| old(out)@.len() <= j < out@.len() ==> (#[trigger] out@[j]) <= 1,
            forall|j: int| 0 <= j < old(out)@.len() ==> (#[trigger] out@[j]) == old(out)@[j],
        decreases w - i,
    {
        proof {
            lemma_pow2_pos(i as nat);
        }
        let ghost prev = out@;
        out.push(cur % 2);
        proof {
            lemma_pow2_unfold((i + 1) as nat);
            lemma_div_denominator(x as int, pow2(i as nat) as int, 2);
            assert((cur % 2) as u8 == bit_of(x as int, i as int));
            assert(out@.map_values(|b: usize| b as u8) =~= prev.map_values(
                |b: usize| b as u8,
            ).push((cur % 2) as u8));
            assert(bits_of(x as int, i as int).push(bit_of(x as int, i as int)) =~= bits_of(
                x as int,
                i + 1,
            ));
            assert(out@.map_values(|b: usize| b as u8) =~= old(out)@.map_values(
                |b: usize| b as u8,
            ) + bits_of(x as int, i + 1));
        }
        cur = cur / 2;
        i = i + 1;
    }
    proof {
        lemma2_to64();
    }
}

impl IntoField for Vec<usize> {
    fn collect_nums(self) -> (r: Option<Vec<usize>>) {
        if self.len() == 0 {
            None
        } else {
            Some(self)
        }
    }

    fn collect_bits(self, t: &str) -> (r: Option<Vec<usize>>) {
        if self.len() == 0 {
            return None;
        }
        let w = tag_bits(t);
        let mut out: Vec<usize> = Vec::new();
        let mut m: usize = 0;
        while m < self.len()
            invariant
                m <= self@.len(),
                tag_width(t.spec_bytes()) == w as int,
                w >= 1,
                out@.len() == m * w,
                out@.map_values(|b: usize| b as u8) =~= collect_bits_spec(
                    self@.take(m as int),
                    w as int,
                ),
                forall|j: int| 0 <= j < out@.len() ==> (#[trigger] out@[j]) <= 1,
            decreases self@.len() - m,
        {
            proof {
                assert(self@.take(m + 1 as int).drop_last() =~= self@.take(m as int));
                assert(self@.take(m + 1 as int).last() == self@[m as int]);
            }
            push_bits(&mut out, self[m], w);
            proof {
                assert(out@.map_values(|b: usize| b as u8) =~= collect_bits_spec(
                    self@.take(m + 1 as int),
                    w as int,
                ));
            }
            m = m + 1;
        }
        proof {
            assert(self@.take(self@.len() as int) =~= self@);
        }
        Some(out)
    }
}


/// Encoded numbers compare as numbers: for `x` and `y` below `2^w`, the
/// comparator pipeline over their bit decompositions yields exactly the
/// indicator of `y > x`.
pub proof fn lemma_encoded_numbers_compare(x: int, y: int, w: int)
    requires
        1 <= w,
        0 <= x < pow2(w as nat),
        0 <= y < pow2(w as nat),
    ensures
        res_v(bits_of(x, w), bits_of(y, w), 0) == b2i(y > x),
{
    lemma_bits_are_bits(x, w);
    lemma_bits_are_bits(y, w);
    lemma_bits_value(x, w);
    lemma_bits_value(y, w);
    lemma_small_mod(x as nat, pow2(w as nat));
    lemma_small_mod(y as nat, pow2(w as nat));
    lemma_res_is_gt(bits_of(x, w), bits_of(y, w));
}

/// A single number's decomposition consists of boolean bits.
pub proof fn lemma_bits_are_bits(x: int, w: int)
    requires
        w >= 0,
    ensures
        is_bits(bits_of(x, w)),
        bits_of(x, w).len() == w,
{
    assert forall|i: int| 0 <= i < w implies (bits_of(x, w)[i] as int == 0 || bits_of(x, w)[i]
        as int == 1) by {
        lemma_pow2_pos(i as nat);
        assert(bits_of(x, w)[i] == bit_of(x, i));
    }
}

/// The flat decomposition consists of boolean bits.
pub proof fn lemma_collect_bits_are_bits(xs: Seq<usize>, w: int)
    requires
        w >= 0,
    ensures
        is_bits(collect_bits_spec(xs, w)),
        collect_bits_spec(xs, w).len() == xs.len() * w,
    decreases xs.len(),
{
    if xs.len() > 0 {
        lemma_collect_bits_are_bits(xs.drop_last(), w);
        assert((xs.len() - 1) * w + w == xs.len() as int * w) by (nonlinear_arith);
        assert forall|i: int|
            0 <= i < collect_bits_spec(xs, w).len() implies (#[trigger] collect_bits_spec(
            xs,
            w,
        )[i] as int) == 0 || collect_bits_spec(xs, w)[i] as int == 1 by {
            if i >= (xs.len() - 1) * w {
                let x = xs.last() as int;
                let j = i - (xs.len() - 1) * w;
                lemma_pow2_pos(j as nat);
                assert(collect_bits_spec(xs, w)[i] == bit_of(x, j));
            }
        }
    }
}

/// The decomposition of `x` at width `w` has unsigned value `x % 2^w`: the
/// witness encoding and the circuit's value interpretation agree.
pub proof fn lemma_bits_value(x: int, w: int)
    requires
        x >= 0,
        w >= 0,
    ensures
        val(bits_of(x, w)) == x % pow2(w as nat) as int,
    decreases w,
{
    if w == 0 {
        lemma2_to64();
        assert(bits_of(x, 0) =~= Seq::<u8>::empty());
        assert(x % 1 == 0);
    } else {
        lemma_bits_value(x, w - 1);
        assert(bits_of(x, w).drop_last() =~= bits_of(x, w - 1));
        lemma_pow2_unfold(w as nat);
        lemma_pow2_pos((w - 1) as nat);
        let p = pow2((w - 1) as nat) as int;
        lemma_mod_breakdown(x, p, 2);
        assert(x % (p * 2) == p * ((x / p) % 2) + x % p);
        assert(bits_of(x, w).last() == bit_of(x, w - 1));
        assert(bit_of(x, w - 1) as int == (x / p) % 2);
        assert(p * ((x / p) % 2) == ((x / p) % 2) * p) by (nonlinear_arith);
        assert(pow2(w as nat) as int == p * 2);
        assert(val(bits_of(x, w)) == val(bits_of(x, w - 1)) + (bit_of(x, w - 1) as int) * p);
    }
}

} // verus!
