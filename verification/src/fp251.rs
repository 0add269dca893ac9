//! Arithmetic of the prime field Z/251, the constraint field of the emitted
//! circuits, together with the boolean encodings the comparator gadget uses:
//! the squared-difference inequality test and the OR fold `a + b - ab`,
//! both written with `250 == -1 (mod 251)` in place of subtraction.

use vstd::prelude::*;

verus! {

/// Sum in the field of order 251.
pub open spec fn f_add(a: int, b: int) -> int {
    (a + b) % 251
}

/// Product in the field of order 251.
pub open spec fn f_mul(a: int, b: int) -> int {
    (a * b) % 251
}

/// A canonical field element.
pub open spec fn is_elem(a: int) -> bool {
    0 <= a < 251
}

/// A field element encoding a boolean.
pub open spec fn is_bit(a: int) -> bool {
    a == 0 || a == 1
}

/// The field encoding of a boolean.
pub open spec fn b2i(b: bool) -> int {
    if b {
        1
    } else {
        0
    }
}

/// The gadget's inequality test: `(a - b)^2`, written as
/// `(a + 250*b) * (a + 250*b)`.
pub open spec fn sq_diff(a: int, b: int) -> int {
    f_mul(f_add(a, f_mul(250, b)), f_add(a, f_mul(250, b)))
}

/// The gadget's boolean OR: `a + b - ab`, written as `a + b + 250*(a*b)`.
pub open spec fn or3(a: int, b: int) -> int {
    f_add(f_add(a, b), f_mul(250, f_mul(a, b)))
}

/// On booleans, the squared difference is exactly the inequality indicator.
pub proof fn lemma_sq_diff_is_xor(a: int, b: int)
    requires
        is_bit(a),
        is_bit(b),
    ensures
        sq_diff(a, b) == b2i(a != b),
        is_bit(sq_diff(a, b)),
{
    assert(f_mul(250, 0) == 0);
    assert(f_mul(250, 1) == 250);
    assert(f_add(0, 0) == 0);
    assert(f_add(0, 250) == 250);
    assert(f_add(1, 0) == 1);
    assert(f_add(1, 250) == 0);
    assert(f_mul(0, 0) == 0);
    assert(f_mul(250, 250) == 1);
    assert(f_mul(1, 1) == 1);
    assert(sq_diff(0, 0) == 0);
    assert(sq_diff(0, 1) == 1);
    assert(sq_diff(1, 0) == 1);
    assert(sq_diff(1, 1) == 0);
}

/// On booleans, `or3` is exactly boolean OR.
pub proof fn lemma_or3_is_or(a: int, b: int)
    requires
        is_bit(a),
        is_bit(b),
    ensures
        or3(a, b) == b2i(a == 1 || b == 1),
        is_bit(or3(a, b)),
{
    assert(or3(0, 0) == 0);
    assert(or3(0, 1) == 1);
    assert(or3(1, 0) == 1);
    assert(or3(1, 1) == 1);
}

/// Multiplying by the field identity leaves a canonical element unchanged.
pub proof fn lemma_mul_one(a: int)
    requires
        is_elem(a),
    ensures
        f_mul(1, a) == a,
{
}

/// The field product of two booleans is their conjunction.
pub proof fn lemma_mul_bits(a: int, b: int)
    requires
        is_bit(a),
        is_bit(b),
    ensures
        f_mul(a, b) == b2i(a == 1 && b == 1),
        is_bit(f_mul(a, b)),
{
}

/// Field addition, on canonical representatives.
pub fn add251(a: u8, b: u8) -> (r: u8)
    requires
        is_elem(a as int),
        is_elem(b as int),
    ensures
        r as int == f_add(a as int, b as int),
        is_elem(r as int),
{
    (((a as u16) + (b as u16)) % 251) as u8
}

/// Field multiplication, on canonical representatives.
pub fn mul251(a: u8, b: u8) -> (r: u8)
    requires
        is_elem(a as int),
        is_elem(b as int),
    ensures
        r as int == f_mul(a as int, b as int),
        is_elem(r as int),
{
    proof {
        assert((a as int) * (b as int) <= 250 * 250) by (nonlinear_arith)
            requires
                0 <= a as int <= 250,
                0 <= b as int <= 250,
        ;
    }
    (((a as u32) * (b as u32)) % 251) as u8
}

} // verus!
