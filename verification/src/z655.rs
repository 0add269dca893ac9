//! A small modular scalar type over Z/65535, exercising the generic proving
//! interfaces end to end: ring arithmetic, division by extended Euclid, a
//! toy exponentiation cipher, and the group-operation hooks the pairing
//! interface expects (all of them plain multiplications here).
//!
//! 65535 is not prime, so division is meaningful only for operands coprime
//! to the modulus; the division contract promises the inverse property
//! exactly on those.

use vstd::prelude::*;
use vstd::arithmetic::div_mod::{
    lemma_mod_multiples_vanish, lemma_mul_mod_noop_left, lemma_mul_mod_noop_right,
};

verus! {

/// Greatest common divisor.
pub open spec fn gcd(a: nat, b: nat) -> nat
    decreases b,
{
    if b == 0 {
        a
    } else {
        gcd(b, a % b)
    }
}

/// A scalar of the ring Z/65535.
#[derive(Clone, Copy, Debug, PartialEq, Eq, Hash, Structural)]
pub struct Z655 {
    pub inner: u16,
}

/// Iterated product of 69 modulo 65535: the toy encryption of an exponent.
pub open spec fn enc_pow(e: nat) -> int
    decreases e,
{
    if e == 0 {
        1
    } else {
        (enc_pow((e - 1) as nat) * 69) % 65535
    }
}

/// Left fold of modular addition over a sequence of scalars.
pub open spec fn sum_spec(s: Seq<Z655>) -> int
    decreases s.len(),
{
    if s.len() == 0 {
        0
    } else {
        (sum_spec(s.drop_last()) + s.last().inner as int) % 65535
    }
}

/// Extended Euclid on bounded inputs: returns `(g, s, t)` with
/// `s*a + t*b == g` and `g == gcd(a, b)`.  The coefficient bound keeps the
/// arithmetic comfortably inside 64 bits for the modulus used here.
pub fn ext_euc_alg(a: u32, b: u32) -> (r: (u32, i64, i64))
    requires
        a <= 65535,
        1 <= b <= 65535,
    ensures
        r.1 * a + r.2 * b == r.0,
        r.0 as nat == gcd(a as nat, b as nat),
        r.0 <= 65535,
        -(b as int) <= r.1 <= b as int,
{
    let mut r0: u32 = a;
    let mut r1: u32 = b;
    let mut s0: i64 = 1;
    let mut s1: i64 = 0;
    let mut t0: i64 = 0;
    let mut t1: i64 = 1;
    while r1 != 0
        invariant
            a <= 65535,
            1 <= b <= 65535,
            r0 <= 65535,
            r1 <= 65535,
            s0 * a + t0 * b == r0,
            s1 * a + t1 * b == r1,
            s0 * s1 <= 0,
            t0 * t1 <= 0,
            r0 * s1 - r1 * s0 == b || r0 * s1 - r1 * s0 == -(b as int),
            r0 * t1 - r1 * t0 == a || r0 * t1 - r1 * t0 == -(a as int),
            -(b as int) <= s0 <= b as int,
            -(b as int) <= s1 <= b as int,
            -65535 <= t0 <= 65535,
            -65535 <= t1 <= 65535,
            gcd(r0 as nat, r1 as nat) == gcd(a as nat, b as nat),
        decreases r1,
    {
        let q: u32 = r0 / r1;
        let r: u32 = r0 % r1;
        proof {
            assert(q <= 65535 && r < r1 && r0 == q * r1 + r) by (nonlinear_arith)
                requires
                    q == r0 as int / r1 as int,
                    r == r0 as int % r1 as int,
                    0 < r1 <= 65535,
                    r0 <= 65535,
            ;
            assert(-(65535 * 65535) <= (q as int) * s1 <= 65535 * 65535) by (nonlinear_arith)
                requires
                    0 <= q <= 65535,
                    -65535 <= s1 <= 65535,
            ;
            assert(-(65535 * 65535) <= (q as int) * t1 <= 65535 * 65535) by (nonlinear_arith)
                requires
                    0 <= q <= 65535,
                    -65535 <= t1 <= 65535,
            ;
        }
        let s: i64 = s0 - (q as i64) * s1;
        let t: i64 = t0 - (q as i64) * t1;
        proof {
            // The new pair keeps the Bezout identities, flips the cross
            // products' sign, and alternates the coefficients' signs.
            assert(s * a + t * b == r) by (nonlinear_arith)
                requires
                    s0 * a + t0 * b == r0,
                    s1 * a + t1 * b == r1,
                    s == s0 - q * s1,
                    t == t0 - q * t1,
                    r == r0 - q * r1,
            ;
            assert(r1 * s - r * s1 == -(r0 * s1 - r1 * s0)) by (nonlinear_arith)
                requires
                    s == s0 - q * s1,
                    r == r0 - q * r1,
            ;
            assert(r1 * t - r * t1 == -(r0 * t1 - r1 * t0)) by (nonlinear_arith)
                requires
                    t == t0 - q * t1,
                    r == r0 - q * r1,
            ;
            assert(s1 * s <= 0) by (nonlinear_arith)
                requires
                    s == s0 - q * s1,
                    s0 * s1 <= 0,
                    q >= 0,
            ;
            assert(t1 * t <= 0) by (nonlinear_arith)
                requires
                    t == t0 - q * t1,
                    t0 * t1 <= 0,
                    q >= 0,
            ;
            // The cross product bounds the new coefficients.
            assert(-(b as int) <= s <= b as int) by (nonlinear_arith)
                requires
                    1 <= r1,
                    0 <= r,
                    s1 * s <= 0,
                    r1 * s - r * s1 == b || r1 * s - r * s1 == -(b as int),
                    1 <= b,
            ;
            assert(-(a as int) <= t <= a as int) by (nonlinear_arith)
                requires
                    1 <= r1,
                    0 <= r,
                    t1 * t <= 0,
                    r1 * t - r * t1 == a || r1 * t - r * t1 == -(a as int),
                    0 <= a,
            ;
            assert(gcd(r0 as nat, r1 as nat) == gcd(r1 as nat, r as nat));
        }
        r0 = r1;
        r1 = r;
        s0 = s1;
        s1 = s;
        t0 = t1;
        t1 = t;
    }
    (r0, s0, t0)
}

impl Z655 {
    /// Modular sum.
    pub fn add(self, rhs: Z655) -> (r: Z655)
        ensures
            r.inner as int == (self.inner as int + rhs.inner as int) % 65535,
    {
        let sum: u32 = self.inner as u32 + rhs.inner as u32;
        Z655 { inner: (sum % 65535) as u16 }
    }

    /// Additive inversion by reflection at the modulus.  Note that the
    /// result of negating zero is the non-canonical representative 65535.
    pub fn neg(self) -> (r: Z655)
        ensures
            r.inner as int == 65535 - self.inner as int,
    {
        Z655 { inner: 65535 - self.inner }
    }

    /// Modular difference, as addition of the reflected operand.
    pub fn sub(self, rhs: Z655) -> (r: Z655)
        ensures
            r.inner as int == (self.inner as int + (65535 - rhs.inner as int)) % 65535,
    {
        self.add(rhs.neg())
    }

    /// Modular product.
    pub fn mul(self, rhs: Z655) -> (r: Z655)
        ensures
            r.inner as int == (self.inner as int * rhs.inner as int) % 65535,
    {
        proof {
            assert(self.inner as int * rhs.inner as int <= 65535 * 65535) by (nonlinear_arith)
                requires
                    0 <= self.inner as int <= 65535,
                    0 <= rhs.inner as int <= 65535,
            ;
        }
        let product: u32 = (self.inner as u32) * (rhs.inner as u32);
        Z655 { inner: (product % 65535) as u16 }
    }

    /// Modular division: multiplication by the extended-Euclid inverse of
    /// the divisor.  When the divisor is coprime to 65535 the result is the
    /// true quotient: multiplying it back by the divisor recovers the
    /// dividend (reduced).  For a non-unit divisor no inverse exists and
    /// the result carries no such meaning.
    pub fn div(self, rhs: Z655) -> (r: Z655)
        requires
            rhs.inner >= 1,
        ensures
            r.inner < 65535,
            gcd(rhs.inner as nat, 65535) == 1 ==> (r.inner as int * rhs.inner as int) % 65535
                == self.inner as int % 65535,
    {
        let euc = ext_euc_alg(rhs.inner as u32, 65535);
        let g: u32 = euc.0;
        let s: i64 = euc.1;
        let t: i64 = euc.2;
        let inv: u32 = ((s + 65535) as u32) % 65535;
        let r = self.mul(Z655 { inner: inv as u16 });
        proof {
            let m: int = 65535;
            let av: int = rhs.inner as int;
            let sv: int = self.inner as int;
            if gcd(rhs.inner as nat, 65535) == 1 {
                // inv is s reduced, so inv * a == s * a == 1 (mod m).
                lemma_mod_multiples_vanish(1, s as int, m);
                assert(inv as int == (s as int) % m);
                lemma_mul_mod_noop_left(inv as int, av, m);
                lemma_mul_mod_noop_left(s as int, av, m);
                assert((inv as int * av) % m == (s * av) % m);
                assert(s * av == g - t * m);
                lemma_mod_multiples_vanish(-t, g as int, m);
                assert((g - t * m) % m == g as int % m) by {
                    assert(m * (-t) + g == g - t * m);
                }
                assert((inv as int * av) % m == 1);
                // Fold the reduction through the outer product.
                lemma_mul_mod_noop_left(sv * inv as int, av, m);
                assert(r.inner as int == (sv * inv as int) % m);
                assert((r.inner as int * av) % m == (sv * inv as int * av) % m);
                lemma_mul_mod_noop_right(sv, inv as int * av, m);
                assert(sv * inv as int * av == sv * (inv as int * av)) by (nonlinear_arith);
                assert((sv * (inv as int * av)) % m == (sv * ((inv as int * av) % m)) % m);
                assert((r.inner as int * av) % m == sv % m);
            }
        }
        r
    }

    /// The additive identity.
    pub fn zero() -> (r: Z655)
        ensures
            r.inner == 0,
    {
        Z655 { inner: 0 }
    }

    /// The multiplicative identity.
    pub fn one() -> (r: Z655)
        ensures
            r.inner == 1,
    {
        Z655 { inner: 1 }
    }

    /// Multiplicative inversion: one divided by `self`, meaningful exactly
    /// for scalars coprime to the modulus.
    pub fn mul_inv(self) -> (r: Z655)
        requires
            self.inner >= 1,
        ensures
            gcd(self.inner as nat, 65535) == 1 ==> (r.inner as int * self.inner as int) % 65535
                == 1,
    {
        Z655::one().div(self)
    }

    /// Embeds a machine integer; values above the largest scalar are
    /// rejected by precondition.
    pub fn from(n: usize) -> (r: Z655)
        requires
            n <= 65535,
        ensures
            r.inner as int == n as int,
    {
        Z655 { inner: n as u16 }
    }

    /// Extracts the scalar as a machine integer.
    pub fn into(self) -> (r: usize)
        ensures
            r == self.inner as usize,
    {
        self.inner as usize
    }

    /// The toy exponentiation cipher: 69 raised to the scalar, modulo
    /// 65535.
    pub fn encrypt(self) -> (r: Z655)
        ensures
            r.inner as int == enc_pow(self.inner as nat),
    {
        let mut ret = Z655::one();
        let mut i: u16 = 0;
        while i < self.inner
            invariant
                i <= self.inner,
                ret.inner as int == enc_pow(i as nat),
            decreases self.inner - i,
        {
            ret = ret.mul(Z655 { inner: 69 });
            i = i + 1;
        }
        ret
    }

    /// A uniformly drawn raw scalar, reduced into range.
    pub fn random() -> (r: Z655)
        ensures
            r.inner < 65535,
    {
        Z655 { inner: random_u16() % 65535 }
    }

    /// True exactly on the zero scalar, which encrypts to the identity.
    pub fn detect_root(&self) -> (r: bool)
        ensures
            r == (self.inner == 0),
    {
        self.inner == 0
    }

    /// Every scalar is acceptable input to the toy cipher.
    pub fn valid(&self) -> (r: bool)
        ensures
            r,
    {
        true
    }

    /// A random nonzero scalar: redraws on zero, with a deterministic
    /// nonzero fallback so that the retry loop is visibly finite.
    pub fn random_elem() -> (r: Z655)
        ensures
            1 <= r.inner < 65535,
    {
        let mut tries: u8 = 0;
        while tries < 64
            invariant
                tries <= 64,
            decreases 64 - tries,
        {
            let candidate = Z655::random();
            if candidate.inner != 0 {
                return candidate;
            }
            tries = tries + 1;
        }
        Z655::one()
    }

    /// Encryption into the first group: multiplication by the generator.
    pub fn encrypt_g1(self) -> (r: Z655)
        ensures
            r.inner as int == (self.inner as int * 69) % 65535,
    {
        self.mul(Z655 { inner: 69 })
    }

    /// Encryption into the second group: multiplication by the generator.
    pub fn encrypt_g2(self) -> (r: Z655)
        ensures
            r.inner as int == (self.inner as int * 69) % 65535,
    {
        self.mul(Z655 { inner: 69 })
    }

    /// Exponentiation of an encrypted first-group element: a product here.
    pub fn exp_encrypted_g1(self, g1: Z655) -> (r: Z655)
        ensures
            r.inner as int == (self.inner as int * g1.inner as int) % 65535,
    {
        self.mul(g1)
    }

    /// Exponentiation of an encrypted second-group element: a product here.
    pub fn exp_encrypted_g2(self, g2: Z655) -> (r: Z655)
        ensures
            r.inner as int == (self.inner as int * g2.inner as int) % 65535,
    {
        self.mul(g2)
    }

    /// The pairing of the two groups: again a plain product.
    pub fn pairing(g1: Z655, g2: Z655) -> (r: Z655)
        ensures
            r.inner as int == (g1.inner as int * g2.inner as int) % 65535,
    {
        g1.mul(g2)
    }

    /// True exactly on the zero scalar, the group identity.
    pub fn is_identity(&self) -> (r: bool)
        ensures
            r == (self.inner == 0),
    {
        self.inner == 0
    }

    /// Modular sum of a vector of scalars, folded left.
    pub fn sum(v: &Vec<Z655>) -> (r: Z655)
        ensures
            r.inner as int == sum_spec(v@),
    {
        let mut acc = Z655::zero();
        let mut i: usize = 0;
        while i < v.len()
            invariant
                i <= v.len(),
                acc.inner as int == sum_spec(v@.take(i as int)),
            decreases v.len() - i,
        {
            proof {
                assert(v@.take(i + 1 as int).drop_last() =~= v@.take(i as int));
                assert(v@.take(i + 1 as int).last() == v@[i as int]);
            }
            acc = acc.add(v[i]);
            i = i + 1;
        }
        proof {
            assert(v@.take(v@.len() as int) =~= v@);
        }
        acc
    }
}

/// Relies on `rand::random`: a uniformly distributed raw 16-bit value.
/// Nothing can be promised of a random draw.
#[verifier::external_body]
fn random_u16() -> u16 {
    rand::random::<u16>()
}

} // verus!
