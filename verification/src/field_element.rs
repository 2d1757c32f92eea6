//! A residue modulo a prime, with modular arithmetic operators.
//!
//! The residue and the modulus are held as fixed-width machine integers;
//! every operator reduces its result into `[0, prime)` with Euclidean
//! (always-non-negative) remainder semantics.

use vstd::prelude::*;
use vstd::arithmetic::div_mod::{
    lemma_mod_add_multiples_vanish, lemma_mul_mod_noop_right, lemma_small_mod,
};
use vstd::arithmetic::power::{lemma_pow1, lemma_pow_adds, lemma_pow_multiplies, pow};

use crate::errors::EccError;

verus! {

/// `(a + b)` reduced into `[0, p)`.
pub open spec fn add_mod(a: int, b: int, p: int) -> int {
    (a + b) % p
}

/// `(a - b)` reduced into `[0, p)` (Euclidean remainder, never negative).
pub open spec fn sub_mod(a: int, b: int, p: int) -> int {
    (a - b) % p
}

/// `(a * b)` reduced into `[0, p)`.
pub open spec fn mul_mod(a: int, b: int, p: int) -> int {
    (a * b) % p
}

/// `a^e` reduced into `[0, p)`.
pub open spec fn pow_mod(a: int, e: nat, p: int) -> int {
    pow(a, e) % p
}

/// Division in the field: multiplication by the Fermat inverse `b^(p - 2)`.
/// Meaningful when `p` is prime; for other moduli it is still this formula.
pub open spec fn div_mod(a: int, b: int, p: int) -> int {
    mul_mod(a, pow_mod(b, (p - 2) as nat, p), p)
}

/// A residue modulo a prime. The modulus is called `prime` because that is
/// its intended use; primality itself is never checked.
#[derive(Clone, Copy, Debug, PartialEq, Eq)]
pub struct FieldElement {
    /// The residue. The constructor accepts any value up to and including
    /// `prime` (the boundary value is deliberately accepted); every
    /// arithmetic result is strictly below `prime`.
    pub num: u64,
    /// The modulus, a positive integer.
    pub prime: u64,
}

impl FieldElement {
    /// Well-formedness: the documented range of the residue, and a positive
    /// modulus.
    pub open spec fn wf(self) -> bool {
        1 <= self.prime && self.num <= self.prime
    }

    /// Constructs a field element, rejecting a residue beyond the modulus or
    /// a modulus of zero.
    pub fn new(num: u64, prime: u64) -> (r: Result<FieldElement, EccError>)
        ensures
            r is Ok <==> 1 <= prime && num <= prime,
            r is Ok ==> r->Ok_0 == (FieldElement { num, prime }),
            r is Err ==> r->Err_0 == EccError::RangeViolation,
    {
        if prime >= 1 && num <= prime {
            Ok(FieldElement { num, prime })
        } else {
            Err(EccError::RangeViolation)
        }
    }

    /// Modular addition of two residues sharing a modulus.
    pub fn add(self, rhs: FieldElement) -> (r: FieldElement)
        requires
            self.wf(),
            rhs.wf(),
            self.prime == rhs.prime,
        ensures
            r.prime == self.prime,
            r.num == add_mod(self.num as int, rhs.num as int, self.prime as int),
            r.num < r.prime,
            r.wf(),
    {
        let p: u128 = self.prime as u128;
        let s: u128 = self.num as u128 + rhs.num as u128;
        let m: u128 = s % p;
        assert(m < p);
        FieldElement { num: m as u64, prime: self.prime }
    }

    /// Modular subtraction of two residues sharing a modulus.
    pub fn sub(self, rhs: FieldElement) -> (r: FieldElement)
        requires
            self.wf(),
            rhs.wf(),
            self.prime == rhs.prime,
        ensures
            r.prime == self.prime,
            r.num == sub_mod(self.num as int, rhs.num as int, self.prime as int),
            r.num < r.prime,
            r.wf(),
    {
        let p: u128 = self.prime as u128;
        let s: u128 = self.num as u128 + p - rhs.num as u128;
        let m: u128 = s % p;
        proof {
            lemma_mod_add_multiples_vanish(self.num - rhs.num, self.prime as int);
        }
        assert(m < p);
        FieldElement { num: m as u64, prime: self.prime }
    }

    /// Modular multiplication of two residues sharing a modulus.
    pub fn mul(self, rhs: FieldElement) -> (r: FieldElement)
        requires
            self.wf(),
            rhs.wf(),
            self.prime == rhs.prime,
        ensures
            r.prime == self.prime,
            r.num == mul_mod(self.num as int, rhs.num as int, self.prime as int),
            r.num < r.prime,
            r.wf(),
    {
        let p: u128 = self.prime as u128;
        proof {
            lemma_mul_fits_u128(self.num as int, rhs.num as int);
        }
        let s: u128 = self.num as u128 * rhs.num as u128;
        let m: u128 = s % p;
        assert(m < p);
        FieldElement { num: m as u64, prime: self.prime }
    }

    /// `self` raised to a non-negative integer exponent, reduced into range.
    /// The exponent itself is not reduced; exponentiation is by squaring.
    pub fn pow(&self, exponent: u32) -> (r: FieldElement)
        requires
            self.wf(),
        ensures
            r.prime == self.prime,
            r.num == pow_mod(self.num as int, exponent as nat, self.prime as int),
            r.num < r.prime,
            r.wf(),
    {
        let num = pow_mod_u64(self.num, exponent as u64, self.prime);
        FieldElement { num, prime: self.prime }
    }

    /// Field division: multiplication by the Fermat inverse `rhs^(p - 2)`.
    /// The quotient is meaningful only for a prime modulus; the contract
    /// states the computed formula for every modulus of at least two.
    pub fn div(self, rhs: FieldElement) -> (r: FieldElement)
        requires
            self.wf(),
            rhs.wf(),
            self.prime == rhs.prime,
            self.prime >= 2,
        ensures
            r.prime == self.prime,
            r.num == div_mod(self.num as int, rhs.num as int, self.prime as int),
            r.num < r.prime,
            r.wf(),
    {
        let p = self.prime;
        let inv = pow_mod_u64(rhs.num, p - 2, p);
        proof {
            lemma_mul_fits_u128(self.num as int, inv as int);
            lemma_mul_mod_noop_right(self.num as int, pow(rhs.num as int, (p - 2) as nat), p as int);
        }
        let m: u128 = (self.num as u128 * inv as u128) % (p as u128);
        assert(m < p as u128);
        FieldElement { num: m as u64, prime: p }
    }

    /// The residue of a plain integer modulo `prime`: the named conversion
    /// from machine integers to field elements. A negative integer reduces
    /// to its non-negative residue.
    pub fn from_integer(n: i32, prime: u64) -> (r: FieldElement)
        requires
            1 <= prime,
        ensures
            r.prime == prime,
            r.num == (n as int) % (prime as int),
            r.num < r.prime,
            r.wf(),
    {
        if n >= 0 {
            let m: u64 = (n as u64) % prime;
            FieldElement { num: m, prime }
        } else {
            let mag: u64 = (-(n as i64)) as u64;
            let r: u64 = mag % prime;
            proof {
                lemma_neg_mod(mag as int, prime as int);
            }
            if r == 0 {
                FieldElement { num: 0, prime }
            } else {
                FieldElement { num: prime - r, prime }
            }
        }
    }

    /// Addition with a plain integer: the integer is first converted to a
    /// field element, then added.
    pub fn add_int(self, rhs: i32) -> (r: FieldElement)
        requires
            self.wf(),
        ensures
            r.prime == self.prime,
            r.num == add_mod(self.num as int, rhs as int, self.prime as int),
            r.num < r.prime,
            r.wf(),
    {
        let other = FieldElement::from_integer(rhs, self.prime);
        let r = self.add(other);
        proof {
            vstd::arithmetic::div_mod::lemma_add_mod_noop_right(
                self.num as int, rhs as int, self.prime as int);
        }
        r
    }

    /// Subtraction of a plain integer, converted first.
    pub fn sub_int(self, rhs: i32) -> (r: FieldElement)
        requires
            self.wf(),
        ensures
            r.prime == self.prime,
            r.num == sub_mod(self.num as int, rhs as int, self.prime as int),
            r.num < r.prime,
            r.wf(),
    {
        let other = FieldElement::from_integer(rhs, self.prime);
        let r = self.sub(other);
        proof {
            vstd::arithmetic::div_mod::lemma_sub_mod_noop_right(
                self.num as int, rhs as int, self.prime as int);
        }
        r
    }

    /// Subtraction from a plain integer, converted first: `lhs - self`.
    pub fn int_sub(self, lhs: i32) -> (r: FieldElement)
        requires
            self.wf(),
        ensures
            r.prime == self.prime,
            r.num == sub_mod(lhs as int, self.num as int, self.prime as int),
            r.num < r.prime,
            r.wf(),
    {
        let other = FieldElement::from_integer(lhs, self.prime);
        let r = other.sub(self);
        proof {
            vstd::arithmetic::div_mod::lemma_sub_mod_noop(
                lhs as int, self.num as int, self.prime as int);
            vstd::arithmetic::div_mod::lemma_sub_mod_noop_right(
                (lhs as int) % (self.prime as int), self.num as int, self.prime as int);
        }
        r
    }

    /// Multiplication by a plain integer, converted first. The same residue
    /// results whichever operand order a caller prefers.
    pub fn mul_int(self, rhs: i32) -> (r: FieldElement)
        requires
            self.wf(),
        ensures
            r.prime == self.prime,
            r.num == mul_mod(self.num as int, rhs as int, self.prime as int),
            r.num < r.prime,
            r.wf(),
    {
        let other = FieldElement::from_integer(rhs, self.prime);
        let r = self.mul(other);
        proof {
            lemma_mul_mod_noop_right(self.num as int, rhs as int, self.prime as int);
        }
        r
    }

    /// Division by a plain integer, converted first and inverted through the
    /// Fermat inverse of its residue.
    pub fn div_int(self, rhs: i32) -> (r: FieldElement)
        requires
            self.wf(),
            self.prime >= 2,
        ensures
            r.prime == self.prime,
            r.num == div_mod(self.num as int, (rhs as int) % (self.prime as int), self.prime as int),
            r.num < r.prime,
            r.wf(),
    {
        let other = FieldElement::from_integer(rhs, self.prime);
        self.div(other)
    }

    /// Division of a plain integer by `self`, the integer converted first.
    pub fn int_div(self, lhs: i32) -> (r: FieldElement)
        requires
            self.wf(),
            self.prime >= 2,
        ensures
            r.prime == self.prime,
            r.num == div_mod(lhs as int, self.num as int, self.prime as int),
            r.num < r.prime,
            r.wf(),
    {
        let other = FieldElement::from_integer(lhs, self.prime);
        let r = other.div(self);
        proof {
            vstd::arithmetic::div_mod::lemma_mul_mod_noop_left(
                lhs as int,
                pow_mod(self.num as int, (self.prime - 2) as nat, self.prime as int),
                self.prime as int);
        }
        r
    }

    /// Equality against a plain integer compares the residue value alone,
    /// without reduction and ignoring the modulus.
    pub fn eq_int(&self, other: i32) -> (r: bool)
        ensures
            r <==> self.num as int == other as int,
    {
        other >= 0 && self.num == other as u64
    }
}

/// The Euclidean remainder of a negated non-negative value: the modulus
/// minus the value's own remainder, or zero when the value divides evenly.
proof fn lemma_neg_mod(mag: int, p: int)
    requires
        0 <= mag,
        1 <= p,
    ensures
        (-mag) % p == (if mag % p == 0 { 0int } else { p - mag % p }),
{
    let q = mag / p;
    vstd::arithmetic::div_mod::lemma_fundamental_div_mod(mag, p);
    vstd::arithmetic::div_mod::lemma_mod_bound(mag, p);
    assert(p * (-q - 1) == p * (-q) - p * 1) by {
        vstd::arithmetic::mul::lemma_mul_is_distributive_sub(p, -q, 1);
    }
    assert(p * (-q) == -(p * q)) by {
        vstd::arithmetic::mul::lemma_mul_unary_negation(p, q);
    }
    assert(p * q == q * p) by {
        vstd::arithmetic::mul::lemma_mul_is_commutative(p, q);
    }
    assert(-mag == p * (-q - 1) + (p - mag % p));
    vstd::arithmetic::div_mod::lemma_mod_multiples_vanish(-q - 1, p - mag % p, p);
    if mag % p == 0 {
        vstd::arithmetic::div_mod::lemma_mod_self_0(p);
    } else {
        lemma_small_mod((p - mag % p) as nat, p as nat);
    }
}

/// Fast modular exponentiation by squaring: `base^exp` reduced modulo `p`.
pub(crate) fn pow_mod_u64(base: u64, exp: u64, p: u64) -> (r: u64)
    requires
        1 <= p,
    ensures
        r == pow_mod(base as int, exp as nat, p as int),
        r < p,
{
    let mut result: u64 = 1 % p;
    let mut b: u64 = base % p;
    let mut e: u64 = exp;
    proof {
        lemma_pow_mod_shrink(base as int, exp as nat, p as int);
    }
    while e > 0
        invariant
            1 <= p,
            result < p,
            b < p,
            mul_mod(result as int, pow(b as int, e as nat), p as int)
                == pow_mod(base as int, exp as nat, p as int),
        decreases e,
    {
        if e % 2 == 1 {
            proof {
                lemma_mul_fits_u128(result as int, b as int);
            }
            let m: u128 = (result as u128 * b as u128) % (p as u128);
            assert(m < p as u128);
            proof {
                lemma_pow_mod_step_odd(result as int, b as int, e as nat, p as int);
            }
            result = m as u64;
            e = e - 1;
        } else {
            proof {
                lemma_pow_mod_step_even(result as int, b as int, e as nat, p as int);
            }
            proof {
                lemma_mul_fits_u128(b as int, b as int);
            }
            let m: u128 = (b as u128 * b as u128) % (p as u128);
            assert(m < p as u128);
            b = m as u64;
            e = e / 2;
        }
    }
    proof {
        lemma_pow1(b as int);
        vstd::arithmetic::power::lemma_pow0(b as int);
        lemma_mul_mod_noop_right(result as int, 1, p as int);
        assert(pow(b as int, 0) == 1);
        lemma_small_mod(result as nat, p as nat);
        assert(mul_mod(result as int, 1int, p as int) == (result as int) % (p as int));
    }
    result
}

/// Reducing the base modulo `p` first leaves the reduced power unchanged.
proof fn lemma_pow_mod_shrink(base: int, exp: nat, p: int)
    requires
        1 <= p,
        0 <= base,
    ensures
        mul_mod(1int % p, pow(base % p, exp), p) == pow_mod(base, exp, p),
{
    vstd::arithmetic::power::lemma_pow_mod_noop(base, exp, p);
    lemma_mul_mod_noop_right(1int % p, pow(base % p, exp), p);
    lemma_mul_mod_noop_general(1int, pow(base % p, exp), p);
}

/// One odd step of square-and-multiply: folding the base into the
/// accumulator keeps the running product's residue.
proof fn lemma_pow_mod_step_odd(result: int, b: int, e: nat, p: int)
    requires
        1 <= p,
        e % 2 == 1,
        e > 0,
    ensures
        mul_mod(mul_mod(result, b, p), pow(b, (e - 1) as nat), p)
            == mul_mod(result, pow(b, e), p),
{
    lemma_pow_adds(b, 1, (e - 1) as nat);
    lemma_pow1(b);
    assert(pow(b, e) == b * pow(b, (e - 1) as nat));
    vstd::arithmetic::mul::lemma_mul_is_associative(result, b, pow(b, (e - 1) as nat));
    lemma_mul_mod_noop_general(result * b, pow(b, (e - 1) as nat), p);
}

/// One even step of square-and-multiply: squaring the base and halving the
/// exponent keeps the running product's residue.
proof fn lemma_pow_mod_step_even(result: int, b: int, e: nat, p: int)
    requires
        1 <= p,
        e % 2 == 0,
        e > 0,
    ensures
        mul_mod(result, pow(mul_mod(b, b, p), (e / 2) as nat), p)
            == mul_mod(result, pow(b, e), p),
{
    let h = (e / 2) as nat;
    lemma_pow_multiplies(b, 2, h);
    lemma_pow_adds(b, 1, 1);
    lemma_pow1(b);
    assert(pow(b, 2) == b * b);
    assert(pow(b, (2 * h) as nat) == pow(b * b, h));
    assert(e == 2 * h);
    vstd::arithmetic::power::lemma_pow_mod_noop(b * b, h, p);
    lemma_mul_mod_noop_right(result, pow((b * b) % p, h), p);
    lemma_mul_mod_noop_right(result, pow(b * b, h), p);
}

/// The product of two values that fit in 64 bits fits in 128 bits.
proof fn lemma_mul_fits_u128(x: int, y: int)
    requires
        0 <= x <= 0xffff_ffff_ffff_ffff,
        0 <= y <= 0xffff_ffff_ffff_ffff,
    ensures
        x * y <= 0xffff_ffff_ffff_ffff_ffff_ffff_ffff_ffff,
{
    vstd::arithmetic::mul::lemma_mul_upper_bound(x, 0xffff_ffff_ffff_ffff, y, 0xffff_ffff_ffff_ffff);
}

/// The two factors of a product may each be reduced before multiplying.
proof fn lemma_mul_mod_noop_general(x: int, y: int, p: int)
    requires
        1 <= p,
    ensures
        mul_mod(x % p, y, p) == mul_mod(x, y, p),
        mul_mod(x, y % p, p) == mul_mod(x, y, p),
        mul_mod(x % p, y % p, p) == mul_mod(x, y, p),
{
    vstd::arithmetic::div_mod::lemma_mul_mod_noop_general(x, y, p);
}

} // verus!
