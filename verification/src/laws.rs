//! The algebraic laws this crate guarantees, each stated as a public proof
//! function over the same spec functions that the operators' contracts use.

use vstd::prelude::*;
use vstd::arithmetic::div_mod::{
    lemma_add_mod_noop_right, lemma_mod_self_0, lemma_mul_mod_noop_general,
};
use vstd::arithmetic::mul::{lemma_mul_is_associative, lemma_mul_is_commutative};

use crate::field_element::{add_mod, div_mod, mul_mod, pow_mod, sub_mod, FieldElement};
use crate::number_theory::{is_prime, lemma_fermat_little};
use vstd::arithmetic::power::pow;
use crate::point::{fe_on_curve, fe_point_add, int_on_curve, int_point_add, Points};

verus! {

/// Addition of residues is commutative.
pub proof fn lemma_add_commutative(a: FieldElement, b: FieldElement)
    requires
        a.wf(),
        b.wf(),
        a.prime == b.prime,
    ensures
        add_mod(a.num as int, b.num as int, a.prime as int)
            == add_mod(b.num as int, a.num as int, a.prime as int),
{
}

/// Addition of residues is associative.
pub proof fn lemma_add_associative(a: FieldElement, b: FieldElement, c: FieldElement)
    requires
        a.wf(),
        b.wf(),
        c.wf(),
        a.prime == b.prime,
        b.prime == c.prime,
    ensures
        add_mod(
            add_mod(a.num as int, b.num as int, a.prime as int),
            c.num as int,
            a.prime as int,
        ) == add_mod(
            a.num as int,
            add_mod(b.num as int, c.num as int, a.prime as int),
            a.prime as int,
        ),
{
    let p = a.prime as int;
    lemma_add_mod_noop_right(c.num as int, a.num + b.num, p);
    lemma_add_mod_noop_right(a.num as int, b.num + c.num, p);
}

/// Multiplication of residues is commutative.
pub proof fn lemma_mul_commutative(a: FieldElement, b: FieldElement)
    requires
        a.wf(),
        b.wf(),
        a.prime == b.prime,
    ensures
        mul_mod(a.num as int, b.num as int, a.prime as int)
            == mul_mod(b.num as int, a.num as int, a.prime as int),
{
    lemma_mul_is_commutative(a.num as int, b.num as int);
}

/// Multiplication of residues is associative.
pub proof fn lemma_mul_associative(a: FieldElement, b: FieldElement, c: FieldElement)
    requires
        a.wf(),
        b.wf(),
        c.wf(),
        a.prime == b.prime,
        b.prime == c.prime,
    ensures
        mul_mod(
            mul_mod(a.num as int, b.num as int, a.prime as int),
            c.num as int,
            a.prime as int,
        ) == mul_mod(
            a.num as int,
            mul_mod(b.num as int, c.num as int, a.prime as int),
            a.prime as int,
        ),
{
    let p = a.prime as int;
    lemma_mul_mod_noop_general(a.num * b.num, c.num as int, p);
    lemma_mul_mod_noop_general(a.num as int, b.num * c.num, p);
    lemma_mul_is_associative(a.num as int, b.num as int, c.num as int);
}

/// Division is exactly multiplication by the Fermat inverse `b^(p - 2)`.
pub proof fn lemma_div_is_mul_by_fermat_inverse(a: FieldElement, b: FieldElement)
    requires
        a.wf(),
        b.wf(),
        a.prime == b.prime,
        a.prime >= 2,
    ensures
        div_mod(a.num as int, b.num as int, a.prime as int) == mul_mod(
            a.num as int,
            pow_mod(b.num as int, (a.prime - 2) as nat, a.prime as int),
            a.prime as int,
        ),
{
}

/// A residue subtracted from itself leaves the zero residue.
pub proof fn lemma_sub_self(a: FieldElement)
    requires
        a.wf(),
    ensures
        sub_mod(a.num as int, a.num as int, a.prime as int) == 0,
{
    lemma_mod_self_0(a.prime as int);
    vstd::arithmetic::div_mod::lemma_small_mod(0nat, a.prime as nat);
}

/// Fermat consistency: modulo a prime, any nonzero residue raised to
/// `p - 1` is the unit residue.
pub proof fn lemma_fermat(a: FieldElement)
    requires
        a.wf(),
        is_prime(a.prime as int),
        a.num as int % (a.prime as int) != 0,
    ensures
        pow_mod(a.num as int, (a.prime - 1) as nat, a.prime as int) == 1,
{
    let p = a.prime as int;
    if a.num < a.prime {
        vstd::arithmetic::div_mod::lemma_small_mod(a.num as nat, a.prime as nat);
    } else {
        lemma_mod_self_0(p);
    }
    lemma_fermat_little(a.num as int, p);
}

/// A nonzero residue divided by itself is the unit residue, for a prime
/// modulus.
pub proof fn lemma_div_self(a: FieldElement)
    requires
        a.wf(),
        is_prime(a.prime as int),
        a.num as int % (a.prime as int) != 0,
    ensures
        div_mod(a.num as int, a.num as int, a.prime as int) == 1,
{
    let p = a.prime as int;
    let n = a.num as int;
    let e = (a.prime - 2) as nat;
    lemma_mul_mod_noop_general(n, pow(n, e), p);
    assert(pow(n, (a.prime - 1) as nat) == n * pow(n, e)) by {
        vstd::arithmetic::power::lemma_pow1(n);
        vstd::arithmetic::power::lemma_pow_adds(n, 1, e);
    }
    lemma_fermat(a);
}

/// The identity absorbs on the left: `Infinity + P == P` for finite `P`.
pub proof fn lemma_int_identity_left(q: Points<i128>)
    requires
        q is Point,
    ensures
        int_point_add(Points::Inf { a: q.spec_a(), b: q.spec_b() }, q) == q,
{
}

/// The identity absorbs on the right: `P + Infinity == P` for finite `P`.
pub proof fn lemma_int_identity_right(q: Points<i128>)
    requires
        q is Point,
    ensures
        int_point_add(q, Points::Inf { a: q.spec_a(), b: q.spec_b() }) == q,
{
}

/// The identity absorbs on the left for field-element points.
pub proof fn lemma_fe_identity_left(q: Points<FieldElement>)
    requires
        q is Point,
    ensures
        fe_point_add(Points::Inf { a: q.spec_a(), b: q.spec_b() }, q) == q,
{
}

/// The identity absorbs on the right for field-element points.
pub proof fn lemma_fe_identity_right(q: Points<FieldElement>)
    requires
        q is Point,
    ensures
        fe_point_add(q, Points::Inf { a: q.spec_a(), b: q.spec_b() }) == q,
{
}

/// The inverse law over plain integers: a finite point on the curve plus
/// its reflection across the x-axis is the identity.
pub proof fn lemma_int_add_inverse(x: i128, y: i128, ny: i128, a: i128, b: i128)
    requires
        int_on_curve(x as int, y as int, a as int, b as int),
        ny as int == -(y as int),
    ensures
        int_point_add(
            Points::Point { x, y, a, b },
            Points::Point { x, y: ny, a, b },
        ) == (Points::Inf { a, b }),
{
}

/// The inverse law over field elements, for an odd modulus: a finite point
/// on the curve plus its reflection (the negated residue) is the identity.
pub proof fn lemma_fe_add_inverse(
    x: FieldElement,
    y: FieldElement,
    ny: FieldElement,
    a: FieldElement,
    b: FieldElement,
)
    requires
        x.wf(),
        y.wf(),
        ny.wf(),
        a.wf(),
        b.wf(),
        x.prime == y.prime,
        y.prime == ny.prime,
        ny.prime == a.prime,
        a.prime == b.prime,
        x.prime % 2 == 1,
        fe_on_curve(x, y, a, b),
        ny.num as int == sub_mod(0, y.num as int, y.prime as int),
    ensures
        fe_point_add(
            Points::Point { x, y, a, b },
            Points::Point { x, y: ny, a, b },
        ) == (Points::Inf { a, b }),
{
    let p = y.prime as int;
    assert(ny.num as int == (-(y.num as int)) % p);
    if y.num == 0 {
        vstd::arithmetic::div_mod::lemma_small_mod(0nat, y.prime as nat);
        assert(ny.num == 0);
    } else if y.num as int == p {
        lemma_mod_self_0(p);
        vstd::arithmetic::div_mod::lemma_mod_add_multiples_vanish(-(y.num as int), p);
        assert(ny.num as int == 0int % p);
        vstd::arithmetic::div_mod::lemma_small_mod(0nat, y.prime as nat);
        assert(ny.num != y.num);
    } else {
        vstd::arithmetic::div_mod::lemma_mod_add_multiples_vanish(-(y.num as int), p);
        vstd::arithmetic::div_mod::lemma_small_mod((p - y.num) as nat, y.prime as nat);
        assert(ny.num as int == p - y.num);
        assert(ny.num != y.num);
    }
}

/// A point whose ordinate is the zero residue, added to itself, meets a
/// vertical tangent: the sum is the identity (plain integers).
pub proof fn lemma_int_double_vertical(x: i128, a: i128, b: i128)
    ensures
        int_point_add(
            Points::Point { x, y: 0, a, b },
            Points::Point { x, y: 0, a, b },
        ) == (Points::Inf { a, b }),
{
}

/// A point whose ordinate is the zero residue, added to itself, meets a
/// vertical tangent: the sum is the identity (field elements).
pub proof fn lemma_fe_double_vertical(x: FieldElement, y: FieldElement, a: FieldElement, b: FieldElement)
    requires
        y.num == 0,
    ensures
        fe_point_add(
            Points::Point { x, y, a, b },
            Points::Point { x, y, a, b },
        ) == (Points::Inf { a, b }),
{
}

} // verus!
