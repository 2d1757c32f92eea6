//! Curve elements: a finite coordinate pair on `y^2 = x^3 + a*x + b`, or
//! the point at infinity, combined by the elliptic-curve addition law.
//!
//! The addition law is one case-based algorithm, instantiated twice: once
//! for plain machine-integer coordinates (small pedagogical curves) and once
//! for field-element coordinates (curves over a prime field).

use vstd::prelude::*;
use vstd::arithmetic::div_mod::{lemma_div_nonincreasing, lemma_div_pos_is_pos};

use crate::errors::EccError;
use crate::field_element::{add_mod, div_mod, mul_mod, pow_mod, sub_mod, FieldElement};

verus! {

/// A curve element: a finite point with its curve coefficients, or the
/// point at infinity. The identity carries `a` and `b` so curve identity
/// can still be checked against finite points.
#[derive(Clone, Copy, Debug, PartialEq, Eq)]
pub enum Points<T> {
    Point { x: T, y: T, a: T, b: T },
    Inf { a: T, b: T },
}

/// Construction of a validated finite point, one implementation per
/// coordinate type. Construction fails rather than producing a point that
/// is off its curve.
pub trait NewPoints<T> {
    /// What a caller must establish before constructing at all (for
    /// machine-integer coordinates: bounds that keep the validation
    /// arithmetic inside the machine type).
    spec fn new_pre(x: T, y: T, a: T, b: T) -> bool;

    /// The exact construction outcome for the given coordinates.
    spec fn new_spec(x: T, y: T, a: T, b: T) -> Result<Points<T>, EccError>;

    /// Validates the curve equation `y^2 == x^3 + a*x + b` and constructs
    /// the finite point, or reports why it cannot exist.
    fn new(x: T, y: T, a: T, b: T) -> (r: Result<Points<T>, EccError>)
        requires
            Self::new_pre(x, y, a, b),
        ensures
            r == Self::new_spec(x, y, a, b),
    ;
}

impl<T> Points<T> {
    /// The curve coefficient `a`, whichever variant carries it.
    pub open spec fn spec_a(self) -> T {
        match self {
            Points::Point { x: _, y: _, a, b: _ } => a,
            Points::Inf { a, b: _ } => a,
        }
    }

    /// The curve coefficient `b`, whichever variant carries it.
    pub open spec fn spec_b(self) -> T {
        match self {
            Points::Point { x: _, y: _, a: _, b } => b,
            Points::Inf { a: _, b } => b,
        }
    }

    /// The point at infinity of the curve `(a, b)`: the additive identity.
    pub fn inf(a: T, b: T) -> (r: Points<T>)
        ensures
            r == (Points::Inf { a, b }),
    {
        Points::Inf { a, b }
    }

    /// The curve coefficient `a` of this element.
    pub fn a(&self) -> (r: &T)
        ensures
            *r == self.spec_a(),
    {
        match self {
            Points::Point { x: _, y: _, a, b: _ } => a,
            Points::Inf { a, b: _ } => a,
        }
    }

    /// The curve coefficient `b` of this element.
    pub fn b(&self) -> (r: &T)
        ensures
            *r == self.spec_b(),
    {
        match self {
            Points::Point { x: _, y: _, a: _, b } => b,
            Points::Inf { a: _, b } => b,
        }
    }
}

/// Exact curve membership for machine-integer coordinates.
pub open spec fn int_on_curve(x: int, y: int, a: int, b: int) -> bool {
    y * y == x * x * x + a * x + b
}

/// The coordinate magnitude the machine-integer instantiation accepts: it
/// keeps every intermediate of validation and of the addition law inside
/// `i128`.
pub open spec fn int_bounded(v: int) -> bool {
    -1_000_000 <= v <= 1_000_000
}

/// Rust's truncating integer division (quotient rounded toward zero),
/// expressed over the Euclidean division of ghost integers.
pub open spec fn div_trunc(x: int, d: int) -> int {
    if x == 0 {
        0
    } else if x > 0 && d > 0 {
        x / d
    } else if x < 0 && d < 0 {
        (x * -1) / (d * -1)
    } else if x < 0 {
        ((x * -1) / d) * -1
    } else {
        (x / (d * -1)) * -1
    }
}

/// What the machine-integer addition law requires of its operands: one
/// shared curve, not two identities at once, and coordinates small enough
/// that no intermediate leaves `i128`.
pub open spec fn int_add_pre(p1: Points<i128>, p2: Points<i128>) -> bool {
    &&& p1.spec_a() == p2.spec_a()
    &&& p1.spec_b() == p2.spec_b()
    &&& !(p1 is Inf && p2 is Inf)
    &&& match (p1, p2) {
        (Points::Point { x: x1, y: y1, a, b: _ }, Points::Point { x: x2, y: y2, .. }) => {
            int_bounded(x1 as int) && int_bounded(y1 as int) && int_bounded(x2 as int)
                && int_bounded(y2 as int) && int_bounded(a as int)
        },
        _ => true,
    }
}

/// The elliptic-curve addition law over plain integers, case by case:
/// identity absorption, the vertical chord, the general chord, and
/// doubling (with a vertical tangent when `y == 0`).
pub open spec fn int_point_add(p1: Points<i128>, p2: Points<i128>) -> Points<i128> {
    match (p1, p2) {
        (Points::Point { x: x1, y: y1, a, b }, Points::Point { x: x2, y: y2, .. }) => {
            if x1 == x2 && y1 != y2 {
                Points::Inf { a, b }
            } else if x1 != x2 {
                let s = div_trunc(y2 - y1, x2 - x1);
                let x3 = s * s - x1 - x2;
                let y3 = s * (x1 - x3) - y1;
                Points::Point { x: x3 as i128, y: y3 as i128, a, b }
            } else if y1 == 0 {
                Points::Inf { a, b }
            } else {
                let s = div_trunc(3 * (x1 * x1) + a, 2 * y1);
                let x3 = s * s - 2 * x1;
                let y3 = s * (x1 - x3) - y1;
                Points::Point { x: x3 as i128, y: y3 as i128, a, b }
            }
        },
        (Points::Inf { .. }, _) => p2,
        (_, Points::Inf { .. }) => p1,
    }
}

impl NewPoints<i128> for Points<i128> {
    open spec fn new_pre(x: i128, y: i128, a: i128, b: i128) -> bool {
        int_bounded(x as int) && int_bounded(y as int) && int_bounded(a as int)
            && int_bounded(b as int)
    }

    open spec fn new_spec(x: i128, y: i128, a: i128, b: i128) -> Result<Points<i128>, EccError> {
        if int_on_curve(x as int, y as int, a as int, b as int) {
            Ok(Points::Point { x, y, a, b })
        } else {
            Err(EccError::CurveMembershipViolation)
        }
    }

    fn new(x: i128, y: i128, a: i128, b: i128) -> (r: Result<Points<i128>, EccError>) {
        proof {
            lemma_mul_bound(y as int, y as int, 1_000_000, 1_000_000);
            lemma_mul_bound(x as int, x as int, 1_000_000, 1_000_000);
            lemma_mul_bound(x as int * x as int, x as int, 1_000_000_000_000, 1_000_000);
            lemma_mul_bound(a as int, x as int, 1_000_000, 1_000_000);
        }
        let y2: i128 = y * y;
        let x3: i128 = x * x * x;
        let ax: i128 = a * x;
        if y2 == x3 + ax + b {
            Ok(Points::Point { x, y, a, b })
        } else {
            Err(EccError::CurveMembershipViolation)
        }
    }
}

impl Points<i128> {
    /// The addition law for machine-integer coordinates. Chord and tangent
    /// slopes use the machine's truncating division, exactly as the
    /// contract states.
    pub fn add(self, rhs: Points<i128>) -> (r: Points<i128>)
        requires
            int_add_pre(self, rhs),
        ensures
            r == int_point_add(self, rhs),
    {
        match (self, rhs) {
            (
                Points::Point { x: x1, y: y1, a: a1, b: b1 },
                Points::Point { x: x2, y: y2, a: _, b: _ },
            ) => {
                if x1 == x2 && y1 != y2 {
                    Points::Inf { a: a1, b: b1 }
                } else if x1 != x2 {
                    let num: i128 = y2 - y1;
                    let den: i128 = x2 - x1;
                    proof {
                        lemma_div_trunc_bound(num as int, den as int, 2_000_000);
                    }
                    let s: i128 = match num.checked_div(den) {
                        Some(v) => v,
                        None => {
                            proof {
                                assert(false);
                            }
                            0
                        },
                    };
                    proof {
                        lemma_mul_bound(s as int, s as int, 2_000_000, 2_000_000);
                    }
                    let x3: i128 = s * s - x1 - x2;
                    proof {
                        lemma_mul_bound(
                            s as int,
                            x1 - x3,
                            2_000_000,
                            6_000_000_000_000,
                        );
                    }
                    let y3: i128 = s * (x1 - x3) - y1;
                    Points::Point { x: x3, y: y3, a: a1, b: b1 }
                } else if y1 == 0 {
                    Points::Inf { a: a1, b: b1 }
                } else {
                    proof {
                        lemma_mul_bound(x1 as int, x1 as int, 1_000_000, 1_000_000);
                    }
                    let xx: i128 = x1 * x1;
                    let num: i128 = 3 * xx + a1;
                    let den: i128 = 2 * y1;
                    proof {
                        lemma_div_trunc_bound(num as int, den as int, 4_000_000_000_000);
                    }
                    let s: i128 = match num.checked_div(den) {
                        Some(v) => v,
                        None => {
                            proof {
                                assert(false);
                            }
                            0
                        },
                    };
                    proof {
                        lemma_mul_bound(
                            s as int,
                            s as int,
                            4_000_000_000_000,
                            4_000_000_000_000,
                        );
                    }
                    let x3: i128 = s * s - 2 * x1;
                    proof {
                        lemma_mul_bound(
                            s as int,
                            x1 - x3,
                            4_000_000_000_000,
                            20_000_000_000_000_000_000_000_000,
                        );
                    }
                    let y3: i128 = s * (x1 - x3) - y1;
                    Points::Point { x: x3, y: y3, a: a1, b: b1 }
                }
            },
            (Points::Inf { a: _, b: _ }, Points::Point { .. }) => rhs,
            (Points::Point { .. }, Points::Inf { a: _, b: _ }) => self,
            (Points::Inf { a: _, b: _ }, Points::Inf { a: _, b: _ }) => {
                // Two identities at once is a caller error, excluded above.
                vstd::pervasive::unreached()
            },
        }
    }
}

/// Exact curve membership for field-element coordinates: the curve
/// equation evaluated with modular arithmetic, residues compared after
/// reduction.
pub open spec fn fe_on_curve(x: FieldElement, y: FieldElement, a: FieldElement, b: FieldElement) -> bool {
    let p = x.prime as int;
    pow_mod(y.num as int, 2, p) == add_mod(
        add_mod(pow_mod(x.num as int, 3, p), mul_mod(a.num as int, x.num as int, p), p),
        b.num as int,
        p,
    )
}

/// Well-formed components: every coordinate and coefficient in range, all
/// sharing one modulus.
pub open spec fn fe_components_wf(p: Points<FieldElement>) -> bool {
    match p {
        Points::Point { x, y, a, b } => {
            x.wf() && y.wf() && a.wf() && b.wf() && x.prime == y.prime && y.prime == a.prime
                && a.prime == b.prime
        },
        Points::Inf { a, b } => a.wf() && b.wf() && a.prime == b.prime,
    }
}

/// The shared modulus of a curve element's components.
pub open spec fn fe_prime_of(p: Points<FieldElement>) -> u64 {
    p.spec_a().prime
}

/// What the field-element addition law requires: one shared curve, not two
/// identities at once, well-formed components, and (where a slope must be
/// computed) a modulus of at least two so the Fermat inverse exists.
pub open spec fn fe_add_pre(p1: Points<FieldElement>, p2: Points<FieldElement>) -> bool {
    &&& p1.spec_a() == p2.spec_a()
    &&& p1.spec_b() == p2.spec_b()
    &&& !(p1 is Inf && p2 is Inf)
    &&& fe_components_wf(p1)
    &&& fe_components_wf(p2)
    &&& (p1 is Point && p2 is Point ==> fe_prime_of(p1) >= 2)
}

/// The elliptic-curve addition law over field elements: the same four
/// cases as the integer instantiation, with every arithmetic step reduced
/// modulo the shared prime.
pub open spec fn fe_point_add(p1: Points<FieldElement>, p2: Points<FieldElement>) -> Points<
    FieldElement,
> {
    match (p1, p2) {
        (Points::Point { x: x1, y: y1, a, b }, Points::Point { x: x2, y: y2, .. }) => {
            let p = x1.prime;
            if x1.num == x2.num && y1.num != y2.num {
                Points::Inf { a, b }
            } else if x1.num != x2.num {
                let s = div_mod(
                    sub_mod(y2.num as int, y1.num as int, p as int),
                    sub_mod(x2.num as int, x1.num as int, p as int),
                    p as int,
                );
                let x3 = sub_mod(
                    sub_mod(pow_mod(s, 2, p as int), x1.num as int, p as int),
                    x2.num as int,
                    p as int,
                );
                let y3 = sub_mod(
                    mul_mod(s, sub_mod(x1.num as int, x3, p as int), p as int),
                    y1.num as int,
                    p as int,
                );
                Points::Point {
                    x: (FieldElement { num: x3 as u64, prime: p }),
                    y: (FieldElement { num: y3 as u64, prime: p }),
                    a,
                    b,
                }
            } else if y1.num == 0 {
                Points::Inf { a, b }
            } else {
                let s = div_mod(
                    add_mod(
                        mul_mod(pow_mod(x1.num as int, 2, p as int), 3, p as int),
                        a.num as int,
                        p as int,
                    ),
                    mul_mod(y1.num as int, 2, p as int),
                    p as int,
                );
                let x3 = sub_mod(
                    pow_mod(s, 2, p as int),
                    mul_mod(x1.num as int, 2, p as int),
                    p as int,
                );
                let y3 = sub_mod(
                    mul_mod(s, sub_mod(x1.num as int, x3, p as int), p as int),
                    y1.num as int,
                    p as int,
                );
                Points::Point {
                    x: (FieldElement { num: x3 as u64, prime: p }),
                    y: (FieldElement { num: y3 as u64, prime: p }),
                    a,
                    b,
                }
            }
        },
        (Points::Inf { .. }, _) => p2,
        (_, Points::Inf { .. }) => p1,
    }
}

impl NewPoints<FieldElement> for Points<FieldElement> {
    open spec fn new_pre(x: FieldElement, y: FieldElement, a: FieldElement, b: FieldElement) -> bool {
        x.wf() && y.wf() && a.wf() && b.wf()
    }

    open spec fn new_spec(x: FieldElement, y: FieldElement, a: FieldElement, b: FieldElement) -> Result<
        Points<FieldElement>,
        EccError,
    > {
        if !(x.prime == y.prime && y.prime == a.prime && a.prime == b.prime) {
            Err(EccError::IncompatibleOperands)
        } else if fe_on_curve(x, y, a, b) {
            Ok(Points::Point { x, y, a, b })
        } else {
            Err(EccError::CurveMembershipViolation)
        }
    }

    fn new(x: FieldElement, y: FieldElement, a: FieldElement, b: FieldElement) -> (r: Result<
        Points<FieldElement>,
        EccError,
    >) {
        if !(x.prime == y.prime && y.prime == a.prime && a.prime == b.prime) {
            return Err(EccError::IncompatibleOperands);
        }
        let lhs = y.pow(2);
        let rhs = x.pow(3).add(a.mul(x)).add(b);
        if lhs.num == rhs.num {
            Ok(Points::Point { x, y, a, b })
        } else {
            Err(EccError::CurveMembershipViolation)
        }
    }
}

impl Points<FieldElement> {
    /// The addition law for field-element coordinates: every arithmetic
    /// step reduces modulo the shared prime, so closure into `[0, prime)`
    /// holds at each intermediate.
    pub fn add(self, rhs: Points<FieldElement>) -> (r: Points<FieldElement>)
        requires
            fe_add_pre(self, rhs),
        ensures
            r == fe_point_add(self, rhs),
    {
        match (self, rhs) {
            (
                Points::Point { x: x1, y: y1, a: a1, b: b1 },
                Points::Point { x: x2, y: y2, a: _, b: _ },
            ) => {
                if x1.num == x2.num && y1.num != y2.num {
                    Points::Inf { a: a1, b: b1 }
                } else if x1.num != x2.num {
                    let s = y2.sub(y1).div(x2.sub(x1));
                    let x3 = s.pow(2).sub(x1).sub(x2);
                    let y3 = s.mul(x1.sub(x3)).sub(y1);
                    Points::Point { x: x3, y: y3, a: a1, b: b1 }
                } else if y1.num == 0 {
                    Points::Inf { a: a1, b: b1 }
                } else {
                    let s = x1.pow(2).mul_int(3).add(a1).div(y1.mul_int(2));
                    let x3 = s.pow(2).sub(x1.mul_int(2));
                    let y3 = s.mul(x1.sub(x3)).sub(y1);
                    Points::Point { x: x3, y: y3, a: a1, b: b1 }
                }
            },
            (Points::Inf { a: _, b: _ }, Points::Point { .. }) => rhs,
            (Points::Point { .. }, Points::Inf { a: _, b: _ }) => self,
            (Points::Inf { a: _, b: _ }, Points::Inf { a: _, b: _ }) => {
                // Two identities at once is a caller error, excluded above.
                vstd::pervasive::unreached()
            },
        }
    }
}

/// The decimal character for one digit value.
pub open spec fn digit_char(d: int) -> char {
    if d == 0 {
        '0'
    } else if d == 1 {
        '1'
    } else if d == 2 {
        '2'
    } else if d == 3 {
        '3'
    } else if d == 4 {
        '4'
    } else if d == 5 {
        '5'
    } else if d == 6 {
        '6'
    } else if d == 7 {
        '7'
    } else if d == 8 {
        '8'
    } else {
        '9'
    }
}

/// The decimal rendering of a non-negative integer, most significant digit
/// first, without leading zeroes (a single zero renders as itself).
pub open spec fn spec_udec(n: int) -> Seq<char>
    decreases n,
{
    if n < 10 {
        seq![digit_char(n)]
    } else {
        spec_udec(n / 10).push(digit_char(n % 10))
    }
}

/// The decimal rendering of an integer: a leading minus sign for negative
/// values.
pub open spec fn spec_idec(n: int) -> Seq<char> {
    if n < 0 {
        seq!['-'] + spec_udec(-n)
    } else {
        spec_udec(n)
    }
}

/// The diagnostic rendering of a machine-integer curve element:
/// `Point(x, y)_a_b` for a finite point, `Point(infinity)` for the
/// identity. Not a parseable format.
pub open spec fn spec_point_render(q: Points<i128>) -> Seq<char> {
    match q {
        Points::Point { x, y, a, b } => "Point("@ + spec_idec(x as int) + ", "@ + spec_idec(
            y as int,
        ) + ")_"@ + spec_idec(a as int) + "_"@ + spec_idec(b as int),
        Points::Inf { a: _, b: _ } => "Point(infinity)"@,
    }
}

/// One decimal digit as a borrowed string.
fn digit_str(d: u128) -> (r: &'static str)
    requires
        d < 10,
    ensures
        r@ == seq![digit_char(d as int)],
{
    proof {
        reveal_strlit("0");
        reveal_strlit("1");
        reveal_strlit("2");
        reveal_strlit("3");
        reveal_strlit("4");
        reveal_strlit("5");
        reveal_strlit("6");
        reveal_strlit("7");
        reveal_strlit("8");
        reveal_strlit("9");
    }
    let r: &'static str = match d {
        0 => "0",
        1 => "1",
        2 => "2",
        3 => "3",
        4 => "4",
        5 => "5",
        6 => "6",
        7 => "7",
        8 => "8",
        _ => "9",
    };
    proof {
        assert(r@ =~= seq![digit_char(d as int)]);
    }
    r
}

/// Appends the decimal rendering of a non-negative value.
fn push_udec(s: &mut String, n: u128)
    ensures
        final(s)@ == old(s)@ + spec_udec(n as int),
    decreases n,
{
    if n < 10 {
        let d = digit_str(n);
        s.append(d);
    } else {
        push_udec(s, n / 10);
        let d = digit_str(n % 10);
        s.append(d);
        proof {
            assert(final(s)@ =~= old(s)@ + spec_udec(n as int));
        }
    }
}

/// Appends the decimal rendering of a signed value.
fn push_idec(s: &mut String, n: i128)
    ensures
        final(s)@ == old(s)@ + spec_idec(n as int),
{
    if n < 0 {
        proof {
            reveal_strlit("-");
        }
        s.append("-");
        let mag: u128 = ((-(n + 1)) as u128) + 1;
        assert(mag as int == -(n as int));
        push_udec(s, mag);
        proof {
            assert("-"@ =~= seq!['-']);
            assert(final(s)@ =~= old(s)@ + spec_idec(n as int));
        }
    } else {
        push_udec(s, n as u128);
    }
}

impl Points<i128> {
    /// Renders this element for diagnostics, exactly as
    /// [`spec_point_render`] states.
    pub fn render(&self) -> (r: String)
        ensures
            r@ == spec_point_render(*self),
    {
        match self {
            Points::Point { x, y, a, b } => {
                let mut s = String::new();
                s.append("Point(");
                push_idec(&mut s, *x);
                s.append(", ");
                push_idec(&mut s, *y);
                s.append(")_");
                push_idec(&mut s, *a);
                s.append("_");
                push_idec(&mut s, *b);
                proof {
                    assert(s@ =~= spec_point_render(*self));
                }
                s
            },
            Points::Inf { a: _, b: _ } => {
                let mut s = String::new();
                s.append("Point(infinity)");
                proof {
                    assert(s@ =~= spec_point_render(*self));
                }
                s
            },
        }
    }
}

/// The product of two values stays within the product of their bounds.
proof fn lemma_mul_bound(x: int, y: int, bx: int, by: int)
    by (nonlinear_arith)
    requires
        -bx <= x <= bx,
        -by <= y <= by,
        0 <= bx,
        0 <= by,
    ensures
        -(bx * by) <= x * y <= bx * by,
{
}

/// A truncating quotient is never larger in magnitude than its dividend.
proof fn lemma_div_trunc_bound(x: int, d: int, bound: int)
    requires
        d != 0,
        0 <= bound,
        -bound <= x <= bound,
    ensures
        -bound <= div_trunc(x, d) <= bound,
{
    if x == 0 {
    } else if x > 0 && d > 0 {
        lemma_div_pos_is_pos(x, d);
        lemma_div_nonincreasing(x, d);
    } else if x < 0 && d < 0 {
        lemma_div_pos_is_pos(x * -1, d * -1);
        lemma_div_nonincreasing(x * -1, d * -1);
    } else if x < 0 {
        lemma_div_pos_is_pos(x * -1, d);
        lemma_div_nonincreasing(x * -1, d);
    } else {
        lemma_div_pos_is_pos(x, d * -1);
        lemma_div_nonincreasing(x, d * -1);
    }
}

} // verus!
