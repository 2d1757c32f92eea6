//! The number theory behind the Fermat inverse: primality, Euclid's lemma,
//! and Fermat's little theorem, proved from first principles over ghost
//! integers.

use vstd::prelude::*;
use vstd::arithmetic::div_mod::{
    lemma_add_mod_noop_right, lemma_fundamental_div_mod, lemma_mod_bound, lemma_mod_equivalence,
    lemma_mod_multiples_basic, lemma_mul_mod_noop_right, lemma_small_mod, lemma_sub_mod_noop,
};
use vstd::arithmetic::mul::{
    lemma_mul_is_associative, lemma_mul_is_commutative, lemma_mul_is_distributive_sub_other_way,
};
use vstd::arithmetic::power::{lemma_pow1, lemma_pow_adds, lemma_pow_positive, pow};

verus! {

/// Primality: at least two, and without a divisor strictly between one and
/// itself.
pub open spec fn is_prime(p: int) -> bool {
    p >= 2 && forall|d: int| 1 < d < p ==> #[trigger] (p % d) != 0
}

/// Euclid's lemma, reduced-first form: a prime that divides `a * b` with
/// `a` strictly between zero and the prime must divide `b`. The proof
/// descends along the remainders of the prime by `a`.
proof fn lemma_euclid_descent(a: int, b: int, p: int)
    requires
        is_prime(p),
        0 < a < p,
        0 <= b,
        (a * b) % p == 0,
    ensures
        b % p == 0,
    decreases a,
{
    if a == 1 {
        assert(a * b == b) by {
            vstd::arithmetic::mul::lemma_mul_basics(b);
        }
    } else {
        let q = p / a;
        let r = p % a;
        assert(r != 0);
        lemma_mod_bound(p, a);
        lemma_fundamental_div_mod(p, a);
        assert(p == q * a + r) by {
            lemma_mul_is_commutative(a, q);
        }
        // r * b == p * b - q * (a * b)
        assert(r * b == p * b - q * (a * b)) by {
            lemma_mul_is_distributive_sub_other_way(b, p, q * a);
            assert((p - q * a) * b == p * b - (q * a) * b);
            lemma_mul_is_associative(q, a, b);
        }
        assert((p * b) % p == 0) by {
            lemma_mod_multiples_basic(b, p);
            lemma_mul_is_commutative(p, b);
        }
        assert((q * (a * b)) % p == 0) by {
            lemma_mul_mod_noop_right(q, a * b, p);
            lemma_small_mod(0nat, p as nat);
        }
        assert((r * b) % p == 0) by {
            lemma_sub_mod_noop(p * b, q * (a * b), p);
            lemma_small_mod(0nat, p as nat);
        }
        lemma_euclid_descent(r, b, p);
    }
}

/// Euclid's lemma: a prime that divides a product of non-negative factors
/// divides one of them.
pub proof fn lemma_euclid_prime(a: int, b: int, p: int)
    requires
        is_prime(p),
        0 <= a,
        0 <= b,
        (a * b) % p == 0,
    ensures
        a % p == 0 || b % p == 0,
{
    if a % p != 0 {
        let ar = a % p;
        lemma_mod_bound(a, p);
        assert((ar * b) % p == 0) by {
            vstd::arithmetic::div_mod::lemma_mul_mod_noop_left(a, b, p);
        }
        lemma_euclid_descent(ar, b, p);
    }
}

/// A product of two residues that the prime divides neither of, the prime
/// does not divide.
pub proof fn lemma_prod_nonzero_mod_prime(a: int, b: int, p: int)
    requires
        is_prime(p),
        0 <= a,
        0 <= b,
        a % p != 0,
        b % p != 0,
    ensures
        (a * b) % p != 0,
{
    if (a * b) % p == 0 {
        lemma_euclid_prime(a, b, p);
    }
}

/// Multiplication by a unit is injective on residues: equal products force
/// equal multipliers.
proof fn lemma_mul_cancel_mod_prime(a: int, i: int, j: int, p: int)
    requires
        is_prime(p),
        0 <= a,
        a % p != 0,
        1 <= i < p,
        1 <= j < p,
        (a * i) % p == (a * j) % p,
    ensures
        i == j,
{
    if i != j {
        let (lo, hi) = if i < j { (i, j) } else { (j, i) };
        assert((a * hi) % p == (a * lo) % p);
        assert((a * hi - a * lo) % p == 0) by {
            lemma_mod_equivalence(a * hi, a * lo, p);
        }
        let d = hi - lo;
        assert(a * hi - a * lo == a * d) by {
            vstd::arithmetic::mul::lemma_mul_is_distributive_sub(a, hi, lo);
        }
        assert(0 < d < p);
        lemma_euclid_prime(a, d, p);
        lemma_small_mod(d as nat, p as nat);
        assert(false);
    }
}

/// `n! = 1 * 2 * ... * n`.
pub open spec fn factorial(n: nat) -> int
    decreases n,
{
    if n == 0 {
        1
    } else {
        n * factorial((n - 1) as nat)
    }
}

/// The product of the entries of a sequence of ghost integers.
pub open spec fn seq_prod(s: Seq<int>) -> int
    decreases s.len(),
{
    if s.len() == 0 {
        1
    } else {
        s[0] * seq_prod(s.subrange(1, s.len() as int))
    }
}

/// No entry of the sequence repeats.
pub open spec fn distinct(s: Seq<int>) -> bool {
    forall|k1: int, k2: int| #![trigger s[k1], s[k2]] 0 <= k1 < k2 < s.len() ==> s[k1] != s[k2]
}

/// Appending an entry multiplies the product by it.
proof fn lemma_seq_prod_push(s: Seq<int>, x: int)
    ensures
        seq_prod(s.push(x)) == seq_prod(s) * x,
    decreases s.len(),
{
    let sp = s.push(x);
    if s.len() == 0 {
        assert(sp.subrange(1, sp.len() as int) =~= Seq::<int>::empty());
        assert(sp[0] == x);
        assert(seq_prod(sp) == x * seq_prod(Seq::<int>::empty()));
        lemma_mul_is_commutative(x, 1);
    } else {
        let t = s.subrange(1, s.len() as int);
        assert(sp.subrange(1, sp.len() as int) =~= t.push(x));
        lemma_seq_prod_push(t, x);
        assert(seq_prod(sp) == s[0] * (seq_prod(t) * x));
        lemma_mul_is_associative(s[0], seq_prod(t), x);
    }
}

/// Any one entry can be factored out of the product.
proof fn lemma_seq_prod_remove(s: Seq<int>, j: int)
    requires
        0 <= j < s.len(),
    ensures
        seq_prod(s) == s[j] * seq_prod(s.remove(j)),
    decreases j,
{
    if j == 0 {
        assert(s.remove(0) =~= s.subrange(1, s.len() as int));
    } else {
        let t = s.subrange(1, s.len() as int);
        lemma_seq_prod_remove(t, j - 1);
        assert(t[j - 1] == s[j]);
        assert(s.remove(j).subrange(1, s.remove(j).len() as int) =~= t.remove(j - 1));
        assert(s.remove(j)[0] == s[0]);
        assert(seq_prod(s.remove(j)) == s[0] * seq_prod(t.remove(j - 1)));
        assert(seq_prod(s) == s[0] * (s[j] * seq_prod(t.remove(j - 1))));
        lemma_mul_is_associative(s[0], s[j], seq_prod(t.remove(j - 1)));
        lemma_mul_is_commutative(s[0], s[j]);
        lemma_mul_is_associative(s[j], s[0], seq_prod(t.remove(j - 1)));
    }
}

/// Removing an entry keeps the remaining entries distinct.
proof fn lemma_remove_distinct(s: Seq<int>, j: int)
    requires
        0 <= j < s.len(),
        distinct(s),
    ensures
        distinct(s.remove(j)),
{
    let t = s.remove(j);
    assert forall|k1: int, k2: int| 0 <= k1 < k2 < t.len() implies #[trigger] t[k1] != #[trigger] t[k2] by {
        let o1 = if k1 < j { k1 } else { k1 + 1 };
        let o2 = if k2 < j { k2 } else { k2 + 1 };
        assert(t[k1] == s[o1]);
        assert(t[k2] == s[o2]);
    }
}

/// A sequence of distinct values drawn from `{1, ..., m}` has at most `m`
/// entries.
proof fn lemma_distinct_bounded_len(s: Seq<int>, m: int)
    requires
        0 <= m,
        distinct(s),
        forall|k: int| 0 <= k < s.len() ==> 1 <= #[trigger] s[k] <= m,
    ensures
        s.len() <= m,
    decreases m,
{
    if s.len() == 0 {
    } else if m == 0 {
        assert(1 <= s[0] <= 0);
    } else if exists|j: int| 0 <= j < s.len() && s[j] == m {
        let j = choose|j: int| 0 <= j < s.len() && s[j] == m;
        let t = s.remove(j);
        lemma_remove_distinct(s, j);
        assert forall|k: int| 0 <= k < t.len() implies 1 <= #[trigger] t[k] <= m - 1 by {
            let o = if k < j { k } else { k + 1 };
            assert(t[k] == s[o]);
            if t[k] == m {
                if o < j {
                    assert(s[o] != s[j]);
                } else {
                    assert(s[j] != s[o]);
                }
            }
        }
        lemma_distinct_bounded_len(t, m - 1);
    } else {
        assert forall|k: int| 0 <= k < s.len() implies 1 <= #[trigger] s[k] <= m - 1 by {
            assert(s[k] != m);
        }
        lemma_distinct_bounded_len(s, m - 1);
    }
}

/// Pigeonhole: `n` distinct values drawn from `{1, ..., n}` include every
/// value of `{1, ..., n}`.
proof fn lemma_distinct_full_contains(s: Seq<int>, n: int, v: int)
    requires
        s.len() == n,
        distinct(s),
        forall|k: int| 0 <= k < s.len() ==> 1 <= #[trigger] s[k] <= n,
        1 <= v <= n,
    ensures
        exists|j: int| 0 <= j < s.len() && s[j] == v,
{
    if !(exists|j: int| 0 <= j < s.len() && s[j] == v) {
        // Shift every value above the missing one down: the entries now
        // draw from a set of size n - 1, contradicting distinctness.
        let t = Seq::new(s.len(), |k: int| if s[k] > v { s[k] - 1 } else { s[k] });
        assert forall|k: int| 0 <= k < t.len() implies 1 <= #[trigger] t[k] <= n - 1 by {
            assert(s[k] != v);
        }
        assert forall|k1: int, k2: int| 0 <= k1 < k2 < t.len() implies #[trigger] t[k1]
            != #[trigger] t[k2] by {
            assert(s[k1] != s[k2]);
            assert(s[k1] != v);
            assert(s[k2] != v);
        }
        lemma_distinct_bounded_len(t, n - 1);
        assert(false);
    }
}

/// The product of `n` distinct values drawn from `{1, ..., n}` is `n!`.
proof fn lemma_distinct_full_prod(s: Seq<int>, n: int)
    requires
        0 <= n,
        s.len() == n,
        distinct(s),
        forall|k: int| 0 <= k < s.len() ==> 1 <= #[trigger] s[k] <= n,
    ensures
        seq_prod(s) == factorial(n as nat),
    decreases n,
{
    if n == 0 {
        assert(s =~= Seq::<int>::empty());
    } else {
        lemma_distinct_full_contains(s, n, n);
        let j = choose|j: int| 0 <= j < s.len() && s[j] == n;
        let t = s.remove(j);
        lemma_seq_prod_remove(s, j);
        lemma_remove_distinct(s, j);
        assert forall|k: int| 0 <= k < t.len() implies 1 <= #[trigger] t[k] <= n - 1 by {
            let o = if k < j { k } else { k + 1 };
            assert(t[k] == s[o]);
            if t[k] == n {
                if o < j {
                    assert(s[o] != s[j]);
                } else {
                    assert(s[j] != s[o]);
                }
            }
        }
        lemma_distinct_full_prod(t, n - 1);
    }
}

/// The residues `a*1 % p, a*2 % p, ..., a*k % p`.
pub open spec fn residue_seq(a: int, p: int, k: nat) -> Seq<int> {
    Seq::new(k, |i: int| (a * (i + 1)) % p)
}

/// The product of the first `k` residues of multiples of `a` has the same
/// residue as `a^k * k!`.
proof fn lemma_residue_prod(a: int, p: int, k: nat)
    requires
        is_prime(p),
    ensures
        seq_prod(residue_seq(a, p, k)) % p == (pow(a, k) * factorial(k)) % p,
    decreases k,
{
    let s = residue_seq(a, p, k);
    if k == 0 {
        assert(s =~= Seq::<int>::empty());
        assert(pow(a, 0) * factorial(0) == 1) by {
            vstd::arithmetic::power::lemma_pow0(a);
            vstd::arithmetic::mul::lemma_mul_basics(1int);
        }
    } else {
        let km1 = (k - 1) as nat;
        let t = residue_seq(a, p, km1);
        let last = (a * (k as int)) % p;
        assert(s =~= t.push(last));
        lemma_seq_prod_push(t, last);
        lemma_residue_prod(a, p, km1);
        let w = seq_prod(t);
        let pw1 = pow(a, km1);
        let f1 = factorial(km1);
        // (w * ((a*k) % p)) % p == (w * (a*k)) % p == ((w % p) * (a*k)) % p
        lemma_mul_mod_noop_right(w, a * (k as int), p);
        vstd::arithmetic::div_mod::lemma_mul_mod_noop_left(w, a * (k as int), p);
        // replace w % p through the induction hypothesis
        vstd::arithmetic::div_mod::lemma_mul_mod_noop_left(pw1 * f1, a * (k as int), p);
        // and rearrange the four factors
        assert(pow(a, k) == pw1 * a) by {
            lemma_pow1(a);
            lemma_pow_adds(a, km1, 1);
        }
        assert(factorial(k) == k * f1);
        assert((pw1 * f1) * (a * (k as int)) == (pw1 * a) * ((k as int) * f1))
            by (nonlinear_arith);
    }
}

/// The factorial of anything below a prime is a unit: the prime does not
/// divide it.
proof fn lemma_factorial_nonzero(n: nat, p: int)
    requires
        is_prime(p),
        n < p,
    ensures
        factorial(n) % p != 0,
        factorial(n) >= 1,
    decreases n,
{
    if n == 0 {
        lemma_small_mod(1nat, p as nat);
    } else {
        lemma_factorial_nonzero((n - 1) as nat, p);
        lemma_small_mod(n, p as nat);
        lemma_prod_nonzero_mod_prime(n as int, factorial((n - 1) as nat), p);
        vstd::arithmetic::mul::lemma_mul_strictly_positive(n as int, factorial((n - 1) as nat));
    }
}

/// Fermat's little theorem: modulo a prime `p`, any `a` the prime does not
/// divide satisfies `a^(p-1) == 1`. The proof walks the classical
/// permutation argument: the multiples `a*1, ..., a*(p-1)` reduce to the
/// distinct nonzero residues, so both sides of `a^(p-1) * (p-1)! == (p-1)!`
/// have one residue, and the factorial cancels.
pub proof fn lemma_fermat_little(a: int, p: int)
    requires
        is_prime(p),
        1 <= a < p,
    ensures
        pow(a, (p - 1) as nat) % p == 1,
{
    let n = (p - 1) as nat;
    let s = residue_seq(a, p, n);
    lemma_small_mod(a as nat, p as nat);
    assert forall|k: int| 0 <= k < s.len() implies 1 <= #[trigger] s[k] <= p - 1 by {
        lemma_mod_bound(a * (k + 1), p);
        lemma_small_mod((k + 1) as nat, p as nat);
        lemma_prod_nonzero_mod_prime(a, k + 1, p);
    }
    assert forall|k1: int, k2: int| 0 <= k1 < k2 < s.len() implies #[trigger] s[k1]
        != #[trigger] s[k2] by {
        if s[k1] == s[k2] {
            lemma_mul_cancel_mod_prime(a, k1 + 1, k2 + 1, p);
        }
    }
    lemma_distinct_full_prod(s, p - 1);
    lemma_residue_prod(a, p, n);
    let x = pow(a, n);
    let f = factorial(n);
    assert((x * f) % p == f % p);
    lemma_factorial_nonzero(n, p);
    lemma_pow_positive(a, n);
    assert(((x - 1) * f) % p == 0) by {
        lemma_mod_equivalence(x * f, f, p);
        lemma_mul_is_distributive_sub_other_way(f, x, 1);
        vstd::arithmetic::mul::lemma_mul_basics(f);
    }
    lemma_euclid_prime(x - 1, f, p);
    assert((x - 1) % p == 0);
    assert(x % p == 1) by {
        lemma_add_mod_noop_right(1, x - 1, p);
        lemma_small_mod(1nat, p as nat);
    }
}

} // verus!

