//! The prime field that every circuit value lives in.
//!
//! All chip arithmetic is carried out modulo a fixed prime. A field
//! element is a `u64` residue in `[0, modulus)`. Field inversion of zero
//! is defined to yield zero, not an error: this convention is what lets
//! the chips turn inverses into branchless selector indicators.

use vstd::arithmetic::div_mod::{
    lemma_add_mod_noop, lemma_fundamental_div_mod, lemma_mod_add_multiples_vanish, lemma_mod_bound,
    lemma_mod_multiples_basic, lemma_mod_multiples_vanish, lemma_mod_self_0,
    lemma_mul_mod_noop_general, lemma_small_mod, lemma_sub_mod_noop,
};
use vstd::prelude::*;

verus! {

/// `n` has no divisor strictly between 1 and itself.
pub open spec fn is_prime(n: int) -> bool {
    n >= 2 && forall|k: int| 2 <= k < n ==> #[trigger] (n % k) != 0
}

/// Runtime description of the circuit's field and curve: the prime
/// modulus and the constant `b` of the short-Weierstrass curve
/// `y^2 = x^3 + b`.
pub struct FieldParams {
    pub modulus: u64,
    pub b: u64,
}

impl FieldParams {
    /// The modulus is an odd prime and the curve constant is a residue.
    pub open spec fn wf(self) -> bool {
        &&& is_prime(self.modulus as int)
        &&& self.modulus > 2
        &&& self.b < self.modulus
    }
}

/// `b` inverts `a` in the field of size `p`.
pub open spec fn is_inverse(p: int, a: int, b: int) -> bool {
    &&& 0 <= b < p
    &&& (a * b) % p == 1
}

/// The field inverse of `a` modulo `p`, with the zero-maps-to-zero
/// convention: 0 when no inverse exists (in particular when `a % p == 0`).
pub open spec fn finv(p: int, a: int) -> int {
    if exists|b: int| is_inverse(p, a, b) {
        choose|b: int| is_inverse(p, a, b)
    } else {
        0
    }
}

pub proof fn lemma_finv_in_range(p: int, a: int)
    requires
        p >= 2,
    ensures
        0 <= finv(p, a) < p,
{
    if exists|b: int| is_inverse(p, a, b) {
        let b = choose|b: int| is_inverse(p, a, b);
        assert(0 <= b < p);
    }
}

/// A multiple of `p` has no inverse, so its `finv` is 0.
pub proof fn lemma_finv_zero(p: int, a: int)
    requires
        p >= 2,
        a % p == 0,
    ensures
        finv(p, a) == 0,
{
    assert forall|b: int| !is_inverse(p, a, b) by {
        lemma_mul_mod_noop_general(a, b, p);
        assert((a * b) % p == ((a % p) * b) % p);
        assert(((0) * b) % p == 0) by {
            lemma_mod_multiples_basic(0, p);
        }
    }
}

/// The greatest common divisor, by Euclid's recursion.
pub open spec fn gcd(a: nat, b: nat) -> nat
    decreases b,
{
    if b == 0 {
        a
    } else {
        gcd(b, a % b)
    }
}

/// The gcd of two numbers, the first positive, is positive and divides
/// both.
pub proof fn lemma_gcd_divides(a: nat, b: nat)
    requires
        a > 0,
    ensures
        gcd(a, b) >= 1,
        a % gcd(a, b) == 0,
        b % gcd(a, b) == 0,
    decreases b,
{
    if b == 0 {
        lemma_mod_self_0(a as int);
        assert(0int % (a as int) == 0) by {
            lemma_mod_multiples_basic(0, a as int);
        }
    } else {
        lemma_mod_bound(a as int, b as int);
        lemma_gcd_divides(b, a % b);
        let g = gcd(b, a % b);
        assert(gcd(a, b) == g);
        lemma_fundamental_div_mod(a as int, b as int);
        let q = a as int / b as int;
        assert(a as int == q * b + (a % b)) by (nonlinear_arith)
            requires
                a as int == (b as int) * q + (a as int % b as int),
        ;
        let bg = b as int / g as int;
        let rg = (a % b) as int / g as int;
        lemma_fundamental_div_mod(b as int, g as int);
        lemma_fundamental_div_mod((a % b) as int, g as int);
        assert(b as int == g * bg);
        assert((a % b) as int == g * rg);
        assert(a as int == (g as int) * (q * bg + rg)) by (nonlinear_arith)
            requires
                a as int == q * b + (a % b),
                b as int == g * bg,
                (a % b) as int == g * rg,
        ;
        lemma_mod_multiples_basic(q * bg + rg, g as int);
    }
}

/// Bezout coefficients: returns `(x, y)` with `x*a + y*b == gcd(a, b)`.
pub proof fn lemma_bezout(a: nat, b: nat) -> (r: (int, int))
    requires
        a > 0,
    ensures
        r.0 * a + r.1 * b == gcd(a, b),
    decreases b,
{
    if b == 0 {
        (1, 0)
    } else {
        lemma_mod_bound(a as int, b as int);
        let (x1, y1) = lemma_bezout(b, a % b);
        lemma_fundamental_div_mod(a as int, b as int);
        let q = a as int / b as int;
        assert(a as int == q * b + (a % b)) by (nonlinear_arith)
            requires
                a as int == (b as int) * q + (a as int % b as int),
        ;
        let x = y1;
        let y = x1 - y1 * q;
        assert(x * a + y * b == x1 * b + y1 * (a % b)) by (nonlinear_arith)
            requires
                x == y1,
                y == x1 - y1 * q,
                a as int == q * b + (a % b),
        ;
        (x, y)
    }
}

/// A prime is coprime to every smaller positive number.
pub proof fn lemma_prime_coprime(p: int, a: int)
    requires
        is_prime(p),
        0 < a < p,
    ensures
        gcd(p as nat, a as nat) == 1,
{
    lemma_gcd_divides(p as nat, a as nat);
    let g = gcd(p as nat, a as nat) as int;
    if g >= 2 {
        if g > a {
            lemma_small_mod(a as nat, g as nat);
            assert(false);
        }
        assert(2 <= g < p);
        assert(p % g != 0);
        assert(false);
    }
}

/// In a prime field every nonzero element has an inverse.
pub proof fn lemma_inverse_exists(p: int, a: int)
    requires
        is_prime(p),
        a % p != 0,
    ensures
        exists|b: int| is_inverse(p, a, b),
{
    lemma_mod_bound(a, p);
    let a0 = a % p;
    lemma_prime_coprime(p, a0);
    let (x, y) = lemma_bezout(p as nat, a0 as nat);
    assert(x * p + y * a0 == 1);
    assert((p * x + y * a0) % p == (y * a0) % p) by {
        lemma_mod_multiples_vanish(x, y * a0, p);
    }
    assert(p * x + y * a0 == 1) by (nonlinear_arith)
        requires
            x * p + y * a0 == 1,
    ;
    lemma_small_mod(1nat, p as nat);
    assert((y * a0) % p == 1);
    let b = y % p;
    lemma_mod_bound(y, p);
    assert((a * b) % p == 1) by {
        lemma_mul_mod_noop_general(a, y, p);
        assert((a * (y % p)) % p == (a * y) % p);
        lemma_mul_mod_noop_general(a, y, p);
        assert(((a % p) * y) % p == (a * y) % p);
        assert(a0 * y == y * a0) by (nonlinear_arith);
    }
    assert(is_inverse(p, a, b));
}

/// Inverses are unique.
pub proof fn lemma_inverse_unique(p: int, a: int, b1: int, b2: int)
    requires
        p >= 2,
        is_inverse(p, a, b1),
        is_inverse(p, a, b2),
    ensures
        b1 == b2,
{
    lemma_small_mod(b1 as nat, p as nat);
    lemma_small_mod(b2 as nat, p as nat);
    assert((b1 * ((a * b2) % p)) % p == (b1 * (a * b2)) % p) by {
        lemma_mul_mod_noop_general(b1, a * b2, p);
    }
    assert((b1 * 1) % p == b1 % p);
    assert(b1 * (a * b2) == (a * b1) * b2) by (nonlinear_arith);
    assert(((a * b1) * b2) % p == (((a * b1) % p) * b2) % p) by {
        lemma_mul_mod_noop_general(a * b1, b2, p);
    }
    assert((1 * b2) % p == b2 % p);
}

/// `finv` really inverts every element that is nonzero mod a prime.
pub proof fn lemma_finv_property(p: int, a: int)
    requires
        is_prime(p),
        a % p != 0,
    ensures
        is_inverse(p, a, finv(p, a)),
        (a * finv(p, a)) % p == 1,
{
    lemma_inverse_exists(p, a);
    let b = choose|b: int| is_inverse(p, a, b);
    assert(finv(p, a) == b);
}

/// A prime field has no zero divisors.
pub proof fn lemma_no_zero_divisors(p: int, x: int, y: int)
    requires
        is_prime(p),
        x % p != 0,
        y % p != 0,
    ensures
        (x * y) % p != 0,
{
    if (x * y) % p == 0 {
        lemma_finv_property(p, x);
        let i = finv(p, x);
        assert((((x * i) % p) * y) % p == ((x * i) * y) % p) by {
            lemma_mul_mod_noop_general(x * i, y, p);
        }
        lemma_small_mod(1nat, p as nat);
        assert((1 * y) % p == y % p);
        assert((x * i) * y == (x * y) * i) by (nonlinear_arith);
        assert(((x * y) * i) % p == (((x * y) % p) * i) % p) by {
            lemma_mul_mod_noop_general(x * y, i, p);
        }
        assert((0 * i) % p == 0) by {
            lemma_mod_multiples_basic(0, p);
        }
        assert(false);
    }
}

/// Multiplying by a value and by its inverse cancels:
/// `d * ((n * d^-1) mod p)` is congruent to `n`.
pub proof fn lemma_mul_inv_cancel(p: int, n: int, d: int)
    requires
        is_prime(p),
        d % p != 0,
    ensures
        (d * ((n * finv(p, d)) % p)) % p == n % p,
{
    lemma_finv_property(p, d);
    let i = finv(p, d);
    assert((d * ((n * i) % p)) % p == (d * (n * i)) % p) by {
        lemma_mul_mod_noop_general(d, n * i, p);
    }
    assert(d * (n * i) == (d * i) * n) by (nonlinear_arith);
    assert(((d * i) * n) % p == (((d * i) % p) * n) % p) by {
        lemma_mul_mod_noop_general(d * i, n, p);
    }
    assert((1 * n) % p == n % p);
}

/// Two residues with the same value mod `p` are equal; in particular a
/// zero difference mod `p` forces equality.
pub proof fn lemma_residue_sub_cancel(p: int, a: int, b: int)
    requires
        p >= 2,
        0 <= a < p,
        0 <= b < p,
    ensures
        (a - b) % p == 0 <==> a == b,
{
    if a == b {
        assert((0int) % p == 0) by {
            lemma_mod_multiples_basic(0, p);
        }
    } else if a > b {
        lemma_small_mod((a - b) as nat, p as nat);
    } else {
        assert((p + (a - b)) % p == (a - b) % p) by {
            lemma_mod_add_multiples_vanish(a - b, p);
        }
        lemma_small_mod((p + a - b) as nat, p as nat);
    }
}

/// Residue addition: `(a + b) mod p`.
pub open spec fn fadd(p: int, a: int, b: int) -> int {
    (a + b) % p
}

/// Residue subtraction: `(a - b) mod p`.
pub open spec fn fsub(p: int, a: int, b: int) -> int {
    (a - b) % p
}

/// Residue multiplication: `(a * b) mod p`.
pub open spec fn fmul(p: int, a: int, b: int) -> int {
    (a * b) % p
}

/// Congruent factors give congruent products.
pub proof fn lemma_mul_congruent(p: int, a: int, b: int, c: int, d: int)
    requires
        p >= 2,
        a % p == b % p,
        c % p == d % p,
    ensures
        (a * c) % p == (b * d) % p,
{
    lemma_mul_mod_noop_general(a, c, p);
    lemma_mul_mod_noop_general(b, d, p);
}

/// Congruent summands give congruent sums.
pub proof fn lemma_add_congruent(p: int, a: int, b: int, c: int, d: int)
    requires
        p >= 2,
        a % p == b % p,
        c % p == d % p,
    ensures
        (a + c) % p == (b + d) % p,
{
    lemma_add_mod_noop(a, c, p);
    lemma_add_mod_noop(b, d, p);
}

/// A factor that vanishes mod `p` makes the product vanish.
pub proof fn lemma_mul_zero_mod(p: int, x: int, y: int)
    requires
        p >= 2,
        y % p == 0,
    ensures
        (x * y) % p == 0,
        (y * x) % p == 0,
{
    lemma_mul_mod_noop_general(x, y, p);
    lemma_mod_multiples_basic(0, p);
    assert(x * 0 == 0) by (nonlinear_arith);
    assert(y * x == x * y) by (nonlinear_arith);
}

/// Congruent operands give congruent negations.
pub proof fn lemma_neg_congruent(p: int, x: int, y: int)
    requires
        p >= 2,
        x % p == y % p,
    ensures
        (-x) % p == (-y) % p,
{
    lemma_sub_mod_noop(0, x, p);
    lemma_sub_mod_noop(0, y, p);
    assert(0int % p == 0) by {
        lemma_mod_multiples_basic(0, p);
    }
}

/// Congruent operands give congruent differences.
pub proof fn lemma_sub_congruent2(p: int, a: int, b: int, c: int, d: int)
    requires
        p >= 2,
        a % p == b % p,
        c % p == d % p,
    ensures
        (a - c) % p == (b - d) % p,
{
    lemma_sub_mod_noop(a, c, p);
    lemma_sub_mod_noop(b, d, p);
}

/// Multiplying by the zero residue on the left yields the zero residue.
pub proof fn lemma_fmul_zero_left(p: int, x: int)
    requires
        p >= 2,
    ensures
        fmul(p, 0, x) == 0,
{
    lemma_mod_multiples_basic(0, p);
    lemma_mul_zero_mod(p, x, 0);
}

/// Multiplying by the zero residue on the right yields the zero residue.
pub proof fn lemma_fmul_zero_right(p: int, x: int)
    requires
        p >= 2,
    ensures
        fmul(p, x, 0) == 0,
{
    lemma_mod_multiples_basic(0, p);
    lemma_mul_zero_mod(p, x, 0);
}

/// Congruence and vanishing difference are the same thing.
pub proof fn lemma_sub_congruent(p: int, a: int, b: int)
    requires
        p >= 2,
    ensures
        ((a - b) % p == 0) <==> (a % p == b % p),
{
    lemma_sub_mod_noop(a, b, p);
    lemma_mod_bound(a, p);
    lemma_mod_bound(b, p);
    lemma_residue_sub_cancel(p, a % p, b % p);
}

/// Doubling a nonzero residue of an odd prime field stays nonzero.
pub proof fn lemma_double_nonzero(p: int, y: int)
    requires
        is_prime(p),
        p > 2,
        0 < y < p,
    ensures
        (2 * y) % p != 0,
{
    assert(p % 2 != 0);
    if 2 * y < p {
        lemma_small_mod((2 * y) as nat, p as nat);
    } else {
        assert(2 * y != p);
        assert(0 < 2 * y - p < p);
        assert((p + (2 * y - p)) % p == (2 * y - p) % p) by {
            lemma_mod_add_multiples_vanish(2 * y - p, p);
        }
        lemma_small_mod((2 * y - p) as nat, p as nat);
    }
}

/// Field addition: `(a + b) mod p`.
pub fn f_add(pm: &FieldParams, a: u64, b: u64) -> (r: u64)
    requires
        pm.modulus >= 2,
        a < pm.modulus,
        b < pm.modulus,
    ensures
        r == (a + b) % (pm.modulus as int),
{
    let p128 = pm.modulus as u128;
    let s = a as u128 + b as u128;
    let r = (s % p128) as u64;
    proof {
        lemma_mod_bound(s as int, p128 as int);
    }
    r
}

/// Field subtraction: `(a - b) mod p`.
pub fn f_sub(pm: &FieldParams, a: u64, b: u64) -> (r: u64)
    requires
        pm.modulus >= 2,
        a < pm.modulus,
        b < pm.modulus,
    ensures
        r == (a - b) % (pm.modulus as int),
{
    let p128 = pm.modulus as u128;
    let s = a as u128 + p128 - b as u128;
    let r = (s % p128) as u64;
    proof {
        lemma_mod_bound(s as int, p128 as int);
        lemma_mod_add_multiples_vanish(a as int - b as int, pm.modulus as int);
    }
    r
}

/// Field negation: `(-a) mod p`.
pub fn f_neg(pm: &FieldParams, a: u64) -> (r: u64)
    requires
        pm.modulus >= 2,
        a < pm.modulus,
    ensures
        r == (-(a as int)) % (pm.modulus as int),
{
    let p128 = pm.modulus as u128;
    let s = p128 - a as u128;
    let r = (s % p128) as u64;
    proof {
        lemma_mod_bound(s as int, p128 as int);
        lemma_mod_add_multiples_vanish(-(a as int), pm.modulus as int);
    }
    r
}

/// Field multiplication: `(a * b) mod p`.
pub fn f_mul(pm: &FieldParams, a: u64, b: u64) -> (r: u64)
    requires
        pm.modulus >= 2,
        a < pm.modulus,
        b < pm.modulus,
    ensures
        r == (a * b) % (pm.modulus as int),
{
    let p128 = pm.modulus as u128;
    proof {
        assert(a as int * b as int <= (u64::MAX as int) * (u64::MAX as int)) by (nonlinear_arith)
            requires
                a <= u64::MAX as int,
                b <= u64::MAX as int,
        ;
    }
    let s = a as u128 * b as u128;
    let r = (s % p128) as u64;
    proof {
        lemma_mod_bound(s as int, p128 as int);
    }
    r
}

/// Field squaring: `a^2 mod p`.
pub fn f_square(pm: &FieldParams, a: u64) -> (r: u64)
    requires
        pm.modulus >= 2,
        a < pm.modulus,
    ensures
        r == (a * a) % (pm.modulus as int),
{
    f_mul(pm, a, a)
}

/// Field inversion with the zero-maps-to-zero convention: the inverse of
/// a nonzero residue, and 0 for the zero residue.
pub fn f_invert(pm: &FieldParams, a: u64) -> (r: u64)
    requires
        pm.wf(),
        a < pm.modulus,
    ensures
        r == finv(pm.modulus as int, a as int),
        a == 0 ==> r == 0,
        a != 0 ==> is_inverse(pm.modulus as int, a as int, r as int),
{
    let ghost p = pm.modulus as int;
    if a == 0 {
        proof {
            lemma_mod_multiples_basic(0, p);
            lemma_finv_zero(p, 0);
        }
        return 0;
    }
    proof {
        lemma_small_mod(a as nat, pm.modulus as nat);
        lemma_inverse_exists(p, a as int);
    }
    let mut i: u64 = 0;
    loop
        invariant
            p == pm.modulus as int,
            pm.wf(),
            0 < a < pm.modulus,
            i <= pm.modulus,
            exists|b: int| is_inverse(p, a as int, b),
            forall|b: int| 0 <= b < i ==> !is_inverse(p, a as int, b),
        decreases pm.modulus - i,
    {
        if i >= pm.modulus {
            proof {
                let b = choose|b: int| is_inverse(p, a as int, b);
                assert(!is_inverse(p, a as int, b));
                assert(false);
            }
        }
        let prod = f_mul(pm, a, i);
        if prod == 1 {
            proof {
                assert(is_inverse(p, a as int, i as int));
                lemma_small_mod(a as nat, pm.modulus as nat);
                lemma_finv_property(p, a as int);
                lemma_inverse_unique(p, a as int, i as int, finv(p, a as int));
            }
            return i;
        }
        proof {
            assert(!is_inverse(p, a as int, i as int));
        }
        i = i + 1;
    }
}

} // verus!
