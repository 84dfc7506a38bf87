//! The per-row gate of windowed fixed-base scalar multiplication.
//!
//! Each active row proves, for a window width `W`, that the running-sum
//! pair `(z_curr, z_next)` extracts a word `z_curr - z_next * 2^W` lying
//! in `[0, 2^W)`, that `x_p` equals the Lagrange-interpolated table value
//! at that word, that `y_p` is recovered from the square-root witness
//! `u` through the fixed constant `z`, and that `(x_p, y_p)` lies on the
//! curve. Chaining the `z` values across windows and binding the first
//! and last accumulator is the caller's obligation.

use crate::backend::{AdviceColumn, ConstraintSystem, FixedColumn, GateKind, Selector};
use crate::field::{
    f_add, f_mul, f_sub, fadd, fmul, fsub, is_prime, lemma_fmul_zero_left, lemma_fmul_zero_right,
    lemma_no_zero_divisors, lemma_residue_sub_cancel, FieldParams,
};
use vstd::arithmetic::div_mod::{
    lemma_mod_bound, lemma_mod_multiples_basic, lemma_mod_twice, lemma_mul_mod_noop_general,
    lemma_small_mod, lemma_sub_mod_noop_right,
};
use vstd::arithmetic::power::{lemma_pow_increases, lemma_pow_positive, pow};
use vstd::prelude::*;

verus! {

// ---------------------------------------------------------------------
// The four identities, as residues of their polynomials.
// ---------------------------------------------------------------------
/// The word a running-sum row extracts: `z_curr - z_next * 2^W`.
pub open spec fn word_of(p: int, z_curr: int, z_next: int, w: nat) -> int {
    (z_curr - z_next * pow(2, w)) % p
}

/// The range-check product with `n` linear factors:
/// `word * (1 - word) * (2 - word) * ... * (n - word)`, as a residue.
/// With `n = 2^W - 1` the product vanishes exactly on the
/// integer range `[0, 2^W)`.
pub open spec fn sum_check_poly(p: int, word: int, n: nat) -> int
    decreases n,
{
    if n == 0 {
        word % p
    } else {
        fmul(p, sum_check_poly(p, word, (n - 1) as nat), fsub(p, n as int, word))
    }
}

/// The Lagrange interpolation value `sum_i coeffs[i] * word^i`, folded
/// as a residue.
pub open spec fn interp_sum(p: int, coeffs: Seq<u64>, word: int) -> int
    decreases coeffs.len(),
{
    if coeffs.len() == 0 {
        0
    } else {
        fadd(
            p,
            interp_sum(p, coeffs.drop_last(), word),
            fmul(p, coeffs.last() as int, pow(word, (coeffs.len() - 1) as nat) % p),
        )
    }
}

/// The `x_check` identity: the interpolated table value minus `x_p`.
pub open spec fn x_check_poly(p: int, coeffs: Seq<u64>, word: int, xp: int) -> int {
    fsub(p, interp_sum(p, coeffs, word), xp)
}

/// The `y_check` identity: `(y_p + z) - u^2`.
pub open spec fn y_check_poly(p: int, yp: int, z: int, u: int) -> int {
    fsub(p, fadd(p, yp, z), fmul(p, u, u))
}

/// The `on_curve` identity: `y_p^2 - x_p^3 - b`.
pub open spec fn on_curve_poly(p: int, b: int, xp: int, yp: int) -> int {
    fsub(p, fsub(p, fmul(p, yp, yp), fmul(p, fmul(p, xp, xp), xp)), b)
}

/// Range-check completeness: a word inside `[0, n]` makes the product
/// vanish, so every well-formed window passes.
pub proof fn lemma_sum_check_zero(p: int, word: int, n: nat)
    requires
        p >= 2,
        0 <= word <= n,
    ensures
        sum_check_poly(p, word, n) == 0,
    decreases n,
{
    lemma_mod_multiples_basic(0, p);
    if word == 0 {
        if n == 0 {
        } else {
            lemma_sum_check_zero(p, word, (n - 1) as nat);
            lemma_fmul_zero_left(p, fsub(p, n as int, word));
        }
    } else if word == n {
        assert(fsub(p, n as int, word) == 0);
        lemma_fmul_zero_right(p, sum_check_poly(p, word, (n - 1) as nat));
    } else {
        lemma_sum_check_zero(p, word, (n - 1) as nat);
        lemma_fmul_zero_left(p, fsub(p, n as int, word));
    }
}

/// Range-check soundness: for any word outside `[0, n]` (in particular
/// outside `[0, 2^W)` when `n = 2^W - 1`), the product is nonzero, so
/// every malformed window is rejected.
pub proof fn lemma_sum_check_nonzero(p: int, word: int, n: nat)
    requires
        is_prime(p),
        n < p,
        n < word < p,
    ensures
        sum_check_poly(p, word, n) != 0,
    decreases n,
{
    lemma_small_mod(word as nat, p as nat);
    if n == 0 {
        assert(sum_check_poly(p, word, n) == word);
    } else {
        lemma_sum_check_nonzero(p, word, (n - 1) as nat);
        let prev = sum_check_poly(p, word, (n - 1) as nat);
        let factor = fsub(p, n as int, word);
        lemma_residue_sub_cancel(p, n as int, word);
        assert(factor != 0);
        lemma_mod_bound(n - word, p);
        lemma_mod_twice(n - word, p);
        lemma_mod_bound(prev, p);
        assert(0 <= prev < p) by {
            if (n - 1) as nat == 0 {
            } else {
                lemma_mod_bound(
                    sum_check_poly(p, word, (n - 2) as nat) * fsub(p, (n - 1) as int, word),
                    p,
                );
            }
        }
        lemma_small_mod(prev as nat, p as nat);
        lemma_no_zero_divisors(p, prev, factor);
    }
}

/// The window form of range-check completeness: every word inside
/// `[0, 2^W)` passes the check.
pub proof fn lemma_sum_check_accepts_window(p: int, word: int, w: nat)
    requires
        p >= 2,
        0 <= word < pow(2, w),
    ensures
        sum_check_poly(p, word, (pow(2, w) - 1) as nat) == 0,
{
    lemma_pow_positive(2, w);
    lemma_sum_check_zero(p, word, (pow(2, w) - 1) as nat);
}

/// The window form of range-check soundness: every word outside
/// `[0, 2^W)` is rejected.
pub proof fn lemma_sum_check_rejects_window(p: int, word: int, w: nat)
    requires
        is_prime(p),
        pow(2, w) <= p,
        pow(2, w) <= word < p,
    ensures
        sum_check_poly(p, word, (pow(2, w) - 1) as nat) != 0,
{
    lemma_pow_positive(2, w);
    lemma_sum_check_nonzero(p, word, (pow(2, w) - 1) as nat);
}

// ---------------------------------------------------------------------
// The chip itself.
// ---------------------------------------------------------------------
/// The fixed-base multiplication chip's configuration: its selector, the
/// `2^W` Lagrange-coefficient wires, the fixed interpolation constant
/// wire, and the `u`, running-sum and point wires.
pub struct Config {
    pub q_running_sum: Selector,
    pub z_fixed: FixedColumn,
    pub u: AdviceColumn,
    pub z: AdviceColumn,
    pub x_p: AdviceColumn,
    pub y_p: AdviceColumn,
    pub lagrange_coeff: Vec<AdviceColumn>,
    pub window_size: usize,
}

impl Config {
    /// Registers the running-sum gate: allocates its selector and
    /// records its four identities (range check, interpolation
    /// check, square-root recovery, curve membership) under its kind —
    /// `GateKind::RunningSum` stands for the row predicate
    /// `crate::ecc::gate_row_sat`.
    /// One Lagrange-coefficient wire is taken per possible word value.
    pub fn configure(
        meta: &mut ConstraintSystem,
        lagrange_coeff: Vec<AdviceColumn>,
        z_fixed: FixedColumn,
        u: AdviceColumn,
        x_p: AdviceColumn,
        y_p: AdviceColumn,
        z: AdviceColumn,
        window_size: usize,
    ) -> (r: Config)
        requires
            old(meta).wf(),
            old(meta).num_selectors < usize::MAX,
            window_size < 32,
            lagrange_coeff@.len() == pow(2, window_size as nat),
        ensures
            final(meta).wf(),
            final(meta).num_advice == old(meta).num_advice,
            final(meta).num_selectors == old(meta).num_selectors + 1,
            final(meta).equality@ == old(meta).equality@,
            final(meta).gates@ == old(meta).gates@.push(GateKind::RunningSum),
            r.q_running_sum.index == old(meta).num_selectors,
            r.z_fixed == z_fixed,
            r.u == u,
            r.z == z,
            r.x_p == x_p,
            r.y_p == y_p,
            r.lagrange_coeff@ == lagrange_coeff@,
            r.window_size == window_size,
    {
        let q_running_sum = meta.selector();
        meta.create_gate(GateKind::RunningSum);
        Config { q_running_sum, z_fixed, u, z, x_p, y_p, lagrange_coeff, window_size }
    }
}

/// `2^w mod p`, computed by repeated doubling.
pub fn pow2_mod(params: &FieldParams, w: usize) -> (r: u64)
    requires
        params.modulus > 2,
        w < 32,
    ensures
        r == pow(2, w as nat) % (params.modulus as int),
{
    let mut range: u64 = 1;
    let mut i: usize = 0;
    proof {
        reveal(pow);
        assert(pow(2, 0nat) == 1);
    }
    while i < w
        invariant
            params.modulus > 2,
            w < 32,
            i <= w,
            range == pow(2, i as nat),
            range <= 0x80000000u64,
        decreases w - i,
    {
        proof {
            reveal(pow);
            assert(pow(2, (i + 1) as nat) == 2 * pow(2, i as nat));
            lemma_pow_increases(2, (i + 1) as nat, 31);
            vstd::arithmetic::power2::lemma2_to64();
            vstd::arithmetic::power2::lemma_pow2(31);
            assert(pow(2, 31) == 0x80000000);
        }
        range = range * 2;
        i = i + 1;
    }
    range % params.modulus
}

/// Evaluates the word a running-sum row extracts:
/// `(z_curr - z_next * 2^W) mod p`.
pub fn eval_word(params: &FieldParams, window_size: usize, z_curr: u64, z_next: u64) -> (r: u64)
    requires
        params.modulus > 2,
        window_size < 32,
        z_curr < params.modulus,
        z_next < params.modulus,
    ensures
        r == word_of(params.modulus as int, z_curr as int, z_next as int, window_size as nat),
{
    let pm = params.modulus;
    let tw = pow2_mod(params, window_size);
    let shifted = f_mul(params, z_next, tw);
    let r = f_sub(params, z_curr, shifted);
    proof {
        let p = pm as int;
        let pw = pow(2, window_size as nat);
        lemma_mul_mod_noop_general(z_next as int, pw, p);
        assert(shifted == (z_next as int * pw) % p);
        lemma_sub_mod_noop_right(z_curr as int, z_next as int * pw, p);
    }
    r
}

/// Evaluates the range-check product `word * prod_{i=1}^{n} (i - word)`
/// for `n = 2^W - 1`: zero exactly on well-formed windows.
pub fn eval_sum_check(params: &FieldParams, window_size: usize, word: u64) -> (r: u64)
    requires
        params.modulus > 2,
        window_size < 32,
        word < params.modulus,
        pow(2, window_size as nat) <= params.modulus,
    ensures
        r == sum_check_poly(
            params.modulus as int,
            word as int,
            (pow(2, window_size as nat) - 1) as nat,
        ),
{
    let mut range: u64 = 1;
    let mut i: usize = 0;
    proof {
        reveal(pow);
        assert(pow(2, 0nat) == 1);
    }
    while i < window_size
        invariant
            params.modulus > 2,
            word < params.modulus,
            window_size < 32,
            i <= window_size,
            range == pow(2, i as nat),
            1 <= range <= 0x80000000u64,
        decreases window_size - i,
    {
        proof {
            reveal(pow);
            assert(pow(2, (i + 1) as nat) == 2 * pow(2, i as nat));
            lemma_pow_increases(2, (i + 1) as nat, 31);
            vstd::arithmetic::power2::lemma2_to64();
            vstd::arithmetic::power2::lemma_pow2(31);
            assert(pow(2, 31) == 0x80000000);
        }
        range = range * 2;
        i = i + 1;
    }
    let n = range - 1;
    let mut acc: u64 = word;
    let mut k: u64 = 0;
    proof {
        lemma_small_mod(word as nat, params.modulus as nat);
    }
    while k < n
        invariant
            params.modulus > 2,
            word < params.modulus,
            n < params.modulus,
            k <= n,
            acc == sum_check_poly(params.modulus as int, word as int, k as nat),
            acc < params.modulus,
        decreases n - k,
    {
        let factor = f_sub(params, (k + 1), word);
        proof {
            lemma_small_mod((k + 1) as nat, params.modulus as nat);
        }
        acc = f_mul(params, acc, factor);
        k = k + 1;
    }
    acc
}

/// Evaluates the interpolation value `sum_i coeffs[i] * word^i mod p`.
pub fn eval_interp(params: &FieldParams, coeffs: &Vec<u64>, word: u64) -> (r: u64)
    requires
        params.modulus > 2,
        word < params.modulus,
        forall|i: int| 0 <= i < coeffs@.len() ==> coeffs@[i] < params.modulus,
    ensures
        r == interp_sum(params.modulus as int, coeffs@, word as int),
{
    let ghost p = params.modulus as int;
    let mut acc: u64 = 0;
    let mut wp: u64 = 1 % params.modulus;
    let mut i: usize = 0;
    proof {
        reveal(pow);
        lemma_small_mod(1nat, params.modulus as nat);
        assert(pow(word as int, 0) == 1);
        assert(coeffs@.subrange(0, 0) =~= Seq::<u64>::empty());
    }
    while i < coeffs.len()
        invariant
            p == params.modulus as int,
            params.modulus > 2,
            word < params.modulus,
            forall|j: int| 0 <= j < coeffs@.len() ==> coeffs@[j] < params.modulus,
            i <= coeffs@.len(),
            acc == interp_sum(p, coeffs@.subrange(0, i as int), word as int),
            acc < params.modulus,
            wp == pow(word as int, i as nat) % p,
        decreases coeffs@.len() - i,
    {
        let c = coeffs[i];
        let term = f_mul(params, c, wp);
        let new_acc = f_add(params, acc, term);
        proof {
            let pre = coeffs@.subrange(0, i as int);
            let post = coeffs@.subrange(0, i as int + 1);
            assert(post.drop_last() =~= pre);
            assert(post.last() == coeffs@[i as int]);
            assert(new_acc == fadd(p, interp_sum(p, pre, word as int), fmul(p, c as int, wp as int)));
            assert(interp_sum(p, post, word as int) == fadd(
                p,
                interp_sum(p, pre, word as int),
                fmul(p, post.last() as int, pow(word as int, i as nat) % p),
            ));
        }
        acc = new_acc;
        let new_wp = f_mul(params, wp, word);
        proof {
            reveal(pow);
            lemma_mul_mod_noop_general(pow(word as int, i as nat), word as int, p);
            assert(pow(word as int, (i + 1) as nat) == word as int * pow(word as int, i as nat));
            assert(pow(word as int, i as nat) * word as int == word as int * pow(
                word as int,
                i as nat,
            )) by (nonlinear_arith);
        }
        wp = new_wp;
        i = i + 1;
    }
    proof {
        assert(coeffs@.subrange(0, coeffs@.len() as int) =~= coeffs@);
    }
    acc
}

/// Evaluates the `x_check` identity: interpolated value minus `x_p`.
pub fn eval_x_check(params: &FieldParams, coeffs: &Vec<u64>, word: u64, xp: u64) -> (r: u64)
    requires
        params.modulus > 2,
        word < params.modulus,
        xp < params.modulus,
        forall|i: int| 0 <= i < coeffs@.len() ==> coeffs@[i] < params.modulus,
    ensures
        r == x_check_poly(params.modulus as int, coeffs@, word as int, xp as int),
{
    let interp = eval_interp(params, coeffs, word);
    proof {
        if coeffs@.len() == 0 {
            lemma_mod_multiples_basic(0, params.modulus as int);
        } else {
            lemma_mod_bound(
                interp_sum(params.modulus as int, coeffs@.drop_last(), word as int) + fmul(
                    params.modulus as int,
                    coeffs@.last() as int,
                    pow(word as int, (coeffs@.len() - 1) as nat) % (params.modulus as int),
                ),
                params.modulus as int,
            );
        }
    }
    f_sub(params, interp, xp)
}

/// Evaluates the `y_check` identity `(y_p + z) - u^2`.
pub fn eval_y_check(params: &FieldParams, yp: u64, z: u64, u: u64) -> (r: u64)
    requires
        params.modulus > 2,
        yp < params.modulus,
        z < params.modulus,
        u < params.modulus,
    ensures
        r == y_check_poly(params.modulus as int, yp as int, z as int, u as int),
{
    f_sub(params, f_add(params, yp, z), f_mul(params, u, u))
}

/// Evaluates the `on_curve` identity `y_p^2 - x_p^3 - b`.
pub fn eval_on_curve(params: &FieldParams, xp: u64, yp: u64) -> (r: u64)
    requires
        params.modulus > 2,
        params.b < params.modulus,
        xp < params.modulus,
        yp < params.modulus,
    ensures
        r == on_curve_poly(params.modulus as int, params.b as int, xp as int, yp as int),
{
    f_sub(
        params,
        f_sub(params, f_mul(params, yp, yp), f_mul(params, f_mul(params, xp, xp), xp)),
        params.b,
    )
}

/// Re-evaluates all four identities of the running-sum gate on one
/// row's wire values: true exactly when the row satisfies the predicate
/// its registered kind stands for.
pub fn eval_running_sum_gate(
    params: &FieldParams,
    window_size: usize,
    z_curr: u64,
    z_next: u64,
    xp: u64,
    yp: u64,
    u: u64,
    z: u64,
    coeffs: &Vec<u64>,
) -> (r: bool)
    requires
        params.modulus > 2,
        params.b < params.modulus,
        window_size < 32,
        pow(2, window_size as nat) <= params.modulus,
        z_curr < params.modulus,
        z_next < params.modulus,
        xp < params.modulus,
        yp < params.modulus,
        u < params.modulus,
        z < params.modulus,
        coeffs@.len() == pow(2, window_size as nat),
        forall|i: int| 0 <= i < coeffs@.len() ==> coeffs@[i] < params.modulus,
    ensures
        r == crate::ecc::gate_row_sat(
            GateKind::RunningSum,
            params.modulus as int,
            params.b as int,
            window_size as nat,
            seq![z_curr, z_next, xp, yp, u, z] + coeffs@,
        ),
{
    let word = eval_word(params, window_size, z_curr, z_next);
    proof {
        lemma_mod_bound(
            z_curr as int - z_next as int * pow(2, window_size as nat),
            params.modulus as int,
        );
    }
    let sc = eval_sum_check(params, window_size, word);
    let xc = eval_x_check(params, coeffs, word, xp);
    let yc = eval_y_check(params, yp, z, u);
    let oc = eval_on_curve(params, xp, yp);
    proof {
        let wires = seq![z_curr, z_next, xp, yp, u, z] + coeffs@;
        assert(wires.skip(6) =~= coeffs@);
        assert(wires[0] == z_curr && wires[1] == z_next && wires[2] == xp && wires[3] == yp
            && wires[4] == u && wires[5] == z);
    }
    sc == 0 && xc == 0 && yc == 0 && oc == 0
}

} // verus!
