//! Complete point addition: the full elliptic-curve group law, with
//! doubling, identity operands, and mutual inverses selected
//! algebraically through field-inverse indicators instead of branches.
//!
//! Configuration registers twelve polynomial identities over the wires
//! `x_p, y_p, x_q, y_q` (current row), `x_r, y_r` (next row), the slope
//! `lambda`, and the indicator helpers `alpha, beta, gamma, delta`. The
//! `assign` step computes every one of those witness values and places
//! them into a region.

use crate::backend::{
    AdviceColumn, ConstraintSystem, CopyConstraint, Error, GateKind, Region, Selector,
};
use crate::ecc::ECCPoint;
use crate::field::{
    f_add, f_invert, f_mul, f_sub, fadd, finv, fmul, fsub, is_prime, lemma_double_nonzero, lemma_finv_in_range, lemma_finv_zero,
    lemma_finv_property, lemma_fmul_zero_left, lemma_fmul_zero_right, lemma_mul_inv_cancel,
    lemma_residue_sub_cancel, FieldParams,
};
use vstd::arithmetic::div_mod::{
    lemma_mod_bound, lemma_mod_multiples_basic, lemma_mod_twice, lemma_mul_mod_noop_general,
    lemma_small_mod, lemma_sub_mod_noop, lemma_sub_mod_noop_right,
};
use vstd::prelude::*;

verus! {

// ---------------------------------------------------------------------
// Witness values computed by `assign`, as functions of the two input
// points' residues.
// ---------------------------------------------------------------------
/// Indicator helper: the inverse of `x_q - x_p` (0 when equal).
pub open spec fn w_alpha(p: int, xp: int, xq: int) -> int {
    finv(p, fsub(p, xq, xp))
}

/// Indicator helper: the inverse of `x_p` (0 when `P` carries the
/// identity marker `x_p = 0`).
pub open spec fn w_beta(p: int, xp: int) -> int {
    finv(p, xp)
}

/// Indicator helper: the inverse of `x_q`.
pub open spec fn w_gamma(p: int, xq: int) -> int {
    finv(p, xq)
}

/// Indicator helper: the inverse of `y_p + y_q` when the x-coordinates
/// coincide, else 0.
pub open spec fn w_delta(p: int, xp: int, yp: int, xq: int, yq: int) -> int {
    if xp == xq {
        finv(p, fadd(p, yp, yq))
    } else {
        0
    }
}

/// The slope: secant when the x-coordinates differ, tangent
/// `3 x_p^2 / (2 y_p)` when doubling with `y_p != 0`, else 0.
pub open spec fn w_lambda(p: int, xp: int, yp: int, xq: int, yq: int) -> int {
    if xp != xq {
        fmul(p, fsub(p, yq, yp), w_alpha(p, xp, xq))
    } else if yp != 0 {
        fmul(p, fmul(p, 3int % p, fmul(p, xp, xp)), finv(p, fmul(p, 2int % p, yp)))
    } else {
        0
    }
}

/// The slope-formula x-coordinate `lambda^2 - x_p - x_q`, before
/// identity handling.
pub open spec fn formula_xr(p: int, xp: int, yp: int, xq: int, yq: int) -> int {
    let l = w_lambda(p, xp, yp, xq, yq);
    fsub(p, fsub(p, fmul(p, l, l), xp), xq)
}

/// The slope-formula y-coordinate `lambda (x_p - x_r) - y_p`, before
/// identity handling.
pub open spec fn formula_yr(p: int, xp: int, yp: int, xq: int, yq: int) -> int {
    let l = w_lambda(p, xp, yp, xq, yq);
    let xr = formula_xr(p, xp, yp, xq, yq);
    fsub(p, fmul(p, l, fsub(p, xp, xr)), yp)
}

/// The result's x-coordinate under the full group law: `x_q` when `P`
/// carries the identity marker, `x_p` when `Q` does, 0 when the
/// operands are mutual inverses, else the slope formula.
pub open spec fn w_xr(p: int, xp: int, yp: int, xq: int, yq: int) -> int {
    if xp == 0 {
        xq
    } else if xq == 0 {
        xp
    } else if xp == xq && fadd(p, yp, yq) == 0 {
        0
    } else {
        formula_xr(p, xp, yp, xq, yq)
    }
}

/// The result's y-coordinate under the full group law, with the same
/// case split as `w_xr`.
pub open spec fn w_yr(p: int, xp: int, yp: int, xq: int, yq: int) -> int {
    if xp == 0 {
        yq
    } else if xq == 0 {
        yp
    } else if xp == xq && fadd(p, yp, yq) == 0 {
        0
    } else {
        formula_yr(p, xp, yp, xq, yq)
    }
}

/// A point's wires are identity-consistent: the all-zero pair encodes
/// the identity, so one coordinate is zero exactly when both are. Every
/// affine point of the intended encoding satisfies this: `x = 0` is
/// reserved for the identity, and an odd-order curve has no point with
/// `y = 0`.
pub open spec fn identity_consistent(x: int, y: int) -> bool {
    (x == 0) <==> (y == 0)
}

// ---------------------------------------------------------------------
// The twelve polynomial identities, each as the residue its
// constraint polynomial takes on a row; a satisfied row makes each 0.
// ---------------------------------------------------------------------
/// Secant-slope identity, vacuous exactly when `x_q = x_p`:
/// `(x_q - x_p) ((x_q - x_p) lambda - (y_q - y_p))`.
pub open spec fn poly_1a(p: int, xp: int, yp: int, xq: int, yq: int, l: int) -> int {
    fmul(p, fsub(p, xq, xp), fsub(p, fmul(p, fsub(p, xq, xp), l), fsub(p, yq, yp)))
}

/// Tangent-slope identity, gated by `1 - if_alpha`:
/// `(1 - (x_q - x_p) alpha) (2 y_p lambda - 3 x_p^2)`.
pub open spec fn poly_2a(p: int, xp: int, yp: int, xq: int, l: int, alpha: int) -> int {
    fmul(
        p,
        fsub(p, 1, fmul(p, fsub(p, xq, xp), alpha)),
        fsub(p, fmul(p, fmul(p, 2int % p, yp), l), fmul(p, 3int % p, fmul(p, xp, xp))),
    )
}

/// Generic-addition x-result branch, gated by `x_p x_q (x_q - x_p)`.
pub open spec fn poly_3a(p: int, xp: int, xq: int, l: int, xr: int) -> int {
    fmul(
        p,
        fmul(p, fmul(p, xp, xq), fsub(p, xq, xp)),
        fsub(p, fsub(p, fsub(p, fmul(p, l, l), xp), xq), xr),
    )
}

/// Generic-addition y-result branch, gated by `x_p x_q (x_q - x_p)`.
pub open spec fn poly_3b(p: int, xp: int, yp: int, xq: int, l: int, xr: int, yr: int) -> int {
    fmul(
        p,
        fmul(p, fmul(p, xp, xq), fsub(p, xq, xp)),
        fsub(p, fsub(p, fmul(p, l, fsub(p, xp, xr)), yp), yr),
    )
}

/// x-result branch gated by `x_p x_q (y_q + y_p)`.
pub open spec fn poly_3c(p: int, xp: int, yp: int, xq: int, yq: int, l: int, xr: int) -> int {
    fmul(
        p,
        fmul(p, fmul(p, xp, xq), fadd(p, yq, yp)),
        fsub(p, fsub(p, fsub(p, fmul(p, l, l), xp), xq), xr),
    )
}

/// y-result branch gated by `x_p x_q (y_q + y_p)`.
pub open spec fn poly_3d(
    p: int,
    xp: int,
    yp: int,
    xq: int,
    yq: int,
    l: int,
    xr: int,
    yr: int,
) -> int {
    fmul(
        p,
        fmul(p, fmul(p, xp, xq), fadd(p, yq, yp)),
        fsub(p, fsub(p, fmul(p, l, fsub(p, xp, xr)), yp), yr),
    )
}

/// `P` is the identity marker: `(1 - x_p beta) (x_r - x_q)`.
pub open spec fn poly_4a(p: int, xp: int, xq: int, beta: int, xr: int) -> int {
    fmul(p, fsub(p, 1, fmul(p, xp, beta)), fsub(p, xr, xq))
}

/// `P` is the identity marker: `(1 - x_p beta) (y_r - y_q)`.
pub open spec fn poly_4b(p: int, xp: int, yq: int, beta: int, yr: int) -> int {
    fmul(p, fsub(p, 1, fmul(p, xp, beta)), fsub(p, yr, yq))
}

/// `Q` is the identity marker: `(1 - x_q gamma) (x_r - x_p)`.
pub open spec fn poly_5a(p: int, xp: int, xq: int, gamma: int, xr: int) -> int {
    fmul(p, fsub(p, 1, fmul(p, xq, gamma)), fsub(p, xr, xp))
}

/// `Q` is the identity marker: `(1 - x_q gamma) (y_r - y_p)`.
pub open spec fn poly_5b(p: int, yp: int, xq: int, gamma: int, yr: int) -> int {
    fmul(p, fsub(p, 1, fmul(p, xq, gamma)), fsub(p, yr, yp))
}

/// Mutual-inverse branch forcing `x_r = 0`:
/// `(1 - if_alpha - if_delta) x_r`.
pub open spec fn poly_6a(
    p: int,
    xp: int,
    yp: int,
    xq: int,
    yq: int,
    alpha: int,
    delta: int,
    xr: int,
) -> int {
    fmul(
        p,
        fsub(p, fsub(p, 1, fmul(p, fsub(p, xq, xp), alpha)), fmul(p, fadd(p, yq, yp), delta)),
        xr,
    )
}

/// Mutual-inverse branch forcing `y_r = 0`.
pub open spec fn poly_6b(
    p: int,
    xp: int,
    yp: int,
    xq: int,
    yq: int,
    alpha: int,
    delta: int,
    yr: int,
) -> int {
    fmul(
        p,
        fsub(p, fsub(p, 1, fmul(p, fsub(p, xq, xp), alpha)), fmul(p, fadd(p, yq, yp), delta)),
        yr,
    )
}

/// All twelve identities of the complete-addition gate hold on a row.
pub open spec fn complete_gate_sat(
    p: int,
    xp: int,
    yp: int,
    xq: int,
    yq: int,
    xr: int,
    yr: int,
    l: int,
    alpha: int,
    beta: int,
    gamma: int,
    delta: int,
) -> bool {
    &&& poly_1a(p, xp, yp, xq, yq, l) == 0
    &&& poly_2a(p, xp, yp, xq, l, alpha) == 0
    &&& poly_3a(p, xp, xq, l, xr) == 0
    &&& poly_3b(p, xp, yp, xq, l, xr, yr) == 0
    &&& poly_3c(p, xp, yp, xq, yq, l, xr) == 0
    &&& poly_3d(p, xp, yp, xq, yq, l, xr, yr) == 0
    &&& poly_4a(p, xp, xq, beta, xr) == 0
    &&& poly_4b(p, xp, yq, beta, yr) == 0
    &&& poly_5a(p, xp, xq, gamma, xr) == 0
    &&& poly_5b(p, yp, xq, gamma, yr) == 0
    &&& poly_6a(p, xp, yp, xq, yq, alpha, delta, xr) == 0
    &&& poly_6b(p, xp, yp, xq, yq, alpha, delta, yr) == 0
}

/// Round-trip soundness of the complete-addition chip: on every
/// identity-consistent input pair, the witness values that `assign`
/// computes satisfy every registered polynomial identity.
pub proof fn lemma_witness_meets_complete_gate(p: int, xp: int, yp: int, xq: int, yq: int)
    requires
        is_prime(p),
        p > 2,
        0 <= xp < p,
        0 <= yp < p,
        0 <= xq < p,
        0 <= yq < p,
        identity_consistent(xp, yp),
        identity_consistent(xq, yq),
    ensures
        complete_gate_sat(
            p,
            xp,
            yp,
            xq,
            yq,
            w_xr(p, xp, yp, xq, yq),
            w_yr(p, xp, yp, xq, yq),
            w_lambda(p, xp, yp, xq, yq),
            w_alpha(p, xp, xq),
            w_beta(p, xp),
            w_gamma(p, xq),
            w_delta(p, xp, yp, xq, yq),
        ),
{
    let d = fsub(p, xq, xp);
    let e = fsub(p, yq, yp);
    let al = w_alpha(p, xp, xq);
    let be = w_beta(p, xp);
    let ga = w_gamma(p, xq);
    let de = w_delta(p, xp, yp, xq, yq);
    let l = w_lambda(p, xp, yp, xq, yq);
    let xr = w_xr(p, xp, yp, xq, yq);
    let yr = w_yr(p, xp, yp, xq, yq);
    lemma_mod_multiples_basic(0, p);
    lemma_small_mod(1nat, p as nat);
    lemma_mod_bound(xq - xp, p);
    lemma_mod_twice(xq - xp, p);
    lemma_mod_bound(yq - yp, p);
    lemma_mod_twice(yq - yp, p);
    let inner_x = fsub(p, fsub(p, fsub(p, fmul(p, l, l), xp), xq), xr);
    let inner_y = fsub(p, fsub(p, fmul(p, l, fsub(p, xp, xr)), yp), yr);
    if xp != xq {
        // The secant slope satisfies (x_q - x_p) lambda = y_q - y_p.
        lemma_residue_sub_cancel(p, xq, xp);
        assert(d != 0);
        lemma_finv_property(p, d);
        lemma_mul_inv_cancel(p, e, d);
        assert(fmul(p, d, l) == e);
        assert(fsub(p, fmul(p, d, l), e) == 0);
        lemma_fmul_zero_right(p, d);
        assert(poly_1a(p, xp, yp, xq, yq, l) == 0);
        // 2a: if_alpha = 1, so the tangent branch is vacuous.
        assert(fmul(p, d, al) == 1);
        assert(fsub(p, 1, fmul(p, d, al)) == 0);
        lemma_fmul_zero_left(
            p,
            fsub(p, fmul(p, fmul(p, 2int % p, yp), l), fmul(p, 3int % p, fmul(p, xp, xp))),
        );
        assert(poly_2a(p, xp, yp, xq, l, al) == 0);
        // 6: if_alpha = 1 and delta = 0.
        assert(de == 0);
        lemma_fmul_zero_right(p, fadd(p, yq, yp));
        assert(fmul(p, fadd(p, yq, yp), de) == 0);
        assert(fsub(p, fsub(p, 1, fmul(p, d, al)), fmul(p, fadd(p, yq, yp), de)) == 0);
        lemma_fmul_zero_left(p, xr);
        lemma_fmul_zero_left(p, yr);
        assert(poly_6a(p, xp, yp, xq, yq, al, de, xr) == 0);
        assert(poly_6b(p, xp, yp, xq, yq, al, de, yr) == 0);
        if xp == 0 {
            // P carries the identity marker: y_p = 0 and R = Q.
            assert(yp == 0 && xq != 0 && xr == xq && yr == yq);
            // 3: the branch factors carry x_p = 0.
            lemma_fmul_zero_left(p, xq);
            assert(fmul(p, xp, xq) == 0);
            lemma_fmul_zero_left(p, fsub(p, xq, xp));
            lemma_fmul_zero_left(p, fadd(p, yq, yp));
            assert(fmul(p, fmul(p, xp, xq), fsub(p, xq, xp)) == 0);
            assert(fmul(p, fmul(p, xp, xq), fadd(p, yq, yp)) == 0);
            lemma_fmul_zero_left(p, inner_x);
            lemma_fmul_zero_left(p, inner_y);
            assert(poly_3a(p, xp, xq, l, xr) == 0);
            assert(poly_3b(p, xp, yp, xq, l, xr, yr) == 0);
            assert(poly_3c(p, xp, yp, xq, yq, l, xr) == 0);
            assert(poly_3d(p, xp, yp, xq, yq, l, xr, yr) == 0);
            // 4: if_beta = 0 forces R = Q, which the witness carries.
            lemma_fmul_zero_left(p, be);
            assert(fmul(p, xp, be) == 0);
            assert(fsub(p, 1, fmul(p, xp, be)) == 1);
            assert(fsub(p, xr, xq) == 0);
            assert(fsub(p, yr, yq) == 0);
            lemma_fmul_zero_right(p, 1);
            assert(poly_4a(p, xp, xq, be, xr) == 0);
            assert(poly_4b(p, xp, yq, be, yr) == 0);
            // 5: Q is off the marker, so if_gamma = 1.
            lemma_small_mod(xq as nat, p as nat);
            lemma_finv_property(p, xq);
            assert(fmul(p, xq, ga) == 1);
            assert(fsub(p, 1, fmul(p, xq, ga)) == 0);
            lemma_fmul_zero_left(p, fsub(p, xr, xp));
            lemma_fmul_zero_left(p, fsub(p, yr, yp));
            assert(poly_5a(p, xp, xq, ga, xr) == 0);
            assert(poly_5b(p, yp, xq, ga, yr) == 0);
        } else if xq == 0 {
            // Q carries the identity marker: y_q = 0 and R = P.
            assert(yq == 0 && xp != 0 && xr == xp && yr == yp);
            // 3: the branch factors carry x_q = 0.
            lemma_fmul_zero_right(p, xp);
            assert(fmul(p, xp, xq) == 0);
            lemma_fmul_zero_left(p, fsub(p, xq, xp));
            lemma_fmul_zero_left(p, fadd(p, yq, yp));
            assert(fmul(p, fmul(p, xp, xq), fsub(p, xq, xp)) == 0);
            assert(fmul(p, fmul(p, xp, xq), fadd(p, yq, yp)) == 0);
            lemma_fmul_zero_left(p, inner_x);
            lemma_fmul_zero_left(p, inner_y);
            assert(poly_3a(p, xp, xq, l, xr) == 0);
            assert(poly_3b(p, xp, yp, xq, l, xr, yr) == 0);
            assert(poly_3c(p, xp, yp, xq, yq, l, xr) == 0);
            assert(poly_3d(p, xp, yp, xq, yq, l, xr, yr) == 0);
            // 4: P is off the marker, so if_beta = 1.
            lemma_small_mod(xp as nat, p as nat);
            lemma_finv_property(p, xp);
            assert(fmul(p, xp, be) == 1);
            assert(fsub(p, 1, fmul(p, xp, be)) == 0);
            lemma_fmul_zero_left(p, fsub(p, xr, xq));
            lemma_fmul_zero_left(p, fsub(p, yr, yq));
            assert(poly_4a(p, xp, xq, be, xr) == 0);
            assert(poly_4b(p, xp, yq, be, yr) == 0);
            // 5: if_gamma = 0 forces R = P, which the witness carries.
            lemma_fmul_zero_left(p, ga);
            assert(fmul(p, xq, ga) == 0);
            assert(fsub(p, 1, fmul(p, xq, ga)) == 1);
            assert(fsub(p, xr, xp) == 0);
            assert(fsub(p, yr, yp) == 0);
            lemma_fmul_zero_right(p, 1);
            assert(poly_5a(p, xp, xq, ga, xr) == 0);
            assert(poly_5b(p, yp, xq, ga, yr) == 0);
        } else {
            // Generic addition: both operands off the marker, so the
            // witness carries the slope-formula result and the inner
            // branch factors vanish definitionally.
            assert(xr == fsub(p, fsub(p, fmul(p, l, l), xp), xq));
            assert(yr == fsub(p, fmul(p, l, fsub(p, xp, xr)), yp));
            assert(inner_x == 0);
            assert(inner_y == 0);
            lemma_fmul_zero_right(p, fmul(p, fmul(p, xp, xq), fsub(p, xq, xp)));
            lemma_fmul_zero_right(p, fmul(p, fmul(p, xp, xq), fadd(p, yq, yp)));
            assert(poly_3a(p, xp, xq, l, xr) == 0);
            assert(poly_3b(p, xp, yp, xq, l, xr, yr) == 0);
            assert(poly_3c(p, xp, yp, xq, yq, l, xr) == 0);
            assert(poly_3d(p, xp, yp, xq, yq, l, xr, yr) == 0);
            lemma_small_mod(xp as nat, p as nat);
            lemma_finv_property(p, xp);
            assert(fmul(p, xp, be) == 1);
            assert(fsub(p, 1, fmul(p, xp, be)) == 0);
            lemma_fmul_zero_left(p, fsub(p, xr, xq));
            lemma_fmul_zero_left(p, fsub(p, yr, yq));
            assert(poly_4a(p, xp, xq, be, xr) == 0);
            assert(poly_4b(p, xp, yq, be, yr) == 0);
            lemma_small_mod(xq as nat, p as nat);
            lemma_finv_property(p, xq);
            assert(fmul(p, xq, ga) == 1);
            assert(fsub(p, 1, fmul(p, xq, ga)) == 0);
            lemma_fmul_zero_left(p, fsub(p, xr, xp));
            lemma_fmul_zero_left(p, fsub(p, yr, yp));
            assert(poly_5a(p, xp, xq, ga, xr) == 0);
            assert(poly_5b(p, yp, xq, ga, yr) == 0);
        }
    } else {
        // x_p = x_q: the secant identity is vacuous and if_alpha = 0.
        assert(d == 0);
        lemma_finv_zero(p, 0);
        assert(al == 0);
        lemma_fmul_zero_left(p, al);
        assert(fmul(p, d, al) == 0);
        lemma_fmul_zero_left(p, fsub(p, fmul(p, d, l), e));
        assert(poly_1a(p, xp, yp, xq, yq, l) == 0);
        assert(fsub(p, 1, fmul(p, d, al)) == 1);
        if xp == 0 {
            // Both operands are the all-zero identity encoding.
            assert(yp == 0 && xq == 0 && yq == 0);
            assert(l == 0);
            lemma_fmul_zero_left(p, 0);
            assert(fmul(p, 0, 0) == 0);
            assert(fsub(p, 0, 0) == 0);
            assert(xr == 0);
            assert(yr == 0);
            assert(fadd(p, 0, 0) == 0);
            lemma_finv_zero(p, fadd(p, 0, 0));
            assert(de == 0);
            lemma_finv_zero(p, xp);
            assert(be == 0);
            assert(ga == 0);
            // 2a: every product in the tangent identity vanishes.
            lemma_fmul_zero_right(p, 2int % p);
            lemma_fmul_zero_right(p, 3int % p);
            assert(fmul(p, fmul(p, 2int % p, yp), l) == 0);
            assert(fmul(p, 3int % p, fmul(p, xp, xp)) == 0);
            assert(fsub(p, fmul(p, fmul(p, 2int % p, yp), l), fmul(p, 3int % p, fmul(p, xp, xp)))
                == 0);
            lemma_fmul_zero_right(p, fsub(p, 1, fmul(p, d, al)));
            assert(poly_2a(p, xp, yp, xq, l, al) == 0);
            // 3: the branch factors are products of zeros.
            lemma_fmul_zero_left(p, inner_x);
            lemma_fmul_zero_left(p, inner_y);
            assert(poly_3a(p, xp, xq, l, xr) == 0);
            assert(poly_3b(p, xp, yp, xq, l, xr, yr) == 0);
            assert(poly_3c(p, xp, yp, xq, yq, l, xr) == 0);
            assert(poly_3d(p, xp, yp, xq, yq, l, xr, yr) == 0);
            // 4, 5, 6: the identity branches compare zeros with zeros.
            lemma_fmul_zero_left(p, be);
            lemma_fmul_zero_left(p, ga);
            assert(fmul(p, xp, be) == 0);
            assert(fsub(p, 1, fmul(p, xp, be)) == 1);
            lemma_fmul_zero_right(p, 1);
            assert(fsub(p, xr, xq) == 0);
            assert(fsub(p, yr, yq) == 0);
            assert(poly_4a(p, xp, xq, be, xr) == 0);
            assert(poly_4b(p, xp, yq, be, yr) == 0);
            assert(fmul(p, xq, ga) == 0);
            assert(fsub(p, 1, fmul(p, xq, ga)) == 1);
            assert(poly_5a(p, xp, xq, ga, xr) == 0);
            assert(poly_5b(p, yp, xq, ga, yr) == 0);
            lemma_fmul_zero_right(p, fadd(p, yq, yp));
            assert(fmul(p, fadd(p, yq, yp), de) == 0);
            assert(fsub(p, fsub(p, 1, fmul(p, d, al)), fmul(p, fadd(p, yq, yp), de)) == 1);
            assert(poly_6a(p, xp, yp, xq, yq, al, de, xr) == 0);
            assert(poly_6b(p, xp, yp, xq, yq, al, de, yr) == 0);
        } else {
            // x_p = x_q != 0, so y_p != 0 and the slope is the tangent.
            assert(yp != 0 && xq != 0);
            let sq = fmul(p, xp, xp);
            let n = fmul(p, 3int % p, sq);
            let dd = fmul(p, 2int % p, yp);
            lemma_small_mod(2nat, p as nat);
            lemma_mul_mod_noop_general(2, yp, p);
            lemma_double_nonzero(p, yp);
            assert(dd == (2 * yp) % p);
            assert(dd != 0);
            lemma_mod_twice(2 * yp, p);
            lemma_mod_bound((3int % p) * sq, p);
            lemma_mod_twice((3int % p) * sq, p);
            // 2a: 2 y_p lambda = 3 x_p^2 for the tangent slope.
            lemma_mul_inv_cancel(p, n, dd);
            assert(l == fmul(p, n, finv(p, dd)));
            assert(fmul(p, dd, l) == n);
            assert(fsub(p, fmul(p, fmul(p, 2int % p, yp), l), fmul(p, 3int % p, fmul(p, xp, xp)))
                == 0);
            lemma_fmul_zero_right(p, fsub(p, 1, fmul(p, d, al)));
            assert(poly_2a(p, xp, yp, xq, l, al) == 0);
            // 4, 5: both operands off the marker.
            lemma_small_mod(xp as nat, p as nat);
            lemma_finv_property(p, xp);
            assert(fmul(p, xp, be) == 1);
            assert(fsub(p, 1, fmul(p, xp, be)) == 0);
            lemma_fmul_zero_left(p, fsub(p, xr, xq));
            lemma_fmul_zero_left(p, fsub(p, yr, yq));
            assert(poly_4a(p, xp, xq, be, xr) == 0);
            assert(poly_4b(p, xp, yq, be, yr) == 0);
            lemma_finv_property(p, xq);
            assert(fmul(p, xq, ga) == 1);
            assert(fsub(p, 1, fmul(p, xq, ga)) == 0);
            lemma_fmul_zero_left(p, fsub(p, xr, xp));
            lemma_fmul_zero_left(p, fsub(p, yr, yp));
            assert(poly_5a(p, xp, xq, ga, xr) == 0);
            assert(poly_5b(p, yp, xq, ga, yr) == 0);
            if fadd(p, yp, yq) == 0 {
                // Mutual inverses: the witness carries R = (0, 0).
                assert(xr == 0 && yr == 0);
                // 3a/3b vanish through x_q - x_p, 3c/3d through y_q + y_p.
                lemma_fmul_zero_right(p, fmul(p, xp, xq));
                assert(fmul(p, fmul(p, xp, xq), fsub(p, xq, xp)) == 0);
                assert(fadd(p, yq, yp) == 0);
                assert(fmul(p, fmul(p, xp, xq), fadd(p, yq, yp)) == 0);
                lemma_fmul_zero_left(p, inner_x);
                lemma_fmul_zero_left(p, inner_y);
                assert(poly_3a(p, xp, xq, l, xr) == 0);
                assert(poly_3b(p, xp, yp, xq, l, xr, yr) == 0);
                assert(poly_3c(p, xp, yp, xq, yq, l, xr) == 0);
                assert(poly_3d(p, xp, yp, xq, yq, l, xr, yr) == 0);
                // 6: if_alpha = if_delta = 0 forces R = (0, 0), which
                // the witness carries.
                lemma_fmul_zero_left(p, de);
                assert(fmul(p, fadd(p, yq, yp), de) == 0);
                assert(fsub(p, fsub(p, 1, fmul(p, d, al)), fmul(p, fadd(p, yq, yp), de)) == 1);
                lemma_fmul_zero_right(p, 1);
                assert(poly_6a(p, xp, yp, xq, yq, al, de, xr) == 0);
                assert(poly_6b(p, xp, yp, xq, yq, al, de, yr) == 0);
            } else {
                // True doubling: the witness carries the tangent result.
                assert(xr == fsub(p, fsub(p, fmul(p, l, l), xp), xq));
                assert(yr == fsub(p, fmul(p, l, fsub(p, xp, xr)), yp));
                assert(inner_x == 0);
                assert(inner_y == 0);
                lemma_fmul_zero_right(p, fmul(p, fmul(p, xp, xq), fsub(p, xq, xp)));
                lemma_fmul_zero_right(p, fmul(p, fmul(p, xp, xq), fadd(p, yq, yp)));
                assert(poly_3a(p, xp, xq, l, xr) == 0);
                assert(poly_3b(p, xp, yp, xq, l, xr, yr) == 0);
                assert(poly_3c(p, xp, yp, xq, yq, l, xr) == 0);
                assert(poly_3d(p, xp, yp, xq, yq, l, xr, yr) == 0);
                // 6: if_delta = 1 because y_p + y_q has an inverse.
                let sm = fadd(p, yp, yq);
                lemma_mod_bound(yp + yq, p);
                lemma_mod_twice(yp + yq, p);
                lemma_finv_property(p, sm);
                assert(fadd(p, yq, yp) == sm);
                assert(fmul(p, sm, de) == 1);
                assert(fsub(p, fsub(p, 1, fmul(p, d, al)), fmul(p, fadd(p, yq, yp), de)) == 0);
                lemma_fmul_zero_left(p, xr);
                lemma_fmul_zero_left(p, yr);
                assert(poly_6a(p, xp, yp, xq, yq, al, de, xr) == 0);
                assert(poly_6b(p, xp, yp, xq, yq, al, de, yr) == 0);
            }
        }
    }
}

// ---------------------------------------------------------------------
// Textbook secant-line group law, the reference form for both addition
// chips when the x-coordinates differ.
// ---------------------------------------------------------------------
/// The secant slope `(y_q - y_p) / (x_q - x_p)`.
pub open spec fn secant_slope(p: int, xp: int, yp: int, xq: int, yq: int) -> int {
    fmul(p, fsub(p, yq, yp), finv(p, fsub(p, xq, xp)))
}

/// The secant-law result x-coordinate `slope^2 - x_p - x_q`.
pub open spec fn secant_xr(p: int, xp: int, yp: int, xq: int, yq: int) -> int {
    let sl = secant_slope(p, xp, yp, xq, yq);
    fsub(p, fsub(p, fmul(p, sl, sl), xp), xq)
}

/// The secant-law result y-coordinate `slope (x_p - x_r) - y_p`.
pub open spec fn secant_yr(p: int, xp: int, yp: int, xq: int, yq: int) -> int {
    let sl = secant_slope(p, xp, yp, xq, yq);
    fsub(p, fmul(p, sl, fsub(p, xp, secant_xr(p, xp, yp, xq, yq))), yp)
}

/// On distinct x-coordinates, with both operands off the identity
/// marker, the complete chip's witness result is exactly the textbook
/// secant-line group-law result.
pub proof fn lemma_complete_matches_secant(p: int, xp: int, yp: int, xq: int, yq: int)
    requires
        is_prime(p),
        p > 2,
        0 < xp < p,
        0 <= yp < p,
        0 < xq < p,
        0 <= yq < p,
        xp != xq,
    ensures
        w_lambda(p, xp, yp, xq, yq) == secant_slope(p, xp, yp, xq, yq),
        w_xr(p, xp, yp, xq, yq) == secant_xr(p, xp, yp, xq, yq),
        w_yr(p, xp, yp, xq, yq) == secant_yr(p, xp, yp, xq, yq),
{
}

/// Doubling law: invoked with (P, P) for a point off the identity
/// marker with `y_p != 0`, the chip's witness is the tangent result:
/// `lambda = 3 x_p^2 / (2 y_p)`, `x_r = lambda^2 - 2 x_p` and
/// `y_r = lambda (x_p - x_r) - y_p`.
pub proof fn lemma_doubling_result(p: int, xp: int, yp: int)
    requires
        is_prime(p),
        p > 2,
        0 < xp < p,
        0 < yp < p,
    ensures
        w_lambda(p, xp, yp, xp, yp) == fmul(
            p,
            fmul(p, 3int % p, fmul(p, xp, xp)),
            finv(p, fmul(p, 2int % p, yp)),
        ),
        w_xr(p, xp, yp, xp, yp) == fsub(
            p,
            fmul(p, w_lambda(p, xp, yp, xp, yp), w_lambda(p, xp, yp, xp, yp)),
            fmul(p, 2int % p, xp),
        ),
        w_yr(p, xp, yp, xp, yp) == fsub(
            p,
            fmul(p, w_lambda(p, xp, yp, xp, yp), fsub(p, xp, w_xr(p, xp, yp, xp, yp))),
            yp,
        ),
{
    let l = w_lambda(p, xp, yp, xp, yp);
    let l2 = fmul(p, l, l);
    lemma_double_nonzero(p, yp);
    assert(fadd(p, yp, yp) == (2 * yp) % p);
    assert(fadd(p, yp, yp) != 0);
    lemma_small_mod(2nat, p as nat);
    lemma_small_mod(xp as nat, p as nat);
    assert(fsub(p, fsub(p, l2, xp), xp) == fsub(p, l2, fmul(p, 2int % p, xp))) by {
        lemma_sub_mod_noop(l2 - xp, xp, p);
        lemma_mod_twice(l * l, p);
        lemma_mul_mod_noop_general(2, xp, p);
        lemma_sub_mod_noop_right(l2, 2 * xp, p);
    }
}

/// If the complete-addition gate holds on a row whose `P` operand
/// carries the identity marker `x_p = 0`, its constraints force `R = Q`,
/// whatever the helper wires hold.
pub proof fn lemma_gate_forces_q_on_p_identity(
    p: int,
    xp: int,
    yp: int,
    xq: int,
    yq: int,
    xr: int,
    yr: int,
    l: int,
    alpha: int,
    beta: int,
    gamma: int,
    delta: int,
)
    requires
        is_prime(p),
        p > 2,
        0 <= xq < p,
        0 <= yq < p,
        0 <= xr < p,
        0 <= yr < p,
        complete_gate_sat(p, xp, yp, xq, yq, xr, yr, l, alpha, beta, gamma, delta),
        xp == 0,
    ensures
        xr == xq,
        yr == yq,
{
    lemma_mod_multiples_basic(0, p);
    lemma_small_mod(1nat, p as nat);
    lemma_fmul_zero_left(p, beta);
    assert(fmul(p, xp, beta) == 0);
    assert(fsub(p, 1, fmul(p, xp, beta)) == 1);
    lemma_mod_twice(xr - xq, p);
    lemma_mod_twice(yr - yq, p);
    vstd::arithmetic::mul::lemma_mul_basics(fsub(p, xr, xq));
    vstd::arithmetic::mul::lemma_mul_basics(fsub(p, yr, yq));
    assert(fmul(p, 1, fsub(p, xr, xq)) == fsub(p, xr, xq));
    assert(fmul(p, 1, fsub(p, yr, yq)) == fsub(p, yr, yq));
    assert(fsub(p, xr, xq) == 0);
    assert(fsub(p, yr, yq) == 0);
    lemma_residue_sub_cancel(p, xr, xq);
    lemma_residue_sub_cancel(p, yr, yq);
}

/// Symmetrically, when `Q` carries the identity marker `x_q = 0` the
/// gate forces `R = P`.
pub proof fn lemma_gate_forces_p_on_q_identity(
    p: int,
    xp: int,
    yp: int,
    xq: int,
    yq: int,
    xr: int,
    yr: int,
    l: int,
    alpha: int,
    beta: int,
    gamma: int,
    delta: int,
)
    requires
        is_prime(p),
        p > 2,
        0 <= xp < p,
        0 <= yp < p,
        0 <= xr < p,
        0 <= yr < p,
        complete_gate_sat(p, xp, yp, xq, yq, xr, yr, l, alpha, beta, gamma, delta),
        xq == 0,
    ensures
        xr == xp,
        yr == yp,
{
    lemma_mod_multiples_basic(0, p);
    lemma_small_mod(1nat, p as nat);
    lemma_fmul_zero_left(p, gamma);
    assert(fmul(p, xq, gamma) == 0);
    assert(fsub(p, 1, fmul(p, xq, gamma)) == 1);
    lemma_mod_twice(xr - xp, p);
    lemma_mod_twice(yr - yp, p);
    vstd::arithmetic::mul::lemma_mul_basics(fsub(p, xr, xp));
    vstd::arithmetic::mul::lemma_mul_basics(fsub(p, yr, yp));
    assert(fmul(p, 1, fsub(p, xr, xp)) == fsub(p, xr, xp));
    assert(fmul(p, 1, fsub(p, yr, yp)) == fsub(p, yr, yp));
    assert(fsub(p, xr, xp) == 0);
    assert(fsub(p, yr, yp) == 0);
    lemma_residue_sub_cancel(p, xr, xp);
    lemma_residue_sub_cancel(p, yr, yp);
}

/// When the operands share an x-coordinate and their y-coordinates sum
/// to zero (`P = -Q`), the constraints force the all-zero identity encoding
/// `R = (0, 0)`.
pub proof fn lemma_gate_forces_zero_on_mutual_inverse(
    p: int,
    xp: int,
    yp: int,
    xq: int,
    yq: int,
    xr: int,
    yr: int,
    l: int,
    alpha: int,
    beta: int,
    gamma: int,
    delta: int,
)
    requires
        is_prime(p),
        p > 2,
        0 <= xp < p,
        0 <= yp < p,
        0 <= xq < p,
        0 <= yq < p,
        0 <= xr < p,
        0 <= yr < p,
        complete_gate_sat(p, xp, yp, xq, yq, xr, yr, l, alpha, beta, gamma, delta),
        xp == xq,
        fadd(p, yp, yq) == 0,
    ensures
        xr == 0,
        yr == 0,
{
    lemma_mod_multiples_basic(0, p);
    lemma_small_mod(1nat, p as nat);
    assert(fsub(p, xq, xp) == 0);
    lemma_fmul_zero_left(p, alpha);
    assert(fmul(p, fsub(p, xq, xp), alpha) == 0);
    assert(fadd(p, yq, yp) == 0);
    lemma_fmul_zero_left(p, delta);
    assert(fmul(p, fadd(p, yq, yp), delta) == 0);
    assert(fsub(p, fsub(p, 1, fmul(p, fsub(p, xq, xp), alpha)), fmul(p, fadd(p, yq, yp), delta))
        == 1);
    lemma_small_mod(xr as nat, p as nat);
    lemma_small_mod(yr as nat, p as nat);
    assert(xr % p == xr);
    assert(yr % p == yr);
    vstd::arithmetic::mul::lemma_mul_basics(xr);
    vstd::arithmetic::mul::lemma_mul_basics(yr);
    assert(fmul(p, 1, xr) == xr);
    assert(fmul(p, 1, yr) == yr);
}

// ---------------------------------------------------------------------
// The chip itself.
// ---------------------------------------------------------------------
/// The complete-addition chip's configuration: its selector and wires.
pub struct Config {
    pub q_add: Selector,
    pub lambda_col: AdviceColumn,
    pub x_p: AdviceColumn,
    pub y_p: AdviceColumn,
    pub x_qr: AdviceColumn,
    pub y_qr: AdviceColumn,
    pub alpha: AdviceColumn,
    pub beta: AdviceColumn,
    pub gamma: AdviceColumn,
    pub delta: AdviceColumn,
}

impl Config {
    /// The nine wires are pairwise distinct and, with the selector, lie
    /// inside the given region dimensions.
    pub open spec fn fits(self, num_cols: int, num_selectors: int) -> bool {
        &&& self.lambda_col.index != self.x_p.index
        &&& self.lambda_col.index != self.y_p.index
        &&& self.lambda_col.index != self.x_qr.index
        &&& self.lambda_col.index != self.y_qr.index
        &&& self.lambda_col.index != self.alpha.index
        &&& self.lambda_col.index != self.beta.index
        &&& self.lambda_col.index != self.gamma.index
        &&& self.lambda_col.index != self.delta.index
        &&& self.x_p.index != self.y_p.index
        &&& self.x_p.index != self.x_qr.index
        &&& self.x_p.index != self.y_qr.index
        &&& self.x_p.index != self.alpha.index
        &&& self.x_p.index != self.beta.index
        &&& self.x_p.index != self.gamma.index
        &&& self.x_p.index != self.delta.index
        &&& self.y_p.index != self.x_qr.index
        &&& self.y_p.index != self.y_qr.index
        &&& self.y_p.index != self.alpha.index
        &&& self.y_p.index != self.beta.index
        &&& self.y_p.index != self.gamma.index
        &&& self.y_p.index != self.delta.index
        &&& self.x_qr.index != self.y_qr.index
        &&& self.x_qr.index != self.alpha.index
        &&& self.x_qr.index != self.beta.index
        &&& self.x_qr.index != self.gamma.index
        &&& self.x_qr.index != self.delta.index
        &&& self.y_qr.index != self.alpha.index
        &&& self.y_qr.index != self.beta.index
        &&& self.y_qr.index != self.gamma.index
        &&& self.y_qr.index != self.delta.index
        &&& self.alpha.index != self.beta.index
        &&& self.alpha.index != self.gamma.index
        &&& self.alpha.index != self.delta.index
        &&& self.beta.index != self.gamma.index
        &&& self.beta.index != self.delta.index
        &&& self.gamma.index != self.delta.index
        &&& self.lambda_col.index < num_cols
        &&& self.x_p.index < num_cols
        &&& self.y_p.index < num_cols
        &&& self.x_qr.index < num_cols
        &&& self.y_qr.index < num_cols
        &&& self.alpha.index < num_cols
        &&& self.beta.index < num_cols
        &&& self.gamma.index < num_cols
        &&& self.delta.index < num_cols
        &&& self.q_add.index < num_selectors
    }

    /// The eleven cells that one invocation writes: the nine wires on
    /// the active row and the result pair on the next row.
    pub open spec fn row_cells_free(self, reg: Region, off: int) -> bool {
        &&& reg.cell(self.x_p.index as int, off) is None
        &&& reg.cell(self.y_p.index as int, off) is None
        &&& reg.cell(self.x_qr.index as int, off) is None
        &&& reg.cell(self.y_qr.index as int, off) is None
        &&& reg.cell(self.alpha.index as int, off) is None
        &&& reg.cell(self.beta.index as int, off) is None
        &&& reg.cell(self.gamma.index as int, off) is None
        &&& reg.cell(self.delta.index as int, off) is None
        &&& reg.cell(self.lambda_col.index as int, off) is None
        &&& reg.cell(self.x_qr.index as int, off + 1) is None
        &&& reg.cell(self.y_qr.index as int, off + 1) is None
    }

    /// Whether `(c, row)` is one of the cells this invocation writes.
    pub open spec fn writes_cell(self, off: int, c: int, row: int) -> bool {
        ||| (row == off && (c == self.x_p.index || c == self.y_p.index || c == self.x_qr.index
            || c == self.y_qr.index || c == self.alpha.index || c == self.beta.index
            || c == self.gamma.index || c == self.delta.index || c == self.lambda_col.index))
        ||| (row == off + 1 && (c == self.x_qr.index || c == self.y_qr.index))
    }

    /// Registers the complete-addition gate: allocates its selector,
    /// declares the four point wires equality-constrainable, and records
    /// its twelve polynomial identities under its kind —
    /// `GateKind::CompleteAdd` stands for the row predicate
    /// `crate::ecc::gate_row_sat`.
    pub fn configure(
        meta: &mut ConstraintSystem,
        lambda_col: AdviceColumn,
        x_p: AdviceColumn,
        y_p: AdviceColumn,
        x_qr: AdviceColumn,
        y_qr: AdviceColumn,
        alpha: AdviceColumn,
        beta: AdviceColumn,
        gamma: AdviceColumn,
        delta: AdviceColumn,
    ) -> (r: Config)
        requires
            old(meta).wf(),
            old(meta).num_selectors < usize::MAX,
            x_p.index < old(meta).num_advice,
            y_p.index < old(meta).num_advice,
            x_qr.index < old(meta).num_advice,
            y_qr.index < old(meta).num_advice,
        ensures
            final(meta).wf(),
            final(meta).num_advice == old(meta).num_advice,
            final(meta).num_selectors == old(meta).num_selectors + 1,
            final(meta).gates@ == old(meta).gates@.push(GateKind::CompleteAdd),
            forall|c: int|
                0 <= c < old(meta).num_advice ==> final(meta).equality@[c] == (
                old(meta).equality@[c] || c == x_p.index || c == y_p.index || c == x_qr.index
                    || c == y_qr.index),
            r.q_add.index == old(meta).num_selectors,
            r.lambda_col == lambda_col,
            r.x_p == x_p,
            r.y_p == y_p,
            r.x_qr == x_qr,
            r.y_qr == y_qr,
            r.alpha == alpha,
            r.beta == beta,
            r.gamma == gamma,
            r.delta == delta,
    {
        let q_add = meta.selector();
        meta.enable_equality(&x_p);
        meta.enable_equality(&y_p);
        meta.enable_equality(&x_qr);
        meta.enable_equality(&y_qr);
        meta.create_gate(GateKind::CompleteAdd);
        Config { q_add, lambda_col, x_p, y_p, x_qr, y_qr, alpha, beta, gamma, delta }
    }

    /// Performs one complete addition: activates its selector on
    /// the row, copies both operands in, computes and places every
    /// witness value, and returns the result point on the next row.
    /// The result follows the full group law: `Q` when `P` carries the
    /// identity marker `x_p = 0` (and symmetrically), `(0, 0)` when the
    /// operands are mutual inverses, else the slope-formula result.
    /// Succeeds exactly when all eleven target cells are free; an
    /// occupied cell surfaces as `Error::CellOccupied`.
    pub fn assign(
        self,
        region: &mut Region,
        params: &FieldParams,
        offset: usize,
        p: ECCPoint,
        q: ECCPoint,
    ) -> (r: Result<ECCPoint, Error>)
        requires
            params.wf(),
            old(region).wf(),
            self.fits(old(region).num_cols as int, old(region).num_selectors as int),
            offset + 1 < old(region).num_rows,
            p.x.value < params.modulus,
            p.y.value < params.modulus,
            q.x.value < params.modulus,
            q.y.value < params.modulus,
        ensures
            final(region).wf(),
            final(region).num_cols == old(region).num_cols,
            final(region).num_rows == old(region).num_rows,
            final(region).num_selectors == old(region).num_selectors,
            r is Ok <==> self.row_cells_free(*old(region), offset as int),
            r is Err ==> r == Err::<ECCPoint, Error>(Error::CellOccupied),
            forall|c: int, row: int|
                0 <= c < old(region).num_cols && 0 <= row < old(region).num_rows
                    && !self.writes_cell(offset as int, c, row) ==> final(region).cell(c, row)
                    == old(region).cell(c, row),
            forall|sidx: int, row: int|
                0 <= sidx < old(region).num_selectors && 0 <= row < old(region).num_rows && !(sidx
                    == self.q_add.index && row == offset) ==> final(region).selector_on(sidx, row)
                    == old(region).selector_on(sidx, row),
            r matches Ok(pt) ==> {
                let pm = params.modulus as int;
                let xp = p.x.value as int;
                let yp = p.y.value as int;
                let xq = q.x.value as int;
                let yq = q.y.value as int;
                let off = offset as int;
                &&& final(region).selector_on(self.q_add.index as int, off)
                &&& final(region).cell(self.x_p.index as int, off) == Some(p.x.value)
                &&& final(region).cell(self.y_p.index as int, off) == Some(p.y.value)
                &&& final(region).cell(self.x_qr.index as int, off) == Some(q.x.value)
                &&& final(region).cell(self.y_qr.index as int, off) == Some(q.y.value)
                &&& final(region).cell(self.alpha.index as int, off) == Some(
                    w_alpha(pm, xp, xq) as u64,
                )
                &&& final(region).cell(self.beta.index as int, off) == Some(w_beta(pm, xp) as u64)
                &&& final(region).cell(self.gamma.index as int, off) == Some(
                    w_gamma(pm, xq) as u64,
                )
                &&& final(region).cell(self.delta.index as int, off) == Some(
                    w_delta(pm, xp, yp, xq, yq) as u64,
                )
                &&& final(region).cell(self.lambda_col.index as int, off) == Some(
                    w_lambda(pm, xp, yp, xq, yq) as u64,
                )
                &&& final(region).cell(self.x_qr.index as int, off + 1) == Some(
                    w_xr(pm, xp, yp, xq, yq) as u64,
                )
                &&& final(region).cell(self.y_qr.index as int, off + 1) == Some(
                    w_yr(pm, xp, yp, xq, yq) as u64,
                )
                &&& pt.x.value == w_xr(pm, xp, yp, xq, yq)
                &&& pt.y.value == w_yr(pm, xp, yp, xq, yq)
                &&& xp == 0 ==> pt.x.value == q.x.value && pt.y.value == q.y.value
                &&& xp != 0 && xq == 0 ==> pt.x.value == p.x.value && pt.y.value == p.y.value
                &&& xp != 0 && xp == xq && fadd(pm, yp, yq) == 0 ==> pt.x.value == 0
                    && pt.y.value == 0
                &&& pt.x.value < params.modulus
                &&& pt.y.value < params.modulus
                &&& pt.x.column == self.x_qr.index
                &&& pt.x.row == off + 1
                &&& pt.y.column == self.y_qr.index
                &&& pt.y.row == off + 1
                &&& final(region).copies@ == old(region).copies@.push(
                    CopyConstraint {
                        from_column: p.x.column,
                        from_row: p.x.row,
                        to_column: self.x_p.index,
                        to_row: offset,
                    },
                ).push(
                    CopyConstraint {
                        from_column: p.y.column,
                        from_row: p.y.row,
                        to_column: self.y_p.index,
                        to_row: offset,
                    },
                ).push(
                    CopyConstraint {
                        from_column: q.x.column,
                        from_row: q.x.row,
                        to_column: self.x_qr.index,
                        to_row: offset,
                    },
                ).push(
                    CopyConstraint {
                        from_column: q.y.column,
                        from_row: q.y.row,
                        to_column: self.y_qr.index,
                        to_row: offset,
                    },
                )
            },
    {
        let ghost pm = params.modulus as int;
        let result = region.enable_selector(&self.q_add, offset);
        match result {
            Ok(_) => (),
            Err(e) => {
                return Err(e);
            },
        }
        let xp_cell = match region.copy_advice(&p.x, &self.x_p, offset) {
            Ok(c) => c,
            Err(e) => {
                return Err(e);
            },
        };
        let yp_cell = match region.copy_advice(&p.y, &self.y_p, offset) {
            Ok(c) => c,
            Err(e) => {
                return Err(e);
            },
        };
        let xq_cell = match region.copy_advice(&q.x, &self.x_qr, offset) {
            Ok(c) => c,
            Err(e) => {
                return Err(e);
            },
        };
        let yq_cell = match region.copy_advice(&q.y, &self.y_qr, offset) {
            Ok(c) => c,
            Err(e) => {
                return Err(e);
            },
        };
        let xp = p.x.value;
        let yp = p.y.value;
        let xq = q.x.value;
        let yq = q.y.value;
        let alpha = f_invert(params, f_sub(params, xq, xp));
        let beta = f_invert(params, xp);
        let gamma = f_invert(params, xq);
        match region.assign_advice(&self.alpha, offset, alpha) {
            Ok(c) => c,
            Err(e) => {
                return Err(e);
            },
        };
        match region.assign_advice(&self.beta, offset, beta) {
            Ok(c) => c,
            Err(e) => {
                return Err(e);
            },
        };
        match region.assign_advice(&self.gamma, offset, gamma) {
            Ok(c) => c,
            Err(e) => {
                return Err(e);
            },
        };
        let delta: u64 = if xq == xp {
            f_invert(params, f_add(params, yp, yq))
        } else {
            0
        };
        match region.assign_advice(&self.delta, offset, delta) {
            Ok(c) => c,
            Err(e) => {
                return Err(e);
            },
        };
        let lambda: u64 = if xq != xp {
            f_mul(params, f_sub(params, yq, yp), alpha)
        } else if yp != 0 {
            let two = 2u64 % params.modulus;
            let three = 3u64 % params.modulus;
            let num = f_mul(params, three, f_mul(params, xp, xp));
            let den_inv = f_invert(params, f_mul(params, two, yp));
            f_mul(params, num, den_inv)
        } else {
            0
        };
        proof {
            lemma_finv_in_range(pm, fsub(pm, xq as int, xp as int));
            lemma_finv_in_range(pm, xp as int);
            lemma_finv_in_range(pm, xq as int);
        }
        match region.assign_advice(&self.lambda_col, offset, lambda) {
            Ok(c) => c,
            Err(e) => {
                return Err(e);
            },
        };
        let x_r: u64;
        let y_r: u64;
        if xp == 0 {
            x_r = xq;
            y_r = yq;
        } else if xq == 0 {
            x_r = xp;
            y_r = yp;
        } else if xp == xq && f_add(params, yp, yq) == 0 {
            x_r = 0;
            y_r = 0;
        } else {
            x_r = f_sub(params, f_sub(params, f_mul(params, lambda, lambda), xp), xq);
            y_r = f_sub(params, f_mul(params, lambda, f_sub(params, xp, x_r)), yp);
        }
        let x_r_cell = match region.assign_advice(&self.x_qr, offset + 1, x_r) {
            Ok(c) => c,
            Err(e) => {
                return Err(e);
            },
        };
        let y_r_cell = match region.assign_advice(&self.y_qr, offset + 1, y_r) {
            Ok(c) => c,
            Err(e) => {
                return Err(e);
            },
        };
        Ok(ECCPoint { x: x_r_cell, y: y_r_cell })
    }
}

/// Re-evaluates all twelve polynomial identities of the complete-addition
/// gate on the given row values: true exactly when every identity is 0.
pub fn eval_complete_gate(
    params: &FieldParams,
    xp: u64,
    yp: u64,
    xq: u64,
    yq: u64,
    xr: u64,
    yr: u64,
    l: u64,
    alpha: u64,
    beta: u64,
    gamma: u64,
    delta: u64,
) -> (r: bool)
    requires
        params.modulus > 2,
        xp < params.modulus,
        yp < params.modulus,
        xq < params.modulus,
        yq < params.modulus,
        xr < params.modulus,
        yr < params.modulus,
        l < params.modulus,
        alpha < params.modulus,
        beta < params.modulus,
        gamma < params.modulus,
        delta < params.modulus,
    ensures
        r == complete_gate_sat(
            params.modulus as int,
            xp as int,
            yp as int,
            xq as int,
            yq as int,
            xr as int,
            yr as int,
            l as int,
            alpha as int,
            beta as int,
            gamma as int,
            delta as int,
        ),
        r == crate::ecc::gate_row_sat(
            GateKind::CompleteAdd,
            params.modulus as int,
            params.b as int,
            0,
            seq![xp, yp, xq, yq, xr, yr, l, alpha, beta, gamma, delta],
        ),
{
    let two = 2u64 % params.modulus;
    let three = 3u64 % params.modulus;
    let d = f_sub(params, xq, xp);
    let e = f_sub(params, yq, yp);
    let s = f_add(params, yq, yp);
    let if_alpha = f_mul(params, d, alpha);
    let if_beta = f_mul(params, xp, beta);
    let if_gamma = f_mul(params, xq, gamma);
    let if_delta = f_mul(params, s, delta);
    let xpxq = f_mul(params, xp, xq);
    let x_inner = f_sub(params, f_sub(params, f_sub(params, f_mul(params, l, l), xp), xq), xr);
    let y_inner = f_sub(params, f_sub(params, f_mul(params, l, f_sub(params, xp, xr)), yp), yr);
    let p1a = f_mul(params, d, f_sub(params, f_mul(params, d, l), e));
    let p2a = f_mul(
        params,
        f_sub(params, 1, if_alpha),
        f_sub(params, f_mul(params, f_mul(params, two, yp), l), f_mul(params, three, f_mul(params, xp, xp))),
    );
    let p3a = f_mul(params, f_mul(params, xpxq, d), x_inner);
    let p3b = f_mul(params, f_mul(params, xpxq, d), y_inner);
    let p3c = f_mul(params, f_mul(params, xpxq, s), x_inner);
    let p3d = f_mul(params, f_mul(params, xpxq, s), y_inner);
    let p4a = f_mul(params, f_sub(params, 1, if_beta), f_sub(params, xr, xq));
    let p4b = f_mul(params, f_sub(params, 1, if_beta), f_sub(params, yr, yq));
    let p5a = f_mul(params, f_sub(params, 1, if_gamma), f_sub(params, xr, xp));
    let p5b = f_mul(params, f_sub(params, 1, if_gamma), f_sub(params, yr, yp));
    let p6a = f_mul(params, f_sub(params, f_sub(params, 1, if_alpha), if_delta), xr);
    let p6b = f_mul(params, f_sub(params, f_sub(params, 1, if_alpha), if_delta), yr);
    p1a == 0 && p2a == 0 && p3a == 0 && p3b == 0 && p3c == 0 && p3d == 0 && p4a == 0 && p4b == 0
        && p5a == 0 && p5b == 0 && p6a == 0 && p6b == 0
}

} // verus!
