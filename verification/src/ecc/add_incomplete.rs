//! Incomplete point addition: the cheap generic-case gate. It registers
//! only two polynomial identities and handles neither doubling, nor
//! identity operands, nor mutual inverses. The caller must guarantee
//! `x_p != x_q`; a violation would yield an unsound constraint row, not
//! a runtime error, so the obligation is stated here as a precondition.

use crate::backend::{
    AdviceColumn, ConstraintSystem, CopyConstraint, Error, GateKind, Region, Selector,
};
use crate::ecc::add::{secant_slope, secant_xr, secant_yr, w_lambda, w_xr, w_yr};
use crate::ecc::ECCPoint;
use crate::field::{
    f_add, f_invert, f_mul, f_sub, fadd, finv, fmul, fsub, is_prime, lemma_add_congruent,
    lemma_finv_in_range, lemma_finv_property, lemma_fmul_zero_left, lemma_fmul_zero_right,
    lemma_mul_congruent, lemma_mul_inv_cancel, lemma_neg_congruent, lemma_no_zero_divisors,
    lemma_residue_sub_cancel, lemma_sub_congruent, lemma_sub_congruent2, FieldParams,
};
use vstd::arithmetic::div_mod::{
    lemma_mod_bound, lemma_mod_multiples_basic, lemma_mod_twice, lemma_small_mod,
    lemma_sub_mod_noop,
};
use vstd::prelude::*;

verus! {

// ---------------------------------------------------------------------
// Witness values computed by `assign`.
// ---------------------------------------------------------------------
/// The secant slope `(y_q - y_p) / (x_q - x_p)`.
pub open spec fn iw_lambda(p: int, xp: int, yp: int, xq: int, yq: int) -> int {
    fmul(p, fsub(p, yq, yp), finv(p, fsub(p, xq, xp)))
}

/// The result's x-coordinate `slope^2 - x_q - x_p`.
pub open spec fn iw_xr(p: int, xp: int, yp: int, xq: int, yq: int) -> int {
    let t = iw_lambda(p, xp, yp, xq, yq);
    fsub(p, fsub(p, fmul(p, t, t), xq), xp)
}

/// The result's y-coordinate `slope (x_q - x_r) - y_q`.
pub open spec fn iw_yr(p: int, xp: int, yp: int, xq: int, yq: int) -> int {
    let t = iw_lambda(p, xp, yp, xq, yq);
    let xr = iw_xr(p, xp, yp, xq, yq);
    fsub(p, fmul(p, t, fsub(p, xq, xr)), yq)
}

// ---------------------------------------------------------------------
// The two polynomial identities.
// ---------------------------------------------------------------------
/// `(x_r + x_q + x_p)(x_p - x_q)^2 - (y_p - y_q)^2`.
pub open spec fn poly_p1(p: int, xp: int, yp: int, xq: int, yq: int, xr: int) -> int {
    fsub(
        p,
        fmul(
            p,
            fadd(p, fadd(p, xr, xq), xp),
            fmul(p, fsub(p, xp, xq), fsub(p, xp, xq)),
        ),
        fmul(p, fsub(p, yp, yq), fsub(p, yp, yq)),
    )
}

/// `(y_r + y_q)(x_p - x_q) - (y_p - y_q)(x_q - x_r)`.
pub open spec fn poly_p2(p: int, xp: int, yp: int, xq: int, yq: int, xr: int, yr: int) -> int {
    fsub(
        p,
        fmul(p, fadd(p, yr, yq), fsub(p, xp, xq)),
        fmul(p, fsub(p, yp, yq), fsub(p, xq, xr)),
    )
}

/// Both identities of the incomplete-addition gate hold on a row.
pub open spec fn incomplete_gate_sat(
    p: int,
    xp: int,
    yp: int,
    xq: int,
    yq: int,
    xr: int,
    yr: int,
) -> bool {
    &&& poly_p1(p, xp, yp, xq, yq, xr) == 0
    &&& poly_p2(p, xp, yp, xq, yq, xr, yr) == 0
}

/// Round-trip soundness of the incomplete-addition chip: whenever the
/// caller's obligation `x_p != x_q` holds, the witness values that
/// `assign` computes satisfy both registered polynomial identities.
pub proof fn lemma_witness_meets_incomplete_gate(p: int, xp: int, yp: int, xq: int, yq: int)
    requires
        is_prime(p),
        p > 2,
        0 <= xp < p,
        0 <= yp < p,
        0 <= xq < p,
        0 <= yq < p,
        xp != xq,
    ensures
        incomplete_gate_sat(
            p,
            xp,
            yp,
            xq,
            yq,
            iw_xr(p, xp, yp, xq, yq),
            iw_yr(p, xp, yp, xq, yq),
        ),
{
    let t = iw_lambda(p, xp, yp, xq, yq);
    let xr = iw_xr(p, xp, yp, xq, yq);
    let yr = iw_yr(p, xp, yp, xq, yq);
    let d = fsub(p, xq, xp);
    let e = fsub(p, yq, yp);
    let dm = fsub(p, xp, xq);
    let em = fsub(p, yp, yq);
    let t2 = fmul(p, t, t);
    lemma_mod_multiples_basic(0, p);
    lemma_mod_bound(xq - xp, p);
    lemma_mod_twice(xq - xp, p);
    lemma_mod_bound(yq - yp, p);
    lemma_mod_twice(yq - yp, p);
    lemma_mod_bound(xp - xq, p);
    lemma_mod_twice(xp - xq, p);
    lemma_mod_bound(yp - yq, p);
    lemma_mod_twice(yp - yq, p);
    lemma_mod_twice(t * t, p);
    lemma_mod_twice((t2 - xq) % p - xp, p);
    lemma_mod_twice(t2 - xq, p);
    // The secant slope satisfies t (x_q - x_p) = y_q - y_p, hence also
    // t (x_p - x_q) = y_p - y_q.
    lemma_residue_sub_cancel(p, xq, xp);
    assert(d != 0);
    lemma_finv_property(p, d);
    lemma_mul_inv_cancel(p, e, d);
    assert((d * t) % p == e);
    lemma_mul_congruent(p, xq - xp, d, t, t);
    assert(((xq - xp) * t) % p == e % p);
    assert((xp - xq) * t == -((xq - xp) * t)) by (nonlinear_arith);
    lemma_neg_congruent(p, (xq - xp) * t, yq - yp);
    assert((-(yq - yp)) % p == (yp - yq) % p);
    assert(((xp - xq) * t) % p == (yp - yq) % p);
    lemma_mul_congruent(p, dm, xp - xq, t, t);
    assert((dm * t) % p == em % p);
    // p1: (x_r + x_q + x_p) is congruent to t^2, and (t dm)^2 to em^2.
    assert(xr == (t2 - xq - xp) % p) by {
        lemma_sub_mod_noop(t2 - xq, xp, p);
        lemma_small_mod(xp as nat, p as nat);
    }
    lemma_add_congruent(p, xr, t2 - xq - xp, xq, xq);
    assert(fadd(p, xr, xq) == (t2 - xp) % p);
    lemma_add_congruent(p, (t2 - xp), (t2 - xp), xp, xp);
    lemma_mod_twice(t2 - xp, p);
    lemma_add_congruent(p, fadd(p, xr, xq), t2 - xp, xp, xp);
    assert(fadd(p, fadd(p, xr, xq), xp) == t2 % p);
    let aa = fadd(p, fadd(p, xr, xq), xp);
    let dsq = fmul(p, dm, dm);
    lemma_mod_twice((xr + xq) % p + xp, p);
    lemma_mod_twice(dm * dm, p);
    lemma_mul_congruent(p, aa, t * t, dsq, dm * dm);
    assert((t * t) * (dm * dm) == (t * dm) * (dm * t)) by (nonlinear_arith);
    lemma_mul_congruent(p, t * dm, em, dm * t, em);
    assert(t * dm == dm * t) by (nonlinear_arith);
    lemma_small_mod(em as nat, p as nat);
    assert((aa * dsq) % p == (em * em) % p);
    lemma_mod_twice(em * em, p);
    assert(fmul(p, aa, dsq) == fmul(p, em, em));
    assert(poly_p1(p, xp, yp, xq, yq, xr) == 0);
    // p2: (y_r + y_q) is congruent to t (x_q - x_r), and the two sides
    // agree after regrouping the products.
    let m = fmul(p, t, fsub(p, xq, xr));
    lemma_mod_twice(t * ((xq - xr) % p), p);
    lemma_mod_bound(xq - xr, p);
    lemma_mod_twice(xq - xr, p);
    lemma_mul_congruent(p, t, t, (xq - xr) % p, xq - xr);
    assert(m == (t * (xq - xr)) % p);
    assert(yr == (m - yq) % p);
    lemma_small_mod(yq as nat, p as nat);
    lemma_mod_twice(m - yq, p);
    lemma_add_congruent(p, yr, m - yq, yq, yq);
    assert(fadd(p, yr, yq) == m % p);
    lemma_mod_twice(t * ((xq - xr) % p), p);
    let lhs = fmul(p, fadd(p, yr, yq), dm);
    lemma_mod_twice((yr + yq) % p, p);
    lemma_mul_congruent(p, fadd(p, yr, yq), t * (xq - xr), dm, xp - xq);
    assert(lhs == ((t * (xq - xr)) * (xp - xq)) % p);
    assert((t * (xq - xr)) * (xp - xq) == ((xp - xq) * t) * (xq - xr)) by (nonlinear_arith);
    lemma_mul_congruent(p, (xp - xq) * t, yp - yq, xq - xr, xq - xr);
    let rhs = fmul(p, em, fsub(p, xq, xr));
    lemma_mul_congruent(p, em, yp - yq, fsub(p, xq, xr), xq - xr);
    assert(lhs == rhs);
    assert(poly_p2(p, xp, yp, xq, yq, xr, yr) == 0);
}


/// The documented boundary of the incomplete chip: on a row whose two
/// operands share an x-coordinate, the registered identities constrain
/// the result not at all when `y_p = y_q` — every candidate `(x_r, y_r)`
/// satisfies them — and no candidate satisfies them when `y_p != y_q`.
/// A violated caller obligation therefore never surfaces as an error;
/// it leaves the row silently unsound.
pub proof fn lemma_equal_x_row_unconstrained(
    p: int,
    xp: int,
    yp: int,
    xq: int,
    yq: int,
    xr: int,
    yr: int,
)
    requires
        is_prime(p),
        p > 2,
        0 <= xp < p,
        0 <= yp < p,
        0 <= xq < p,
        0 <= yq < p,
        0 <= xr < p,
        0 <= yr < p,
        xp == xq,
    ensures
        incomplete_gate_sat(p, xp, yp, xq, yq, xr, yr) <==> yp == yq,
{
    let dm = fsub(p, xp, xq);
    let em = fsub(p, yp, yq);
    let aa = fadd(p, fadd(p, xr, xq), xp);
    lemma_mod_multiples_basic(0, p);
    assert(dm == 0);
    lemma_fmul_zero_left(p, 0);
    assert(fmul(p, dm, dm) == 0);
    lemma_fmul_zero_right(p, aa);
    assert(fmul(p, aa, fmul(p, dm, dm)) == 0);
    lemma_fmul_zero_right(p, fadd(p, yr, yq));
    assert(fmul(p, fadd(p, yr, yq), dm) == 0);
    lemma_mod_bound(yp - yq, p);
    lemma_mod_twice(yp - yq, p);
    if yp == yq {
        assert(em == 0);
        lemma_fmul_zero_left(p, em);
        assert(fmul(p, em, em) == 0);
        lemma_fmul_zero_left(p, fsub(p, xq, xr));
        assert(fmul(p, em, fsub(p, xq, xr)) == 0);
        assert(fsub(p, 0, 0) == 0);
        assert(poly_p1(p, xp, yp, xq, yq, xr) == 0);
        assert(poly_p2(p, xp, yp, xq, yq, xr, yr) == 0);
    } else {
        lemma_residue_sub_cancel(p, yp, yq);
        assert(em != 0);
        let m = fmul(p, em, em);
        lemma_no_zero_divisors(p, em, em);
        assert(m != 0);
        lemma_mod_bound(em * em, p);
        lemma_residue_sub_cancel(p, 0, m);
        assert(fsub(p, 0, m) != 0);
        assert(poly_p1(p, xp, yp, xq, yq, xr) != 0);
    }
}

/// Agreement of the two addition chips with the textbook secant law:
/// on every pair of non-identity operands with distinct x-coordinates,
/// the incomplete and the complete chip compute the same slope and the
/// same result point, and that result is the secant-line group-law
/// result.
pub proof fn lemma_incomplete_agrees_with_complete(p: int, xp: int, yp: int, xq: int, yq: int)
    requires
        is_prime(p),
        p > 2,
        0 < xp < p,
        0 <= yp < p,
        0 < xq < p,
        0 <= yq < p,
        xp != xq,
    ensures
        iw_lambda(p, xp, yp, xq, yq) == w_lambda(p, xp, yp, xq, yq),
        iw_lambda(p, xp, yp, xq, yq) == secant_slope(p, xp, yp, xq, yq),
        iw_xr(p, xp, yp, xq, yq) == w_xr(p, xp, yp, xq, yq),
        iw_xr(p, xp, yp, xq, yq) == secant_xr(p, xp, yp, xq, yq),
        iw_yr(p, xp, yp, xq, yq) == w_yr(p, xp, yp, xq, yq),
        iw_yr(p, xp, yp, xq, yq) == secant_yr(p, xp, yp, xq, yq),
{
    let t = iw_lambda(p, xp, yp, xq, yq);
    let t2 = fmul(p, t, t);
    let d = fsub(p, xq, xp);
    let e = fsub(p, yq, yp);
    lemma_mod_multiples_basic(0, p);
    lemma_mod_bound(xq - xp, p);
    lemma_mod_twice(xq - xp, p);
    lemma_mod_bound(yq - yp, p);
    lemma_mod_twice(yq - yp, p);
    lemma_small_mod(xp as nat, p as nat);
    lemma_small_mod(xq as nat, p as nat);
    lemma_small_mod(yp as nat, p as nat);
    lemma_small_mod(yq as nat, p as nat);
    lemma_mod_twice(t * t, p);
    // Both x-coordinates reduce to (t^2 - x_p - x_q) mod p.
    assert(iw_xr(p, xp, yp, xq, yq) == (t2 - xq - xp) % p) by {
        lemma_sub_mod_noop(t2 - xq, xp, p);
        lemma_mod_twice(t2 - xq, p);
    }
    assert(w_xr(p, xp, yp, xq, yq) == (t2 - xp - xq) % p) by {
        lemma_sub_mod_noop(t2 - xp, xq, p);
        lemma_mod_twice(t2 - xp, p);
    }
    assert(secant_xr(p, xp, yp, xq, yq) == w_xr(p, xp, yp, xq, yq));
    let xr = iw_xr(p, xp, yp, xq, yq);
    // The secant slope satisfies t (x_p - x_q) = y_p - y_q.
    lemma_residue_sub_cancel(p, xq, xp);
    assert(d != 0);
    lemma_finv_property(p, d);
    lemma_mul_inv_cancel(p, e, d);
    assert((d * t) % p == e);
    lemma_mul_congruent(p, xq - xp, d, t, t);
    assert((xp - xq) * t == -((xq - xp) * t)) by (nonlinear_arith);
    lemma_neg_congruent(p, (xq - xp) * t, yq - yp);
    assert(((xp - xq) * t) % p == (yp - yq) % p);
    // Both y-coordinates reduce to congruent integer forms.
    lemma_mod_bound(xq - xr, p);
    lemma_mod_twice(xq - xr, p);
    lemma_mod_bound(xp - xr, p);
    lemma_mod_twice(xp - xr, p);
    lemma_mul_congruent(p, t, t, (xq - xr) % p, xq - xr);
    lemma_mul_congruent(p, t, t, (xp - xr) % p, xp - xr);
    lemma_mod_twice(t * ((xq - xr) % p), p);
    lemma_mod_twice(t * ((xp - xr) % p), p);
    lemma_sub_congruent2(p, fmul(p, t, fsub(p, xq, xr)), t * (xq - xr), yq, yq);
    lemma_sub_congruent2(p, fmul(p, t, fsub(p, xp, xr)), t * (xp - xr), yp, yp);
    assert(iw_yr(p, xp, yp, xq, yq) == (t * (xq - xr) - yq) % p);
    assert(w_yr(p, xp, yp, xq, yq) == (t * (xp - xr) - yp) % p);
    assert((t * (xp - xr) - yp) - (t * (xq - xr) - yq) == (xp - xq) * t - (yp - yq))
        by (nonlinear_arith);
    lemma_sub_congruent(p, (xp - xq) * t, yp - yq);
    assert(((xp - xq) * t - (yp - yq)) % p == 0);
    lemma_sub_congruent(p, t * (xp - xr) - yp, t * (xq - xr) - yq);
    assert(secant_yr(p, xp, yp, xq, yq) == w_yr(p, xp, yp, xq, yq));
}

// ---------------------------------------------------------------------
// The chip itself.
// ---------------------------------------------------------------------
/// The incomplete-addition chip's configuration: its selector and the
/// four point wires.
pub struct Config {
    pub q_add_incomplete: Selector,
    pub x_p: AdviceColumn,
    pub y_p: AdviceColumn,
    pub x_qr: AdviceColumn,
    pub y_qr: AdviceColumn,
}

impl Config {
    /// The four wires are pairwise distinct and, with the selector, lie
    /// inside the given region dimensions.
    pub open spec fn fits(self, num_cols: int, num_selectors: int) -> bool {
        &&& self.x_p.index != self.y_p.index
        &&& self.x_p.index != self.x_qr.index
        &&& self.x_p.index != self.y_qr.index
        &&& self.y_p.index != self.x_qr.index
        &&& self.y_p.index != self.y_qr.index
        &&& self.x_qr.index != self.y_qr.index
        &&& self.x_p.index < num_cols
        &&& self.y_p.index < num_cols
        &&& self.x_qr.index < num_cols
        &&& self.y_qr.index < num_cols
        &&& self.q_add_incomplete.index < num_selectors
    }

    /// The six cells that one invocation writes: the four point wires on
    /// the active row and the result pair on the next row.
    pub open spec fn row_cells_free(self, reg: Region, off: int) -> bool {
        &&& reg.cell(self.x_p.index as int, off) is None
        &&& reg.cell(self.y_p.index as int, off) is None
        &&& reg.cell(self.x_qr.index as int, off) is None
        &&& reg.cell(self.y_qr.index as int, off) is None
        &&& reg.cell(self.x_qr.index as int, off + 1) is None
        &&& reg.cell(self.y_qr.index as int, off + 1) is None
    }

    /// Whether `(c, row)` is one of the cells this invocation writes.
    pub open spec fn writes_cell(self, off: int, c: int, row: int) -> bool {
        ||| (row == off && (c == self.x_p.index || c == self.y_p.index || c == self.x_qr.index
            || c == self.y_qr.index))
        ||| (row == off + 1 && (c == self.x_qr.index || c == self.y_qr.index))
    }

    /// Registers the incomplete-addition gate: allocates its selector,
    /// declares the four point wires equality-constrainable, and records
    /// its two polynomial identities under its kind —
    /// `GateKind::IncompleteAdd` stands for the row predicate
    /// `crate::ecc::gate_row_sat`.
    pub fn configure(
        meta: &mut ConstraintSystem,
        x_p: AdviceColumn,
        y_p: AdviceColumn,
        x_qr: AdviceColumn,
        y_qr: AdviceColumn,
    ) -> (r: Config)
        requires
            old(meta).wf(),
            old(meta).num_selectors < usize::MAX,
            x_p.index < old(meta).num_advice,
            y_p.index < old(meta).num_advice,
            x_qr.index < old(meta).num_advice,
            y_qr.index < old(meta).num_advice,
        ensures
            final(meta).wf(),
            final(meta).num_advice == old(meta).num_advice,
            final(meta).num_selectors == old(meta).num_selectors + 1,
            final(meta).gates@ == old(meta).gates@.push(GateKind::IncompleteAdd),
            forall|c: int|
                0 <= c < old(meta).num_advice ==> final(meta).equality@[c] == (
                old(meta).equality@[c] || c == x_p.index || c == y_p.index || c == x_qr.index
                    || c == y_qr.index),
            r.q_add_incomplete.index == old(meta).num_selectors,
            r.x_p == x_p,
            r.y_p == y_p,
            r.x_qr == x_qr,
            r.y_qr == y_qr,
    {
        let q_add_incomplete = meta.selector();
        meta.enable_equality(&x_p);
        meta.enable_equality(&y_p);
        meta.enable_equality(&x_qr);
        meta.enable_equality(&y_qr);
        meta.create_gate(GateKind::IncompleteAdd);
        Config { q_add_incomplete, x_p, y_p, x_qr, y_qr }
    }

    /// Performs one generic-case addition. The caller must guarantee
    /// `x_p != x_q` (distinct points that are not mutual inverses); the
    /// chip computes the secant slope and the result with no case
    /// analysis. Succeeds exactly when all six target cells are free.
    pub fn assign(
        self,
        region: &mut Region,
        params: &FieldParams,
        offset: usize,
        p: ECCPoint,
        q: ECCPoint,
    ) -> (r: Result<ECCPoint, Error>)
        requires
            params.wf(),
            old(region).wf(),
            self.fits(old(region).num_cols as int, old(region).num_selectors as int),
            offset + 1 < old(region).num_rows,
            p.x.value < params.modulus,
            p.y.value < params.modulus,
            q.x.value < params.modulus,
            q.y.value < params.modulus,
            p.x.value != q.x.value,
        ensures
            final(region).wf(),
            final(region).num_cols == old(region).num_cols,
            final(region).num_rows == old(region).num_rows,
            final(region).num_selectors == old(region).num_selectors,
            r is Ok <==> self.row_cells_free(*old(region), offset as int),
            r is Err ==> r == Err::<ECCPoint, Error>(Error::CellOccupied),
            forall|c: int, row: int|
                0 <= c < old(region).num_cols && 0 <= row < old(region).num_rows
                    && !self.writes_cell(offset as int, c, row) ==> final(region).cell(c, row)
                    == old(region).cell(c, row),
            forall|sidx: int, row: int|
                0 <= sidx < old(region).num_selectors && 0 <= row < old(region).num_rows && !(sidx
                    == self.q_add_incomplete.index && row == offset) ==> final(region).selector_on(
                    sidx,
                    row,
                ) == old(region).selector_on(sidx, row),
            r matches Ok(pt) ==> {
                let pm = params.modulus as int;
                let xp = p.x.value as int;
                let yp = p.y.value as int;
                let xq = q.x.value as int;
                let yq = q.y.value as int;
                let off = offset as int;
                &&& final(region).selector_on(self.q_add_incomplete.index as int, off)
                &&& final(region).cell(self.x_p.index as int, off) == Some(p.x.value)
                &&& final(region).cell(self.y_p.index as int, off) == Some(p.y.value)
                &&& final(region).cell(self.x_qr.index as int, off) == Some(q.x.value)
                &&& final(region).cell(self.y_qr.index as int, off) == Some(q.y.value)
                &&& final(region).cell(self.x_qr.index as int, off + 1) == Some(
                    iw_xr(pm, xp, yp, xq, yq) as u64,
                )
                &&& final(region).cell(self.y_qr.index as int, off + 1) == Some(
                    iw_yr(pm, xp, yp, xq, yq) as u64,
                )
                &&& pt.x.value == iw_xr(pm, xp, yp, xq, yq)
                &&& pt.y.value == iw_yr(pm, xp, yp, xq, yq)
                &&& pt.x.value < params.modulus
                &&& pt.y.value < params.modulus
                &&& pt.x.column == self.x_qr.index
                &&& pt.x.row == off + 1
                &&& pt.y.column == self.y_qr.index
                &&& pt.y.row == off + 1
                &&& final(region).copies@ == old(region).copies@.push(
                    CopyConstraint {
                        from_column: p.x.column,
                        from_row: p.x.row,
                        to_column: self.x_p.index,
                        to_row: offset,
                    },
                ).push(
                    CopyConstraint {
                        from_column: p.y.column,
                        from_row: p.y.row,
                        to_column: self.y_p.index,
                        to_row: offset,
                    },
                ).push(
                    CopyConstraint {
                        from_column: q.x.column,
                        from_row: q.x.row,
                        to_column: self.x_qr.index,
                        to_row: offset,
                    },
                ).push(
                    CopyConstraint {
                        from_column: q.y.column,
                        from_row: q.y.row,
                        to_column: self.y_qr.index,
                        to_row: offset,
                    },
                )
            },
    {
        let ghost pm = params.modulus as int;
        let result = region.enable_selector(&self.q_add_incomplete, offset);
        match result {
            Ok(_) => (),
            Err(e) => {
                return Err(e);
            },
        }
        match region.copy_advice(&p.x, &self.x_p, offset) {
            Ok(c) => c,
            Err(e) => {
                return Err(e);
            },
        };
        match region.copy_advice(&p.y, &self.y_p, offset) {
            Ok(c) => c,
            Err(e) => {
                return Err(e);
            },
        };
        match region.copy_advice(&q.x, &self.x_qr, offset) {
            Ok(c) => c,
            Err(e) => {
                return Err(e);
            },
        };
        match region.copy_advice(&q.y, &self.y_qr, offset) {
            Ok(c) => c,
            Err(e) => {
                return Err(e);
            },
        };
        let xp = p.x.value;
        let yp = p.y.value;
        let xq = q.x.value;
        let yq = q.y.value;
        let tangent = f_mul(params, f_sub(params, yq, yp), f_invert(params, f_sub(params, xq, xp)));
        let x_r = f_sub(params, f_sub(params, f_mul(params, tangent, tangent), xq), xp);
        let y_r = f_sub(params, f_mul(params, tangent, f_sub(params, xq, x_r)), yq);
        proof {
            lemma_finv_in_range(pm, fsub(pm, xq as int, xp as int));
        }
        let x_r_cell = match region.assign_advice(&self.x_qr, offset + 1, x_r) {
            Ok(c) => c,
            Err(e) => {
                return Err(e);
            },
        };
        let y_r_cell = match region.assign_advice(&self.y_qr, offset + 1, y_r) {
            Ok(c) => c,
            Err(e) => {
                return Err(e);
            },
        };
        Ok(ECCPoint { x: x_r_cell, y: y_r_cell })
    }
}

/// Re-evaluates both polynomial identities of the incomplete-addition
/// gate on the given row values: true exactly when both are 0.
pub fn eval_incomplete_gate(
    params: &FieldParams,
    xp: u64,
    yp: u64,
    xq: u64,
    yq: u64,
    xr: u64,
    yr: u64,
) -> (r: bool)
    requires
        params.modulus > 2,
        xp < params.modulus,
        yp < params.modulus,
        xq < params.modulus,
        yq < params.modulus,
        xr < params.modulus,
        yr < params.modulus,
    ensures
        r == incomplete_gate_sat(
            params.modulus as int,
            xp as int,
            yp as int,
            xq as int,
            yq as int,
            xr as int,
            yr as int,
        ),
        r == crate::ecc::gate_row_sat(
            GateKind::IncompleteAdd,
            params.modulus as int,
            params.b as int,
            0,
            seq![xp, yp, xq, yq, xr, yr],
        ),
{
    let dm = f_sub(params, xp, xq);
    let em = f_sub(params, yp, yq);
    let p1 = f_sub(
        params,
        f_mul(params, f_add(params, f_add(params, xr, xq), xp), f_mul(params, dm, dm)),
        f_mul(params, em, em),
    );
    let p2 = f_sub(
        params,
        f_mul(params, f_add(params, yr, yq), dm),
        f_mul(params, em, f_sub(params, xq, xr)),
    );
    p1 == 0 && p2 == 0
}

} // verus!
