//! Elliptic-curve chips: point representation and the addition and
//! fixed-base multiplication gadgets.

pub mod add;
pub mod add_incomplete;
pub mod mul_fixed;

use crate::backend::{AssignedCell, GateKind};
use vstd::arithmetic::power::pow;
use vstd::prelude::*;

verus! {

/// An affine curve point `(x, y)`, held as two assigned circuit values.
/// A point does not own wire storage: it references the cells that the
/// region that produced it wrote, and is handed from one chip's output
/// to the next chip's input through copy constraints.
pub struct ECCPoint {
    pub x: AssignedCell,
    pub y: AssignedCell,
}

/// The row predicate that each registered gate kind stands for, over
/// the wire values of one active row. Wire layouts:
/// - `CompleteAdd`:
///   `[x_p, y_p, x_q, y_q, x_r, y_r, lambda, alpha, beta, gamma, delta]`;
/// - `IncompleteAdd`: `[x_p, y_p, x_q, y_q, x_r, y_r]`;
/// - `RunningSum` with window width `w`:
///   `[z_curr, z_next, x_p, y_p, u, z]` followed by the `2^w` Lagrange
///   coefficients (`w` and the curve constant `b` are ignored by the
///   addition kinds).
pub open spec fn gate_row_sat(kind: GateKind, p: int, b: int, w: nat, wires: Seq<u64>) -> bool {
    match kind {
        GateKind::CompleteAdd => wires.len() == 11 && add::complete_gate_sat(
            p,
            wires[0] as int,
            wires[1] as int,
            wires[2] as int,
            wires[3] as int,
            wires[4] as int,
            wires[5] as int,
            wires[6] as int,
            wires[7] as int,
            wires[8] as int,
            wires[9] as int,
            wires[10] as int,
        ),
        GateKind::IncompleteAdd => wires.len() == 6 && add_incomplete::incomplete_gate_sat(
            p,
            wires[0] as int,
            wires[1] as int,
            wires[2] as int,
            wires[3] as int,
            wires[4] as int,
            wires[5] as int,
        ),
        GateKind::RunningSum => wires.len() == 6 + pow(2, w) && {
            let word = mul_fixed::word_of(p, wires[0] as int, wires[1] as int, w);
            &&& mul_fixed::sum_check_poly(p, word, (pow(2, w) - 1) as nat) == 0
            &&& mul_fixed::x_check_poly(p, wires.skip(6), word, wires[2] as int) == 0
            &&& mul_fixed::y_check_poly(p, wires[3] as int, wires[5] as int, wires[4] as int) == 0
            &&& mul_fixed::on_curve_poly(p, b, wires[2] as int, wires[3] as int) == 0
        },
    }
}

} // verus!
