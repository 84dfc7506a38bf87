use ecc_chips::backend::{AdviceColumn, AssignedCell, ConstraintSystem, Error, GateKind, Region};
use ecc_chips::ecc::add;
use ecc_chips::ecc::add::eval_complete_gate;
use ecc_chips::ecc::add_incomplete;
use ecc_chips::ecc::add_incomplete::eval_incomplete_gate;
use ecc_chips::ecc::ECCPoint;
use ecc_chips::field::FieldParams;

fn params() -> FieldParams {
    FieldParams { modulus: 101, b: 44 }
}

fn point(x: u64, y: u64) -> ECCPoint {
    ECCPoint {
        x: AssignedCell { value: x, column: 0, row: 0 },
        y: AssignedCell { value: y, column: 0, row: 0 },
    }
}

fn complete_config(meta: &mut ConstraintSystem) -> add::Config {
    add::Config::configure(
        meta,
        AdviceColumn { index: 0 },
        AdviceColumn { index: 1 },
        AdviceColumn { index: 2 },
        AdviceColumn { index: 3 },
        AdviceColumn { index: 4 },
        AdviceColumn { index: 5 },
        AdviceColumn { index: 6 },
        AdviceColumn { index: 7 },
        AdviceColumn { index: 8 },
    )
}

fn incomplete_config(meta: &mut ConstraintSystem) -> add_incomplete::Config {
    add_incomplete::Config::configure(
        meta,
        AdviceColumn { index: 0 },
        AdviceColumn { index: 1 },
        AdviceColumn { index: 2 },
        AdviceColumn { index: 3 },
    )
}

#[test]
fn configure_registers_the_complete_add_gate() {
    let mut meta = ConstraintSystem::new(9);
    let cfg = complete_config(&mut meta);
    assert_eq!(cfg.q_add.index, 0);
    assert_eq!(meta.num_selectors, 1);
    assert_eq!(meta.gates.len(), 1);
    assert!(matches!(meta.gates[0], GateKind::CompleteAdd));
    // equality is enabled exactly on the four point wires
    assert!(!meta.equality[0]);
    assert!(meta.equality[1]);
    assert!(meta.equality[2]);
    assert!(meta.equality[3]);
    assert!(meta.equality[4]);
    assert!(!meta.equality[5]);
}

#[test]
fn complete_assign_generic_addition() {
    let mut meta = ConstraintSystem::new(9);
    let cfg = complete_config(&mut meta);
    let mut region = Region::new(9, 4, 1);
    let pm = params();
    let r = cfg.assign(&mut region, &pm, 0, point(2, 5), point(3, 9)).unwrap();
    assert_eq!(r.x.value, 11);
    assert_eq!(r.y.value, 60);
    assert_eq!(r.x.column, 3);
    assert_eq!(r.x.row, 1);
    assert_eq!(r.y.column, 4);
    assert_eq!(r.y.row, 1);
    // the witness row: lambda, inputs, indicators
    let rows = 4;
    assert_eq!(region.cells[0 * rows + 0], Some(4)); // lambda
    assert_eq!(region.cells[1 * rows + 0], Some(2)); // x_p
    assert_eq!(region.cells[2 * rows + 0], Some(5)); // y_p
    assert_eq!(region.cells[3 * rows + 0], Some(3)); // x_q
    assert_eq!(region.cells[4 * rows + 0], Some(9)); // y_q
    assert_eq!(region.cells[5 * rows + 0], Some(1)); // alpha
    assert_eq!(region.cells[6 * rows + 0], Some(51)); // beta
    assert_eq!(region.cells[7 * rows + 0], Some(34)); // gamma
    assert_eq!(region.cells[8 * rows + 0], Some(0)); // delta
    assert_eq!(region.cells[3 * rows + 1], Some(11)); // x_r
    assert_eq!(region.cells[4 * rows + 1], Some(60)); // y_r
    assert!(region.selectors[0]);
    assert_eq!(region.copies.len(), 4);
    assert_eq!(region.copies[0].to_column, 1);
    assert_eq!(region.copies[0].to_row, 0);
}

#[test]
fn complete_assign_witness_satisfies_every_identity() {
    let mut meta = ConstraintSystem::new(9);
    let cfg = complete_config(&mut meta);
    let mut region = Region::new(9, 4, 1);
    let pm = params();
    cfg.assign(&mut region, &pm, 0, point(2, 5), point(3, 9)).unwrap();
    let rows = 4;
    let get = |c: usize, r: usize| region.cells[c * rows + r].unwrap();
    assert!(eval_complete_gate(
        &pm,
        get(1, 0),
        get(2, 0),
        get(3, 0),
        get(4, 0),
        get(3, 1),
        get(4, 1),
        get(0, 0),
        get(5, 0),
        get(6, 0),
        get(7, 0),
        get(8, 0),
    ));
}

#[test]
fn complete_assign_doubling() {
    let mut meta = ConstraintSystem::new(9);
    let cfg = complete_config(&mut meta);
    let mut region = Region::new(9, 4, 1);
    let pm = params();
    // (2, 5) + (2, 5): lambda = 3 x^2 / (2 y) = 82, result (54, 74)
    let r = cfg.assign(&mut region, &pm, 0, point(2, 5), point(2, 5)).unwrap();
    assert_eq!(r.x.value, 54);
    assert_eq!(r.y.value, 74);
    let rows = 4;
    assert_eq!(region.cells[0 * rows + 0], Some(82)); // tangent slope
    assert_eq!(region.cells[8 * rows + 0], Some(91)); // delta = (2 y)^-1
    let get = |c: usize, r2: usize| region.cells[c * rows + r2].unwrap();
    assert!(eval_complete_gate(
        &pm,
        get(1, 0),
        get(2, 0),
        get(3, 0),
        get(4, 0),
        get(3, 1),
        get(4, 1),
        get(0, 0),
        get(5, 0),
        get(6, 0),
        get(7, 0),
        get(8, 0),
    ));
}

#[test]
fn complete_assign_returns_q_when_p_is_the_identity() {
    let pm = params();
    let mut meta = ConstraintSystem::new(9);
    let cfg = complete_config(&mut meta);
    let mut region = Region::new(9, 4, 1);
    // P = (0, 0) carries the identity marker: the sum is Q unchanged.
    let r = cfg.assign(&mut region, &pm, 0, point(0, 0), point(3, 9)).unwrap();
    assert_eq!(r.x.value, 3);
    assert_eq!(r.y.value, 9);
    // the witness row satisfies the whole registered set
    let rows = 4;
    let get = |c: usize, r2: usize| region.cells[c * rows + r2].unwrap();
    assert_eq!(get(0, 0), 3); // lambda: the secant through (0,0) and Q
    assert_eq!(get(6, 0), 0); // beta = invert(0) = 0 flags the identity
    assert!(eval_complete_gate(
        &pm,
        get(1, 0),
        get(2, 0),
        get(3, 0),
        get(4, 0),
        get(3, 1),
        get(4, 1),
        get(0, 0),
        get(5, 0),
        get(6, 0),
        get(7, 0),
        get(8, 0),
    ));
}

#[test]
fn complete_assign_returns_p_when_q_is_the_identity() {
    let pm = params();
    let mut meta = ConstraintSystem::new(9);
    let cfg = complete_config(&mut meta);
    let mut region = Region::new(9, 4, 1);
    let r = cfg.assign(&mut region, &pm, 0, point(2, 5), point(0, 0)).unwrap();
    assert_eq!(r.x.value, 2);
    assert_eq!(r.y.value, 5);
    let rows = 4;
    let get = |c: usize, r2: usize| region.cells[c * rows + r2].unwrap();
    assert_eq!(get(7, 0), 0); // gamma = invert(0) = 0 flags the identity
    assert!(eval_complete_gate(
        &pm,
        get(1, 0),
        get(2, 0),
        get(3, 0),
        get(4, 0),
        get(3, 1),
        get(4, 1),
        get(0, 0),
        get(5, 0),
        get(6, 0),
        get(7, 0),
        get(8, 0),
    ));
}

#[test]
fn complete_assign_returns_zero_on_mutual_inverses() {
    let pm = params();
    let mut meta = ConstraintSystem::new(9);
    let cfg = complete_config(&mut meta);
    let mut region = Region::new(9, 4, 1);
    // equal x and y_p + y_q = 5 + 96 = 0 mod 101: P = -Q
    let r = cfg.assign(&mut region, &pm, 0, point(4, 5), point(4, 96)).unwrap();
    assert_eq!(r.x.value, 0);
    assert_eq!(r.y.value, 0);
    let rows = 4;
    let get = |c: usize, r2: usize| region.cells[c * rows + r2].unwrap();
    assert!(eval_complete_gate(
        &pm,
        get(1, 0),
        get(2, 0),
        get(3, 0),
        get(4, 0),
        get(3, 1),
        get(4, 1),
        get(0, 0),
        get(5, 0),
        get(6, 0),
        get(7, 0),
        get(8, 0),
    ));
}

#[test]
fn gate_forces_q_when_p_is_the_identity_marker() {
    let pm = params();
    // x_p = 0 flags P as the identity; a satisfying row must carry R = Q.
    assert!(eval_complete_gate(&pm, 0, 7, 3, 9, 3, 9, 68, 34, 0, 34, 0));
    // any other result coordinate is rejected
    assert!(!eval_complete_gate(&pm, 0, 7, 3, 9, 4, 9, 68, 34, 0, 34, 0));
    assert!(!eval_complete_gate(&pm, 0, 7, 3, 9, 3, 8, 68, 34, 0, 34, 0));
}

#[test]
fn gate_forces_zero_result_on_mutual_inverses() {
    let pm = params();
    // x_p = x_q = 4 and y_p + y_q = 5 + 96 = 0: the row must carry (0, 0).
    assert!(eval_complete_gate(&pm, 4, 5, 4, 96, 0, 0, 25, 0, 76, 76, 0));
    assert!(!eval_complete_gate(&pm, 4, 5, 4, 96, 1, 0, 25, 0, 76, 76, 0));
    assert!(!eval_complete_gate(&pm, 4, 5, 4, 96, 0, 2, 25, 0, 76, 76, 0));
}

#[test]
fn incomplete_assign_matches_complete_on_distinct_x() {
    let pm = params();
    let mut meta = ConstraintSystem::new(9);
    let ccfg = complete_config(&mut meta);
    let mut cregion = Region::new(9, 4, 1);
    let complete = ccfg.assign(&mut cregion, &pm, 0, point(2, 5), point(3, 9)).unwrap();

    let mut meta2 = ConstraintSystem::new(4);
    let icfg = incomplete_config(&mut meta2);
    let mut iregion = Region::new(4, 4, 1);
    let incomplete = icfg.assign(&mut iregion, &pm, 0, point(2, 5), point(3, 9)).unwrap();

    assert_eq!(incomplete.x.value, complete.x.value);
    assert_eq!(incomplete.y.value, complete.y.value);
    assert_eq!(incomplete.x.value, 11);
    assert_eq!(incomplete.y.value, 60);
}

#[test]
fn incomplete_assign_witness_satisfies_both_identities() {
    let pm = params();
    let mut meta = ConstraintSystem::new(4);
    let cfg = incomplete_config(&mut meta);
    let mut region = Region::new(4, 4, 1);
    let r = cfg.assign(&mut region, &pm, 0, point(2, 5), point(3, 9)).unwrap();
    assert!(eval_incomplete_gate(&pm, 2, 5, 3, 9, r.x.value, r.y.value));
    // a corrupted result row fails the identities
    assert!(!eval_incomplete_gate(&pm, 2, 5, 3, 9, r.x.value, r.y.value + 1));
    assert!(!eval_incomplete_gate(&pm, 2, 5, 3, 9, r.x.value + 1, r.y.value));
}

#[test]
fn incomplete_gate_is_unconstrained_on_equal_x_with_equal_y() {
    let pm = params();
    // violated caller obligation with y_p = y_q: every candidate result
    // row passes both identities - the silently unsound boundary
    assert!(eval_incomplete_gate(&pm, 4, 5, 4, 5, 17, 23));
    assert!(eval_incomplete_gate(&pm, 4, 5, 4, 5, 0, 0));
    // with y_p != y_q no candidate result row passes
    assert!(!eval_incomplete_gate(&pm, 4, 5, 4, 6, 17, 23));
    assert!(!eval_incomplete_gate(&pm, 4, 5, 4, 6, 0, 0));
}

#[test]
fn incomplete_configure_registers_its_gate() {
    let mut meta = ConstraintSystem::new(4);
    let cfg = incomplete_config(&mut meta);
    assert_eq!(cfg.q_add_incomplete.index, 0);
    assert!(matches!(meta.gates[0], GateKind::IncompleteAdd));
    assert!(meta.equality[0] && meta.equality[1] && meta.equality[2] && meta.equality[3]);
}

#[test]
fn results_chain_into_further_additions() {
    let pm = params();
    let mut meta = ConstraintSystem::new(9);
    let cfg1 = complete_config(&mut meta);
    let cfg2 = complete_config(&mut meta);
    let mut region = Region::new(9, 8, 2);
    // R = P + Q on rows 0..2, then R + P on rows 2..4, reusing R's cells
    let r = cfg1.assign(&mut region, &pm, 0, point(2, 5), point(3, 9)).unwrap();
    let p_again = point(2, 5);
    let s = cfg2.assign(&mut region, &pm, 2, r, p_again).unwrap();
    assert_eq!(s.x.value, 63);
    assert_eq!(s.y.value, 15);
    // the copy constraints of the second row link back to R's cells
    assert_eq!(region.copies.len(), 8);
    assert_eq!(region.copies[4].from_column, 3);
    assert_eq!(region.copies[4].from_row, 1);
}

#[test]
fn assign_reports_an_occupied_cell() {
    let pm = params();
    let mut meta = ConstraintSystem::new(9);
    let cfg = complete_config(&mut meta);
    let mut region = Region::new(9, 4, 1);
    cfg.assign(&mut region, &pm, 0, point(2, 5), point(3, 9)).unwrap();
    // the same offset is already populated
    let mut meta2 = ConstraintSystem::new(9);
    let cfg2 = complete_config(&mut meta2);
    let again = cfg2.assign(&mut region, &pm, 0, point(2, 5), point(3, 9));
    assert!(matches!(again, Err(Error::CellOccupied)));
}

#[test]
fn region_rejects_a_double_write() {
    let mut region = Region::new(2, 2, 1);
    let col = AdviceColumn { index: 0 };
    assert!(region.assign_advice(&col, 0, 7).is_ok());
    let second = region.assign_advice(&col, 0, 8);
    assert!(matches!(second, Err(Error::CellOccupied)));
    // the first value stays
    assert_eq!(region.cells[0], Some(7));
}

#[test]
fn copy_advice_records_the_linkage() {
    let mut region = Region::new(2, 2, 0);
    let col = AdviceColumn { index: 1 };
    let cell = AssignedCell { value: 42, column: 0, row: 1 };
    let copied = region.copy_advice(&cell, &col, 0).unwrap();
    assert_eq!(copied.value, 42);
    assert_eq!(copied.column, 1);
    assert_eq!(copied.row, 0);
    assert_eq!(region.copies.len(), 1);
    assert_eq!(region.copies[0].from_column, 0);
    assert_eq!(region.copies[0].from_row, 1);
    assert_eq!(region.copies[0].to_column, 1);
    assert_eq!(region.copies[0].to_row, 0);
}
