use ecc_chips::backend::{AdviceColumn, ConstraintSystem, FixedColumn, GateKind};
use ecc_chips::ecc::mul_fixed;
use ecc_chips::ecc::mul_fixed::{
    eval_on_curve, eval_sum_check, eval_word, eval_x_check, eval_y_check, pow2_mod,
};
use ecc_chips::field::FieldParams;

fn params() -> FieldParams {
    FieldParams { modulus: 101, b: 44 }
}

fn running_sum_config(meta: &mut ConstraintSystem) -> mul_fixed::Config {
    let mut lagrange: Vec<AdviceColumn> = Vec::new();
    for i in 0..8 {
        lagrange.push(AdviceColumn { index: 4 + i });
    }
    mul_fixed::Config::configure(
        meta,
        lagrange,
        FixedColumn { index: 0 },
        AdviceColumn { index: 0 },
        AdviceColumn { index: 1 },
        AdviceColumn { index: 2 },
        AdviceColumn { index: 3 },
        3,
    )
}

#[test]
fn configure_registers_the_running_sum_gate() {
    let mut meta = ConstraintSystem::new(12);
    let cfg = running_sum_config(&mut meta);
    assert_eq!(cfg.q_running_sum.index, 0);
    assert_eq!(cfg.window_size, 3);
    assert_eq!(cfg.lagrange_coeff.len(), 8);
    assert!(matches!(meta.gates[0], GateKind::RunningSum));
}

#[test]
fn pow2_mod_doubles_up() {
    let pm = params();
    assert_eq!(pow2_mod(&pm, 0), 1);
    assert_eq!(pow2_mod(&pm, 3), 8);
    assert_eq!(pow2_mod(&pm, 7), 27); // 128 mod 101
}

#[test]
fn window_three_running_sum_pair_extracts_word_three() {
    let pm = params();
    // z_curr = 11, z_next = 1: word = 11 - 1 * 8 = 3
    let word = eval_word(&pm, 3, 11, 1);
    assert_eq!(word, 3);
    // the range check accepts it
    assert_eq!(eval_sum_check(&pm, 3, word), 0);
    // the interpolated x equals the table entry for word 3: the table
    // x_k = k^2 + 7 has Lagrange coefficients [7, 0, 1, 0, 0, 0, 0, 0]
    let coeffs: Vec<u64> = vec![7, 0, 1, 0, 0, 0, 0, 0];
    let x3 = 16;
    assert_eq!(eval_x_check(&pm, &coeffs, word, x3), 0);
    // that table entry lies on the curve y^2 = x^3 + 44: (16, 10)
    assert_eq!(eval_on_curve(&pm, x3, 10), 0);
}

#[test]
fn sum_check_accepts_every_word_in_range() {
    let pm = params();
    for word in 0..8u64 {
        assert_eq!(eval_sum_check(&pm, 3, word), 0);
    }
}

#[test]
fn sum_check_rejects_words_out_of_range() {
    let pm = params();
    assert_eq!(eval_sum_check(&pm, 3, 9), 13);
    assert_eq!(eval_sum_check(&pm, 3, 100), 80);
    for word in 8..101u64 {
        assert_ne!(eval_sum_check(&pm, 3, word), 0);
    }
}

#[test]
fn running_sum_gate_accepts_the_window_row() {
    let pm = params();
    let coeffs: Vec<u64> = vec![7, 0, 1, 0, 0, 0, 0, 0];
    // z_curr = 11, z_next = 1 extracts word 3; the table entry (16, 10)
    // matches the interpolation, the square-root recovery and the curve
    assert!(ecc_chips::ecc::mul_fixed::eval_running_sum_gate(
        &pm, 3, 11, 1, 16, 10, 20, 87, &coeffs
    ));
    // a wrong table x fails the interpolation check
    assert!(!ecc_chips::ecc::mul_fixed::eval_running_sum_gate(
        &pm, 3, 11, 1, 17, 10, 20, 87, &coeffs
    ));
    // an out-of-range word fails the range check: z_curr = 11, z_next = 0
    assert!(!ecc_chips::ecc::mul_fixed::eval_running_sum_gate(
        &pm, 3, 11, 0, 16, 10, 20, 87, &coeffs
    ));
}

#[test]
fn x_check_rejects_a_wrong_table_value() {
    let pm = params();
    let coeffs: Vec<u64> = vec![7, 0, 1, 0, 0, 0, 0, 0];
    assert_ne!(eval_x_check(&pm, &coeffs, 3, 17), 0);
}

#[test]
fn y_check_recovers_y_from_the_square_root_witness() {
    let pm = params();
    // u = 20, u^2 = 97 mod 101, z = 97 - 10 = 87 recovers y_p = 10
    assert_eq!(eval_y_check(&pm, 10, 87, 20), 0);
    assert_ne!(eval_y_check(&pm, 11, 87, 20), 0);
}

#[test]
fn on_curve_rejects_points_off_the_curve() {
    let pm = params();
    assert_eq!(eval_on_curve(&pm, 16, 10), 0);
    assert_ne!(eval_on_curve(&pm, 16, 11), 0);
    assert_ne!(eval_on_curve(&pm, 15, 10), 0);
}
