use ecc_chips::field::{f_add, f_invert, f_mul, f_neg, f_square, f_sub, FieldParams};

fn params() -> FieldParams {
    FieldParams { modulus: 101, b: 44 }
}

#[test]
fn add_wraps_around_the_modulus() {
    let pm = params();
    assert_eq!(f_add(&pm, 2, 5), 7);
    assert_eq!(f_add(&pm, 100, 3), 2);
    assert_eq!(f_add(&pm, 0, 0), 0);
}

#[test]
fn sub_wraps_below_zero() {
    let pm = params();
    assert_eq!(f_sub(&pm, 9, 5), 4);
    assert_eq!(f_sub(&pm, 3, 9), 95);
    assert_eq!(f_sub(&pm, 7, 7), 0);
}

#[test]
fn mul_and_square_reduce() {
    let pm = params();
    assert_eq!(f_mul(&pm, 10, 10), 100);
    assert_eq!(f_mul(&pm, 10, 11), 9);
    assert_eq!(f_square(&pm, 82), 58);
    assert_eq!(f_mul(&pm, 0, 77), 0);
}

#[test]
fn neg_mirrors_the_residue() {
    let pm = params();
    assert_eq!(f_neg(&pm, 1), 100);
    assert_eq!(f_neg(&pm, 0), 0);
}

#[test]
fn invert_finds_the_multiplicative_inverse() {
    let pm = params();
    let r = f_invert(&pm, 7);
    assert_eq!(r, 29);
    assert_eq!(f_mul(&pm, 7, r), 1);
    let r10 = f_invert(&pm, 10);
    assert_eq!(r10, 91);
    assert_eq!(f_mul(&pm, 10, r10), 1);
}

#[test]
fn invert_of_zero_is_zero() {
    let pm = params();
    assert_eq!(f_invert(&pm, 0), 0);
}

#[test]
fn invert_round_trips_every_small_residue() {
    let pm = FieldParams { modulus: 31, b: 0 };
    for a in 1..31u64 {
        let r = f_invert(&pm, a);
        assert_eq!(f_mul(&pm, a, r), 1);
    }
}
