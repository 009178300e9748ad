use dec64::consts;
use dec64::{Dec64, MAX_COEFFICIENT, MAX_EXP, MIN_COEFFICIENT};

#[test]
fn neg_zero() {
    assert_eq!(-consts::zero(), consts::zero());
}

#[test]
fn neg_zip() {
    assert_eq!(-consts::zip(), consts::zero());
}

#[test]
fn neg_trivial() {
    assert_eq!(-consts::one(), consts::negative_one());
    assert_eq!(-consts::two(), consts::negative_two());
    assert_eq!(-consts::ten(), consts::negative_ten());
    assert_eq!(-consts::pi(), consts::negative_pi());
}

#[test]
fn trivial_neg() {
    assert_eq!(-consts::negative_one(), consts::one());
    assert_eq!(-consts::negative_two(), consts::two());
    assert_eq!(-consts::negative_ten(), consts::ten());
    assert_eq!(-consts::negative_pi(), consts::pi());
}

#[test]
fn neg_nan() {
    assert_eq!(-consts::nan(), consts::nan());
    assert_eq!(-consts::nonnormal_nan(), consts::nan());
}

#[test]
fn tenth() {
    assert_eq!(-consts::tenth(), consts::negative_tenth());
}

#[test]
fn neg_neg_tenth() {
    assert_eq!(-consts::negative_tenth(), consts::tenth());
}

#[test]
fn max() {
    let expect = Dec64::from_parts(-MAX_COEFFICIENT, MAX_EXP);
    assert_eq!(-consts::max(), expect);
}

#[test]
fn min() {
    assert_eq!(-consts::min(), consts::nan());
}

#[test]
fn maxint() {
    let expect = Dec64::from_parts(-MAX_COEFFICIENT, 0);
    assert_eq!(-consts::maxint(), expect);
}

#[test]
fn minint() {
    let expect = Dec64::from_parts(-MIN_COEFFICIENT / 10 + 1, 1);
    assert_eq!(-consts::minint(), expect);
}
