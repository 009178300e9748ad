use dec64::consts;
use dec64::Dec64;

#[test]
fn div_all_c() {
    assert_eq!(consts::six() / consts::three(), Dec64::new(20000000000000000, -16), "6 / 3");
    assert_eq!(consts::nonnormal_nan() / consts::two(), consts::nan(), "NAN_NAN / 2");
    assert_eq!(consts::nan() / consts::two(), consts::nan(), "NAN / 2");
    assert_eq!(consts::zero() / consts::two(), consts::zero(), "0 / 2");
    assert_eq!(consts::zip() / consts::two(), consts::zero(), "ZIP / 2");
    assert_eq!(consts::one() / consts::two(), consts::half(), "1 / 2");
    assert_eq!(consts::two() / consts::two(), consts::one(), "TWO");
    assert_eq!(consts::four() / consts::two(), consts::two(), "4 / 2");
    assert_eq!(consts::ten() / consts::two(), consts::five(), "10 / 2");
    assert_eq!(consts::min() / consts::two(), Dec64::from_parts(-18014398509481984, 127), "MIN / 2");
    assert_eq!(Dec64::new(-2, 0) / consts::two(), Dec64::new(-1, 0), "-2 / 2");
    assert_eq!(Dec64::new(-1, 0) / consts::two(), Dec64::new(-5, -1), "-1 / 2");
    assert_eq!(consts::nan() / consts::nan(), consts::nan(), "NAN / NAN");
    assert_eq!(Dec64::new(4195835, 0) / Dec64::new(3145727, 0), Dec64::new(13338204491362410, -16), "4195835 / 3145727");
    assert_eq!(consts::nan() / consts::three(), consts::nan(), "NAN / 3");
    assert_eq!(consts::nonnormal_nan() / consts::nonnormal_nan(), consts::nan(), "NAN_NAN / NAN_NAN");
    assert_eq!(consts::nonnormal_nan() / consts::one(), consts::nan(), "NAN_NAN / 1");
    assert_eq!(consts::zero() / consts::nan(), consts::nan(), "0 / NAN");
    assert_eq!(consts::zero() / consts::nonnormal_nan(), consts::nan(), "0 / NAN_NAN");
    assert_eq!(consts::zero() / consts::zip(), consts::nan(), "0 / ZIP");
    assert_eq!(consts::zip() / consts::nan(), consts::nan(), "ZIP / NAN");
    assert_eq!(consts::zip() / consts::nonnormal_nan(), consts::nan(), "ZIP / NAN_NAN");
    assert_eq!(consts::zip() / consts::zero(), consts::nan(), "ZIP / 0");
    assert_eq!(consts::zip() / consts::zip(), consts::nan(), "ZIP / ZIP");
    assert_eq!(consts::zero() / consts::one(), consts::zero(), "0 / 1");
    assert_eq!(consts::zero() / consts::zero(), consts::nan(), "0 / 0");
    assert_eq!(consts::one() / consts::zero(), consts::nan(), "1 / 0");
    assert_eq!(consts::one() / consts::negative_one(), Dec64::new(-10000000000000000, -16), "1 / -1");
    assert_eq!(consts::negative_one() / consts::one(), Dec64::new(-10000000000000000, -16), "-1 / 1");
    assert_eq!(consts::one() / consts::three(), Dec64::new(33333333333333333, -17), "1 / 3");
    assert_eq!(consts::two() / consts::three(), Dec64::new(6666666666666667, -16), "2 / 3");
    assert_eq!(consts::two() / Dec64::new(30000000000000000, -16), Dec64::new(6666666666666667, -16), "2 / 3 alias");
    assert_eq!(Dec64::new(20000000000000000, -16) / consts::three(), Dec64::new(6666666666666667, -16), "2 / 3 alias");
    assert_eq!(Dec64::new(20000000000000000, -16) / Dec64::new(30000000000000000, -16), Dec64::new(6666666666666667, -16), "2 / 3 alias");
    assert_eq!(consts::five() / consts::three(), Dec64::new(16666666666666667, -16), "5 / 3");
    assert_eq!(consts::five() / Dec64::new(-30000000000000000, -16), Dec64::new(-16666666666666667, -16), "5 / -3");
    assert_eq!(Dec64::new(-50000000000000000, -16) / consts::three(), Dec64::new(-16666666666666667, -16), "-5 / 3");
    assert_eq!(Dec64::new(-50000000000000000, -16) / Dec64::new(-30000000000000000, -16), Dec64::new(16666666666666667, -16), "-5 / -3");
    assert_eq!(consts::six() / consts::nan(), consts::nan(), "6 / NAN");
    assert_eq!(consts::zero() / consts::nine(), consts::zero(), "0 / 9");
    assert_eq!(consts::one() / consts::nine(), Dec64::new(11111111111111111, -17), "1 / 9");
    assert_eq!(consts::two() / consts::nine(), Dec64::new(22222222222222222, -17), "2 / 9");
    assert_eq!(consts::three() / consts::nine(), Dec64::new(33333333333333333, -17), "3 / 9");
    assert_eq!(consts::four() / consts::nine(), Dec64::new(4444444444444444, -16), "4 / 9");
    assert_eq!(consts::five() / consts::nine(), Dec64::new(5555555555555556, -16), "5 / 9");
    assert_eq!(consts::six() / consts::nine(), Dec64::new(6666666666666667, -16), "6 / 9");
    assert_eq!(consts::seven() / consts::nine(), Dec64::new(7777777777777778, -16), "7 / 9");
    assert_eq!(consts::eight() / consts::nine(), Dec64::new(8888888888888889, -16), "8 / 9");
    assert_eq!(consts::nine() / consts::nine(), consts::one(), "9 / 9");
    assert_eq!(consts::zero() / consts::negative_nine(), consts::zero(), "0 / -9");
    assert_eq!(consts::one() / consts::negative_nine(), Dec64::new(-11111111111111111, -17), "1 / -9");
    assert_eq!(consts::two() / consts::negative_nine(), Dec64::new(-22222222222222222, -17), "2 / -9");
    assert_eq!(consts::three() / consts::negative_nine(), Dec64::new(-33333333333333333, -17), "3 / -9");
    assert_eq!(consts::four() / consts::negative_nine(), Dec64::new(-4444444444444444, -16), "4 / -9");
    assert_eq!(consts::five() / consts::negative_nine(), Dec64::new(-5555555555555556, -16), "5 / -9");
    assert_eq!(consts::six() / consts::negative_nine(), Dec64::new(-6666666666666667, -16), "6 / -9");
    assert_eq!(consts::seven() / consts::negative_nine(), Dec64::new(-7777777777777778, -16), "7 / -9");
    assert_eq!(consts::eight() / consts::negative_nine(), Dec64::new(-8888888888888889, -16), "8 / -9");
    assert_eq!(consts::nine() / consts::negative_nine(), consts::negative_one(), "9 / -9");
    assert_eq!(consts::pi() / consts::negative_pi(), Dec64::new(-10000000000000000, -16), "PI / -PI");
    assert_eq!(consts::negative_pi() / consts::pi(), Dec64::new(-10000000000000000, -16), "-PI / PI");
    assert_eq!(consts::negative_pi() / consts::negative_pi(), Dec64::new(10000000000000000, -16), "-PI / -PI");
    assert_eq!(Dec64::new(-16, 0) / consts::ten(), Dec64::new(-16, -1), "-16 / 10");
    assert_eq!(consts::maxint() / consts::epsilon(), Dec64::new(36028797018963967, 16), "MAXINT / EPSILON");
    assert_eq!(consts::one() / consts::maxint(), consts::frac_1_maxint(), "1 / MAXINT");
    assert_eq!(consts::one() / consts::frac_1_maxint(), consts::maxint(), "1 / 1/MAXINT");
    assert_eq!(consts::one() / consts::minint(), Dec64::new(-27755575615628914, -33), "ONE / -MAXINT");
    assert_eq!(consts::max() / consts::epsilon(), consts::nan(), "MAX / EPSILON");
    assert_eq!(consts::max() / consts::max(), Dec64::new(10000000000000000, -16), "MAX / MAX");
    assert_eq!(Dec64::new(10, -1) / consts::maxint(), consts::frac_1_maxint(), "ONE / MAXINT alias 1");
    assert_eq!(Dec64::new(100, -2) / consts::maxint(), consts::frac_1_maxint(), "ONE / MAXINT alias 2");
    assert_eq!(Dec64::new(1000, -3) / consts::maxint(), consts::frac_1_maxint(), "ONE / MAXINT alias 3");
    assert_eq!(Dec64::new(10000, -4) / consts::maxint(), consts::frac_1_maxint(), "ONE / MAXINT alias 4");
    assert_eq!(Dec64::new(100000, -5) / consts::maxint(), consts::frac_1_maxint(), "ONE / MAXINT alias 5");
    assert_eq!(Dec64::new(1000000, -6) / consts::maxint(), consts::frac_1_maxint(), "ONE / MAXINT alias 6");
    assert_eq!(Dec64::new(10000000, -7) / consts::maxint(), consts::frac_1_maxint(), "ONE / MAXINT alias 7");
    assert_eq!(Dec64::new(100000000, -8) / consts::maxint(), consts::frac_1_maxint(), "ONE / MAXINT alias 8");
    assert_eq!(Dec64::new(1000000000, -9) / consts::maxint(), consts::frac_1_maxint(), "ONE / MAXINT alias 9");
    assert_eq!(Dec64::new(10000000000, -10) / consts::maxint(), consts::frac_1_maxint(), "ONE / MAXINT alias 10");
    assert_eq!(Dec64::new(100000000000, -11) / consts::maxint(), consts::frac_1_maxint(), "ONE / MAXINT alias 11");
    assert_eq!(Dec64::new(1000000000000, -12) / consts::maxint(), consts::frac_1_maxint(), "ONE / MAXINT alias 12");
    assert_eq!(Dec64::new(10000000000000, -13) / consts::maxint(), consts::frac_1_maxint(), "ONE / MAXINT alias 13");
    assert_eq!(Dec64::new(100000000000000, -14) / consts::maxint(), consts::frac_1_maxint(), "ONE / MAXINT alias 14");
    assert_eq!(Dec64::new(1000000000000000, -15) / consts::maxint(), consts::frac_1_maxint(), "ONE / MAXINT alias 15");
    assert_eq!(Dec64::new(10000000000000000, -16) / consts::maxint(), consts::frac_1_maxint(), "ONE / MAXINT alias 16");
    assert_eq!(consts::one() / Dec64::from_raw(0x1437EEECD800000), Dec64::new(28114572543455208, -31), "1/17!");
    assert_eq!(consts::one() / Dec64::from_raw(0x52D09F700003), Dec64::new(28114572543455208, -31), "1/17!");
}
