use dec64::consts;
use dec64::Dec64;

#[test]
fn all_abs() {
    let nonnormal_nan: Dec64 = Dec64::from_raw(128);
    let zip: Dec64 = Dec64::from_raw(250);

    assert_eq!(consts::nan().abs(), consts::nan(), "nan");
    assert_eq!(nonnormal_nan.abs(), consts::nan(), "nonnan");
    assert_eq!(consts::zero().abs(), consts::zero(), "zero");
    assert_eq!(zip.abs(), consts::zero(), "zip");
    assert_eq!(Dec64::from_raw(100).abs(), consts::zero(), "zero alias");
    assert_eq!(consts::one().abs(), consts::one(), "one");
    assert_eq!(consts::negative_one().abs(), consts::one(), "-1");
    assert_eq!(consts::almost_negative_one().abs(), consts::almost_one(), "almost_negative_one");
    assert_eq!(consts::minint().abs(), consts::maxint() + consts::one(), "-maxint");
    assert_eq!(consts::min().abs(), consts::nan(), "-maxnum");
    assert_eq!(consts::max().abs(), consts::max(), "maxnum");
}
