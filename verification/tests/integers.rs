use dec64::Dec64;

fn fields(value: Dec64) -> (i64, i8) {
    (value.coefficient(), value.exponent())
}

#[test]
fn small_integers_go_in_as_they_are() {
    assert_eq!(fields(Dec64::from(0_u8)), (0, 0));
    assert_eq!(fields(Dec64::from(255_u8)), (255, 0));
    assert_eq!(fields(Dec64::from(-128_i8)), (-128, 0));
    assert_eq!(fields(Dec64::from(65535_u16)), (65535, 0));
    assert_eq!(fields(Dec64::from(-32768_i16)), (-32768, 0));
    assert_eq!(fields(Dec64::from(u32::MAX)), (4294967295, 0));
    assert_eq!(fields(Dec64::from(i32::MIN)), (-2147483648, 0));
}

#[test]
fn large_integers_are_rounded() {
    assert_eq!(fields(Dec64::from(36028797018963967_i64)), (36028797018963967, 0));
    assert_eq!(fields(Dec64::from(36028797018963968_i64)), (3602879701896397, 1));
    assert_eq!(fields(Dec64::from(i64::MAX)), (9223372036854776, 3));
    assert_eq!(fields(Dec64::from(i64::MIN)), (-9223372036854776, 3));
    assert_eq!(fields(Dec64::from(u64::MAX)), (18446744073709552, 3));
    assert_eq!(fields(Dec64::from(u64::MAX as usize)), fields(Dec64::from(u64::MAX as usize as u64)));
    assert_eq!(fields(Dec64::from(-5_isize)), (-5, 0));
    assert_eq!(fields(Dec64::from(i128::MAX)), (17014118346046923, 22));
    assert_eq!(fields(Dec64::from(i128::MIN)), (-17014118346046923, 22));
    assert_eq!(fields(Dec64::from(u128::MAX)), (34028236692093846, 22));
    assert_eq!(fields(Dec64::from(0_u128)), (0, 0));
    assert_eq!(fields(Dec64::from_integer(360287970189639675)), (3602879701896397, 2));
}

#[test]
fn values_give_their_integer() {
    let at = |c: i64, e: i8| Dec64::from_parts(c, e);
    assert_eq!(at(5, 2).integer(), 500);
    assert_eq!(at(-5, 2).integer(), -500);
    assert_eq!(at(15, -1).integer(), 15);
    assert_eq!(at(1, 3).integer(), 1000);
    assert_eq!(at(3, 19).integer(), -6893488147419103232);
    assert_eq!(at(7, 20).integer(), -976274800962961408);
    assert_eq!(at(3, 64).integer(), 0);
    assert_eq!(at(3, 127).integer(), 0);
    assert_eq!(i64::from(at(5, 2)), 500);
    assert_eq!(i128::from(at(-5, 2)), -500);
    assert_eq!(u8::from(at(5, 2)), 244);
    assert_eq!(u8::from(at(-5, 2)), 12);
    assert_eq!(i8::from(at(5, 2)), -12);
    assert_eq!(u16::from(at(-300, 0)), 65236);
    assert_eq!(i16::from(at(-300, 0)), -300);
    assert_eq!(u32::from(at(-5, 2)), 4294966796);
    assert_eq!(i32::from(at(7, 20)), -1250951168);
    assert_eq!(u64::from(at(-1, 0)), u64::MAX);
    assert_eq!(u128::from(at(-1, 0)), u128::MAX);
    assert_eq!(usize::from(at(1, 3)), 1000);
    assert_eq!(isize::from(at(-1, 3)), -1000);
}
