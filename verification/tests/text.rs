use dec64::Dec64;

fn text(c: i64, e: i8) -> String {
    Dec64::from_parts(c, e).to_string()
}

#[test]
fn plain_numbers() {
    assert_eq!(text(100, 0), "100");
    assert_eq!(text(-5, -1), "-0.5");
    assert_eq!(text(1230, -2), "12.3");
    assert_eq!(text(1230, -5), "0.0123");
    assert_eq!(text(1, -18), "0.000000000000000001");
    assert_eq!(text(36028797018963967, 3), "36028797018963967000");
    assert_eq!(text(-36028797018963968, -17), "-0.36028797018963968");
    assert_eq!(text(0, 50), "0");
    assert_eq!(text(0, -128), "nan");
    assert_eq!(text(-9, -128), "nan");
}

#[test]
fn point_at_the_end_of_the_digits() {
    assert_eq!(text(1200, -1), "120.");
    assert_eq!(text(10, -1), "1.");
}

#[test]
fn scientific_notation() {
    assert_eq!(text(36028797018963967, 4), "3.6028797018963967e20");
    assert_eq!(text(12, 19), "1.2e20");
    assert_eq!(text(1, 20), "1e20");
    assert_eq!(text(1, 100), "1e100");
    assert_eq!(text(1, 105), "1e105");
    assert_eq!(text(1, -19), "1e-19");
    assert_eq!(text(123, -21), "1.23e-19");
    assert_eq!(text(12345678901234567, -34), "1.2345678901234567e-18");
    assert_eq!(text(-1, -127), "-1e-127");
}

#[test]
fn write_appends() {
    let mut out = String::from("x = ");
    Dec64::from_parts(123456, -3).write(&mut out);
    out.push_str("; y = ");
    Dec64::from_parts(-1, 0).write(&mut out);
    assert_eq!(out, "x = 123.456; y = -1");
}
