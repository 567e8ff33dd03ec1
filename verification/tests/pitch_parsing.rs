use serde_scala::{FloatError, IntError, ParsePitchError, Pitch};

#[test]
fn parses_simple_ratio() {
    let p: Pitch = "3/2".parse().unwrap();
    assert_eq!(p, Pitch::Ratio(3, 2));
}

#[test]
fn ratio_cents_value_is_a_fifth() {
    // ToCents of 3/2 is log2(3/2) * 1200, about 701.95500
    let p: Pitch = "3/2".parse().unwrap();
    match p {
        Pitch::Ratio(n, d) => {
            let cents = (n as f64 / d as f64).log2() * 1200.0;
            assert!((cents - 701.95500).abs() < 1e-4);
        },
        _ => panic!("expected a ratio"),
    }
}

#[test]
fn parses_bare_integer_as_ratio_over_one() {
    let p: Pitch = "2".parse().unwrap();
    assert_eq!(p, Pitch::Ratio(2, 1));
}

#[test]
fn parses_cents_with_five_places() {
    let p: Pitch = "700.00000".parse().unwrap();
    assert_eq!(p, Pitch::Cents(70_000_000));
}

#[test]
fn parses_cents_with_suffix() {
    let p: Pitch = "700.5cents".parse().unwrap();
    assert_eq!(p, Pitch::Cents(70_050_000));
}

#[test]
fn spaces_are_insignificant_anywhere() {
    // spaces go first, so even a split-up suffix reassembles
    let spaced: Pitch = " 7 0 0 . 5 c e n t s".parse().unwrap();
    let plain: Pitch = "700.5cents".parse().unwrap();
    assert_eq!(spaced, plain);
    assert_eq!(spaced, Pitch::Cents(70_050_000));
    let spaced_ratio: Pitch = " 3 / 2 ".parse().unwrap();
    assert_eq!(spaced_ratio, Pitch::Ratio(3, 2));
}

#[test]
fn negative_cents_parse() {
    let p: Pitch = "-12.5".parse().unwrap();
    assert_eq!(p, Pitch::Cents(-1_250_000));
}

#[test]
fn sixth_decimal_place_rounds_half_up() {
    let p: Pitch = "0.000006".parse().unwrap();
    assert_eq!(p, Pitch::Cents(1));
    let q: Pitch = "0.000004".parse().unwrap();
    assert_eq!(q, Pitch::Cents(0));
    let r: Pitch = "0.999996".parse().unwrap();
    assert_eq!(r, Pitch::Cents(100_000));
}

#[test]
fn ratio_is_reduced_on_parse() {
    let p: Pitch = "6/4".parse().unwrap();
    assert_eq!(p, Pitch::Ratio(3, 2));
    let q: Pitch = "4/2".parse().unwrap();
    assert_eq!(q, Pitch::Ratio(2, 1));
    let z: Pitch = "0/5".parse().unwrap();
    assert_eq!(z, Pitch::Ratio(0, 1));
}

#[test]
fn dot_takes_precedence_over_slash() {
    // a token with both '.' and '/' is read as a cents value and fails
    let e = "3.5/2".parse::<Pitch>().unwrap_err();
    assert!(matches!(e, ParsePitchError::ParseFloat(FloatError::Invalid)));
}

#[test]
fn empty_text_is_an_empty_integer() {
    let e = "".parse::<Pitch>().unwrap_err();
    assert_eq!(e, ParsePitchError::ParseInt(IntError::Empty));
}

#[test]
fn non_digit_text_is_invalid() {
    let e = "abc".parse::<Pitch>().unwrap_err();
    assert_eq!(e, ParsePitchError::ParseInt(IntError::InvalidDigit));
    let e2 = "3/x".parse::<Pitch>().unwrap_err();
    assert_eq!(e2, ParsePitchError::ParseInt(IntError::InvalidDigit));
}

#[test]
fn oversized_integer_overflows() {
    // forty digits pass u128::MAX
    let e = "4000000000000000000000000000000000000000/2".parse::<Pitch>().unwrap_err();
    assert_eq!(e, ParsePitchError::ParseInt(IntError::Overflow));
}

#[test]
fn zero_denominator_is_rejected() {
    let e = "1/0".parse::<Pitch>().unwrap_err();
    assert_eq!(e, ParsePitchError::ParseInt(IntError::Zero));
}

#[test]
fn oversized_cents_value_is_out_of_range() {
    let e = "180000000000000000000000000000000000000.0".parse::<Pitch>().unwrap_err();
    assert_eq!(e, ParsePitchError::ParseFloat(FloatError::OutOfRange));
}

#[test]
fn malformed_cents_values_are_invalid() {
    for bad in [".", "1.2.3", "1..2", "+-1.0", "1.0e2"] {
        let e = bad.parse::<Pitch>().unwrap_err();
        assert_eq!(e, ParsePitchError::ParseFloat(FloatError::Invalid), "{}", bad);
    }
}

#[test]
fn leading_plus_is_accepted() {
    assert_eq!("+3/2".parse::<Pitch>().unwrap(), Pitch::Ratio(3, 2));
    assert_eq!("+1.5".parse::<Pitch>().unwrap(), Pitch::Cents(150_000));
}
