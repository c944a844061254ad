use solana_chainlink::decimal::Decimal;

#[test]
fn pads_value_shorter_than_precision() {
    assert_eq!(Decimal::new(5, 3).render(), "0.005");
}

#[test]
fn splits_value_longer_than_precision() {
    assert_eq!(Decimal::new(12345, 2).render(), "123.45");
}

#[test]
fn zero_precision_gives_trailing_point() {
    assert_eq!(Decimal::new(100, 0).render(), "100.");
}

#[test]
fn zero_value_pads_to_full_precision() {
    assert_eq!(Decimal::new(0, 5).render(), "0.00000");
}

#[test]
fn zero_value_zero_precision() {
    assert_eq!(Decimal::new(0, 0).render(), "0.");
}

#[test]
fn precision_equal_to_length_keeps_all_digits_fractional() {
    assert_eq!(Decimal::new(987, 3).render(), "0.987");
}

#[test]
fn negative_value_splits_with_sign_counted() {
    // The sign character counts toward the length compared against the
    // precision, so "-12345" (length 6) splits at offset 6 - 2.
    assert_eq!(Decimal::new(-12345, 2).render(), "-123.45");
}

#[test]
fn negative_value_shorter_than_precision_pads_over_the_sign() {
    // "-5" has length 2, at most the precision 3, so it is zero-padded and
    // prefixed like any short digit string, sign included.
    assert_eq!(Decimal::new(-5, 3).render(), "0.0-5");
}

#[test]
fn extreme_magnitudes_render() {
    assert_eq!(
        Decimal::new(i128::MIN, 0).render(),
        "-170141183460469231731687303715884105728."
    );
    assert_eq!(
        Decimal::new(i128::MAX, 2).render(),
        "1701411834604692317316873037158841057.27"
    );
}

#[test]
fn render_is_deterministic() {
    let d = Decimal::new(205000000000, 8);
    assert_eq!(d.render(), d.render());
}

#[test]
fn render_round_trips_through_parsing() {
    let cases: [(i128, u32); 6] = [(5, 3), (12345, 2), (100, 0), (0, 5), (7, 7), (205000000000, 8)];
    for (value, decimals) in cases {
        let s = Decimal::new(value, decimals).render();
        let dot = s.find('.').expect("rendering always contains a point");
        assert_eq!(s.rfind('.'), Some(dot), "only one point");
        let digits: String = s[..dot].chars().chain(s[dot + 1..].chars()).collect();
        assert_eq!(digits.parse::<i128>().unwrap(), value);
        assert_eq!((s.len() - dot - 1) as u32, decimals);
    }
}
