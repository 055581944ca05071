use iv::percent::{Percent, PercentError};
use std::convert::TryFrom;

#[test]
fn percent_from() {
    assert_eq!(Percent::from(10_u32) * 100_u64, 10);
    assert_eq!(100_u64 * Percent::from(10_u32), 10);
}

#[test]
fn percent_try_from() {
    assert!(Percent::try_from(1_i64).is_ok());
    assert!(Percent::try_from(-1_i64).is_err());
}

#[test]
fn percent_math() {
    assert_eq!(
        Percent::from(50_u32) + Percent::from(50_u32),
        Percent::from(100_u32)
    );

    assert_eq!(
        Percent::from(0_u32) - Percent::from(20_u32),
        Percent::from(0_u32)
    );
}

#[test]
fn percent_step() {
    assert_eq!(
        Percent::from(50_u32).step_next(Percent::from(5_u32), Percent::from(25_u32)),
        Percent::from(75_u32)
    );
    assert_eq!(
        Percent::from(28_u32).step_prev(Percent::from(25_u32), Percent::from(25_u32)),
        Percent::from(25_u32)
    );
}

#[test]
fn parse_percent_logic() {
    assert!("-20%".parse::<Percent>().is_err())
}

#[test]
fn percent_parse_accepts_the_exact_grammar() {
    assert_eq!(Percent::parse("0%").unwrap(), Percent(0));
    assert_eq!(Percent::parse("20%").unwrap(), Percent(20));
    assert_eq!(Percent::parse("105%").unwrap(), Percent(105));
    assert!(Percent::parse("20").is_err());
    assert!(Percent::parse("007%").is_err());
    assert!(Percent::parse("%").is_err());
    assert!(Percent::parse("").is_err());
    assert!(Percent::parse("2.5%").is_err());
    assert!(Percent::parse(" 20%").is_err());
    assert!(Percent::parse("20% ").is_err());
    assert!(Percent::parse("99999999999999999999%").is_err());
}

#[test]
fn percent_parse_errors_carry_their_cause() {
    match Percent::try_from_integer(-7) {
        Err(PercentError::IsNegative { value }) => assert_eq!(value, -7),
        other => panic!("expected IsNegative, got {:?}", other),
    }
    match Percent::parse("nope") {
        Err(PercentError::Parse { s }) => assert_eq!(s, "nope"),
        other => panic!("expected Parse, got {:?}", other),
    }
}

#[test]
fn percent_to_string_round_trips() {
    for points in [0_u64, 1, 9, 10, 99, 100, 12345, u64::MAX] {
        let p = Percent::from_integer_percent(points);
        let printed = p.to_string();
        assert_eq!(printed, format!("{}%", points));
        assert_eq!(Percent::parse(&printed).unwrap(), p);
    }
}

#[test]
fn percent_step_quantizes_and_clamps() {
    let pct = |n: u64| Percent::from_integer_percent(n);
    // 50 + 25 lands exactly on a multiple of the step.
    assert_eq!(pct(50).step_next(pct(25), pct(25)), pct(75));
    // 30 + 25 = 55; 55 / 25 rounds to 2, so the result is 50.
    assert_eq!(pct(30).step_next(pct(25), pct(25)), pct(50));
    // Halves round up: 100 + 25 = 125, exactly between 100 and 150 for step 50.
    assert_eq!(pct(75).step_next(pct(50), pct(50)), pct(150));
    // Stepping down saturates at zero before quantizing, then clamps to min.
    assert_eq!(pct(10).step_prev(pct(25), pct(25)), pct(25));
    assert_eq!(pct(0).step_prev(pct(25), pct(25)), pct(25));
    // A zero step yields the minimum.
    assert_eq!(pct(40).step_next(pct(30), pct(0)), pct(30));
    assert_eq!(pct(40).step_prev(pct(30), pct(0)), pct(30));
    // Up then down by the same step returns within one step, never below min.
    let up = pct(60).step_next(pct(25), pct(25));
    let down = up.step_prev(pct(25), pct(25));
    assert!(down.raw() + 25 >= 60);
    assert!(down.raw() >= 25);
}

#[test]
fn percent_default_is_zero() {
    assert_eq!(Percent::default(), Percent(0));
    assert_eq!(Percent::default().raw(), 0);
}

#[test]
fn percent_multiplication_truncates() {
    let p = Percent::from_integer_percent(50);
    assert_eq!(p * 7_u64, 3);
    assert_eq!(7_u64 * p, 3);
    assert_eq!(Percent::from_integer_percent(150) * 10_u64, 15);
}
