use iv::percent::Percent;
use iv::ratio::{rescale, window_size, Ratio};

#[test]
fn rat() {
    let (_, rat) = Ratio::new(16, 9).unwrap().scale(1920, 1200).unwrap();
    assert_eq!(rat, (1920, 1080));
}

#[test]
fn ratio_parse() {
    assert!("16x9".parse::<Ratio>().is_ok());
    assert!("16x9 ".parse::<Ratio>().is_err());
}

#[test]
fn ratio_parse_reads_both_sides() {
    assert_eq!("16x9".parse::<Ratio>().unwrap(), Ratio(16, 9));
    assert_eq!("4x3".parse::<Ratio>().unwrap(), Ratio(4, 3));
    assert_eq!("1920x1080".parse::<Ratio>().unwrap(), Ratio(1920, 1080));
    assert!("0x9".parse::<Ratio>().is_err());
    assert!("16x09".parse::<Ratio>().is_err());
    assert!("16".parse::<Ratio>().is_err());
    assert!("x9".parse::<Ratio>().is_err());
    assert!("16x".parse::<Ratio>().is_err());
    assert!("16x9x2".parse::<Ratio>().is_err());
}

#[test]
fn ratio_scale_takes_the_smaller_fit() {
    // 1200 / 9 is the tighter bound, so the height fills.
    let (pct, dims) = Ratio::new(4, 3).unwrap().scale(800, 300).unwrap();
    assert_eq!(dims, (400, 300));
    assert_eq!(pct, Percent(10000));
    // A degenerate ratio cannot scale anything.
    assert!(Ratio::new(0, 9).unwrap().scale(100, 100).is_none());
}

#[test]
fn window_size_scales_then_shapes() {
    // 80% of a 1920x1080 monitor is 1536x864, which a 16x9 ratio fills.
    assert_eq!(
        window_size(1920, 1080, Ratio(16, 9), Percent::from_integer_percent(80)),
        Some((1536, 864))
    );
    // A 4x3 window on the same area is bounded by the height.
    assert_eq!(
        window_size(1920, 1080, Ratio(4, 3), Percent::from_integer_percent(100)),
        Some((1440, 1080))
    );
    assert_eq!(
        window_size(1920, 1080, Ratio(0, 3), Percent::from_integer_percent(100)),
        None
    );
}

#[test]
fn rescale_floors_each_side() {
    let half = Percent::from_integer_percent(50);
    assert_eq!(rescale(half, 101, 7), Some((50, 3)));
    assert_eq!(rescale(Percent::from_integer_percent(0), 101, 7), Some((0, 0)));
    assert_eq!(rescale(Percent::from_integer_percent(200), 10, 20), Some((20, 40)));
}
