use ft_linear_regression::error::TrainError;
use ft_linear_regression::ratio::Ratio;
use ft_linear_regression::split::test_quota;

fn parsed(text: &str) -> Option<(u64, u64)> {
    Ratio::parse(text).ok().map(|r| (r.num, r.den))
}

#[test]
fn parses_decimal_ratios() {
    assert_eq!(parsed("0.8"), Some((8, 10)));
    assert_eq!(parsed("1"), Some((1, 1)));
    assert_eq!(parsed("1.0"), Some((10, 10)));
    assert_eq!(parsed(".25"), Some((25, 100)));
    assert_eq!(parsed("0.67"), Some((67, 100)));
    assert_eq!(parsed("00.5"), Some((5, 10)));
    assert_eq!(parsed("1."), Some((1, 1)));
    assert_eq!(parsed("0.000000000000000001"), Some((1, 1_000_000_000_000_000_000)));
}

#[test]
fn refuses_ratios_out_of_range_or_malformed() {
    for text in ["0", "0.0", "1.5", "2", "10", "-0.5", "+0.5", "", ".", "0.8x", " 0.8", "1e-1",
        "0.5.5", "0.0000000000000000001", "abc"]
    {
        assert!(matches!(Ratio::parse(text), Err(TrainError::BadRatio)), "{}", text);
    }
}

#[test]
fn new_checks_the_range() {
    assert!(Ratio::new(1, 1).is_ok());
    assert!(matches!(Ratio::new(0, 3), Err(TrainError::BadRatio)));
    assert!(matches!(Ratio::new(4, 3), Err(TrainError::BadRatio)));
}

#[test]
fn quota_is_the_floor_of_the_held_out_share() {
    let r = Ratio::parse("0.8").ok().unwrap();
    assert_eq!(test_quota(24, r), 4);
    assert_eq!(test_quota(25, r), 5);
    assert_eq!(test_quota(4, r), 0);
    assert_eq!(test_quota(0, r), 0);
    let one = Ratio::parse("1").ok().unwrap();
    assert_eq!(test_quota(1000, one), 0);
    let third = Ratio::new(2, 3).ok().unwrap();
    assert_eq!(test_quota(10, third), 3);
    assert_eq!(test_quota(usize::MAX, Ratio::new(1, 2).ok().unwrap()), usize::MAX / 2);
}
