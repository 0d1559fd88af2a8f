use ft_linear_regression::error::TrainError;
use ft_linear_regression::model::{parse_model, render_model};

fn strings(a: &str, b: &str) -> [String; 2] {
    [a.to_string(), b.to_string()]
}

#[test]
fn renders_two_lines() {
    let text = render_model(&strings("km", "price"), &strings("8499.59", "-0.0214"));
    assert_eq!(text, "km price\n8499.59 -0.0214\n");
}

#[test]
fn round_trip() {
    let labels = strings("km", "price");
    for (t0, t1) in [(120.0f64, -2.0f64), (0.1, 1e-300), (-3.25, 6.02e23), (0.0, -0.0)] {
        let theta = strings(&format!("{}", t0), &format!("{}", t1));
        let text = render_model(&labels, &theta);
        let m = parse_model(&text).ok().unwrap();
        assert_eq!(m.labels, labels);
        assert_eq!(m.theta, theta);
        assert_eq!(m.theta[0].parse::<f64>().unwrap().to_bits(), t0.to_bits());
        assert_eq!(m.theta[1].parse::<f64>().unwrap().to_bits(), t1.to_bits());
    }
}

#[test]
fn parse_trims_and_ignores_extra_fields() {
    let m = parse_model("a b c\r\n1.5 2\t x\n").ok().unwrap();
    assert_eq!(m.labels, strings("a", "b"));
    assert_eq!(m.theta, strings("1.5", "2"));
}

#[test]
fn missing_lines_and_fields() {
    assert!(matches!(parse_model(""), Err(TrainError::MissingField { line: 0 })));
    assert!(matches!(parse_model("km\n1 2\n"), Err(TrainError::MissingField { line: 0 })));
    assert!(matches!(parse_model("km price"), Err(TrainError::MissingField { line: 1 })));
    assert!(matches!(parse_model("km price\n"), Err(TrainError::MissingField { line: 1 })));
    assert!(matches!(parse_model("km price\n12\n"), Err(TrainError::MissingField { line: 1 })));
}
