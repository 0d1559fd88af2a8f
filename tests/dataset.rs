use ft_linear_regression::dataset::{parse_dataset, Table};
use ft_linear_regression::error::TrainError;

fn rows(t: &Table) -> Vec<(usize, String, String)> {
    t.rows.iter().map(|r| (r.line, r.x.clone(), r.y.clone())).collect()
}

fn row(line: usize, x: &str, y: &str) -> (usize, String, String) {
    (line, x.to_string(), y.to_string())
}

#[test]
fn header_and_rows() {
    let t = parse_dataset("km,price\n10,100\n20,80\n").ok().unwrap();
    assert_eq!(t.labels, ["km".to_string(), "price".to_string()]);
    assert_eq!(rows(&t), vec![row(1, "10", "100"), row(2, "20", "80")]);
}

#[test]
fn blank_lines_are_skipped() {
    let t = parse_dataset("\n\r\nkm , price \n\n 10, 100\r\n\n20,80").ok().unwrap();
    assert_eq!(t.labels, ["km".to_string(), "price".to_string()]);
    assert_eq!(rows(&t), vec![row(4, "10", "100"), row(6, "20", "80")]);
}

#[test]
fn fields_after_the_second_are_ignored() {
    let t = parse_dataset("a,b,c\n1,2,3\n").ok().unwrap();
    assert_eq!(t.labels, ["a".to_string(), "b".to_string()]);
    assert_eq!(rows(&t), vec![row(1, "1", "2")]);
}

#[test]
fn empty_fields_are_kept_as_text() {
    let t = parse_dataset("x,y\n1,\n").ok().unwrap();
    assert_eq!(rows(&t), vec![row(1, "1", "")]);
}

#[test]
fn header_only_gives_no_rows() {
    let t = parse_dataset("x,y").ok().unwrap();
    assert!(t.rows.is_empty());
}

#[test]
fn missing_header() {
    assert!(matches!(parse_dataset(""), Err(TrainError::MissingHeader)));
    assert!(matches!(parse_dataset("\n\r\n\n"), Err(TrainError::MissingHeader)));
    assert!(matches!(parse_dataset("\n \n\t"), Err(TrainError::MissingField { line: 1 })));
}

#[test]
fn missing_field() {
    assert!(matches!(parse_dataset("km price\n1,2\n"), Err(TrainError::MissingField { line: 0 })));
    assert!(matches!(
        parse_dataset("km,price\n1,2\n\n3\n4,5\n"),
        Err(TrainError::MissingField { line: 3 })
    ));
}

#[test]
fn error_messages() {
    let e = parse_dataset("k,p\n1;2\n").err().unwrap();
    assert_eq!(e.message(), "Missing field on line 2");
    assert_eq!(TrainError::Custom("boom".to_string()).message(), "Custom Error: \"boom\"");
    assert_eq!(TrainError::NoInputVariance.message(), "All training inputs are identical");
}

#[test]
fn unicode_white_space_is_trimmed() {
    let t = parse_dataset("\u{3000}km\u{a0},\u{2003}price\n").ok().unwrap();
    assert_eq!(t.labels, ["km".to_string(), "price".to_string()]);
}

#[test]
fn white_space_line_is_a_row_without_fields() {
    assert!(matches!(parse_dataset("x,y\n \n"), Err(TrainError::MissingField { line: 1 })));
    assert!(matches!(parse_dataset("x,y\n1,2\n\t\r\n"), Err(TrainError::MissingField { line: 2 })));
}
