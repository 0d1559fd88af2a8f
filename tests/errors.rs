use ft_linear_regression::error::TrainError;
use ft_linear_regression::text::decimal_string;

#[test]
fn io_errors_convert() {
    let e = TrainError::from(std::io::Error::new(std::io::ErrorKind::NotFound, "no such file"));
    assert!(matches!(e, TrainError::Io(_)));
    assert_eq!(e.message(), "no such file");
}

#[test]
fn messages_of_each_variant() {
    assert_eq!(TrainError::MissingHeader.message(), "Input has no header line");
    assert_eq!(TrainError::MissingField { line: 0 }.message(), "Missing field on line 1");
    assert_eq!(TrainError::NotANumber { line: 4 }.message(), "Field is not a number on line 5");
    assert_eq!(TrainError::BadRatio.message(), "Training ratio must be a decimal in (0, 1]");
    assert_eq!(TrainError::EmptyTrainSet.message(), "Training set is empty");
    assert_eq!(
        TrainError::MissingField { line: usize::MAX }.message(),
        format!("Missing field on line {}", usize::MAX as u128 + 1)
    );
}

#[test]
fn custom_errors_are_quoted() {
    assert_eq!(
        TrainError::Custom(String::from("Plotter Error")).message(),
        "Custom Error: \"Plotter Error\""
    );
    assert_eq!(
        TrainError::Custom(String::from("a\"b\\c\n")).message(),
        "Custom Error: \"a\\\"b\\\\c\\n\""
    );
    assert_eq!(TrainError::Custom(String::new()).message(), "Custom Error: \"\"");
}

#[test]
fn io_message_is_the_display_text() {
    let err = std::io::Error::new(std::io::ErrorKind::PermissionDenied, "denied here");
    let text = format!("{}", err);
    assert_eq!(TrainError::Io(err).message(), text);
}

#[test]
fn decimal_text_of_numbers() {
    assert_eq!(decimal_string(0), "0");
    assert_eq!(decimal_string(7), "7");
    assert_eq!(decimal_string(10), "10");
    assert_eq!(decimal_string(1_000_203), "1000203");
    assert_eq!(decimal_string(u128::MAX), u128::MAX.to_string());
}
