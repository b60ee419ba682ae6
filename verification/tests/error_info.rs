use icalendar_txt::error::{Error, ErrorKind, NomErrorKind};
use icalendar_txt::error_info::{convert_error, ErrorInfo};

#[test]
fn test_convert_error() {
    let input = "a=1\nb2\nc=3";
    let err = Error { input: "2\nc=3".to_string(), kind: ErrorKind::Char('='), context: None };
    println!("{}", ErrorInfo::from_error(input, &err, None).to_string());
    assert_eq!(ErrorInfo::from_error(input, &err, None), ErrorInfo {
        line: 2,
        column: 2,
        file: None,
        message: "expected '='".to_string(),
        error_mesage: "".to_string(),
    });
}

#[test]
fn error_info_message_layout() {
    let input = "a=1\nb2\nc=3";
    let err = Error { input: "2\nc=3".to_string(), kind: ErrorKind::Char('='), context: None };
    let info = ErrorInfo::from_error(input, &err, Some("cal.txt"));
    assert_eq!(info.error_mesage, "error expected '=' at cal.txt:2:1\n    |\n 2  | b2\n    |  ^");
    assert_eq!(info.file, Some("cal.txt".to_string()));
    assert_eq!(info.to_string(), format!("{}\n", info.error_mesage));
}

#[test]
fn error_info_counts_bytes_for_column() {
    let input = "héllo x";
    let err = Error { input: "x".to_string(), kind: ErrorKind::Nom(NomErrorKind::Digit), context: None };
    let info = ErrorInfo::from_error(input, &err, None);
    assert_eq!(info.line, 1);
    assert_eq!(info.column, 8);
    assert_eq!(info.message, "expected a digit");
}

#[test]
fn convert_error_layout() {
    let input = "a=1\nb2\nc=3";
    let err = Error { input: "2\nc=3".to_string(), kind: ErrorKind::Char('='), context: None };
    assert_eq!(convert_error(input, &err, None), "error expected '=' at 2:2\nb2\n ^");
    let err = Error { input: "=1\nb2\nc=3".to_string(), kind: ErrorKind::InvalidPeriod, context: None };
    assert_eq!(convert_error(input, &err, Some("f")), "error empty period at f:1:2\na=1\n ^");
}

#[test]
fn error_messages() {
    let e = |kind| Error { input: String::new(), kind, context: None };
    assert_eq!(e(ErrorKind::EmptyDescription).message(), "empty description");
    assert_eq!(e(ErrorKind::InvalidPeriod).message(), "empty period");
    assert_eq!(e(ErrorKind::Nom(NomErrorKind::Digit)).message(), "expected a digit");
    assert_eq!(e(ErrorKind::Nom(NomErrorKind::Tag)).message(), "Tag");
    assert_eq!(e(ErrorKind::Char('-')).message(), "expected '-'");
}
