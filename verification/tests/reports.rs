use muffle::filter::parser::{parse, ParseError, ParseErrorKind};
use muffle::filter::Expr;
use muffle::parsing::format_errors;

#[test]
fn report_names_the_problem() {
    let text = "input /a/ and";
    let err = parse(text).unwrap_err();
    let reason = err.reason.clone();
    let report = format_errors(&[err], text);
    assert!(report.contains("Failed to parse"), "{report}");
    assert!(report.contains(&reason), "{report}");
}

#[test]
fn report_for_each_error() {
    let text = "input /a/ $ and";
    let e1 = parse(text).unwrap_err();
    let e2 = parse("input /a/ and").unwrap_err();
    let one = format_errors(&[parse(text).unwrap_err()], text);
    let both = format_errors(&[e1, e2], text);
    assert!(both.len() > one.len());
    assert_eq!(both.matches("Failed to parse").count(), 2);
}

#[test]
fn no_errors_no_report() {
    let none: &[muffle::filter::parser::ParseError] = &[];
    assert_eq!(format_errors(none, "anything"), "");
}

#[test]
fn from_text_accepts_and_reports() {
    assert!(Expr::from_text("input /a/ and output /b/").is_ok());
    let message = Expr::from_text("input /(/").unwrap_err();
    assert!(message.contains("Failed to parse"), "{message}");
    let message = Expr::from_text("").unwrap_err();
    assert!(message.contains("Failed to parse"), "{message}");
}

#[test]
fn from_text_reports_the_regex_crates_message() {
    let text = "output /ok/ or input /(/";
    let expected = format_errors(
        &[ParseError {
            kind: ParseErrorKind::Regex,
            start: 21,
            end: 24,
            reason: regex::Regex::new("(").unwrap_err().to_string(),
        }],
        text,
    );
    assert_eq!(Expr::from_text(text).unwrap_err(), expected);
}
