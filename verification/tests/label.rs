use grapher::label::{error_heading, hint_text, line_name};

#[test]
fn first_six_rows_have_a_hint() {
    assert_eq!(hint_text(0), "x^2");
    assert_eq!(hint_text(1), "sin(x)");
    assert_eq!(hint_text(2), "x+2");
    assert_eq!(hint_text(3), "x*3");
    assert_eq!(hint_text(4), "abs(x)");
    assert_eq!(hint_text(5), "cos(x)");
}

#[test]
fn later_rows_have_no_hint() {
    assert_eq!(hint_text(6), "");
    assert_eq!(hint_text(17), "");
    assert_eq!(hint_text(usize::MAX), "");
}

#[test]
fn line_is_named_after_its_text() {
    assert_eq!(line_name("x^2"), "y = x^2");
    assert_eq!(line_name(""), "y = ");
}

#[test]
fn error_heading_shows_the_message() {
    assert_eq!(error_heading("cannot parse"), "Error: cannot parse");
    assert_eq!(error_heading(""), "Error: ");
}
