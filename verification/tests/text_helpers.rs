use manga_parser::parser::ParseHelper;
use manga_parser::parser::ParserError;

#[test]
fn digit_run_with_trailing_text() {
    let r = ParseHelper::get_first_number_from_string("Chapter 123: The Return");
    assert_eq!(r, "123");
}

#[test]
fn digit_run_without_digits() {
    let r = ParseHelper::get_first_number_from_string("no numbers here");
    assert_eq!(r, "");
}

#[test]
fn digit_run_empty_input() {
    let r = ParseHelper::get_first_number_from_string("");
    assert_eq!(r, "");
}

#[test]
fn digit_run_stops_at_first_non_digit() {
    let r = ParseHelper::get_first_number_from_string("Chapter 45.5: Into the Fire");
    assert_eq!(r, "45");
}

#[test]
fn digit_run_is_leftmost() {
    let r = ParseHelper::get_first_number_from_string("12ab34");
    assert_eq!(r, "12");
}

#[test]
fn digit_run_keeps_leading_zeros() {
    let r = ParseHelper::get_first_number_from_string("ch 007 x");
    assert_eq!(r, "007");
}

#[test]
fn digit_run_whole_string() {
    let r = ParseHelper::get_first_number_from_string("2024");
    assert_eq!(r, "2024");
}

#[test]
fn post_separator_returns_trimmed_tail() {
    let r = ParseHelper::get_string_post_separator("Chapter 123: The Return".to_string(), ':');
    assert_eq!(r, Some("The Return".to_string()));
}

#[test]
fn post_separator_absent_separator() {
    let r = ParseHelper::get_string_post_separator("Chapter 123".to_string(), ':');
    assert_eq!(r, None);
}

#[test]
fn post_separator_whitespace_only_tail() {
    let r = ParseHelper::get_string_post_separator("Chapter 123:   ".to_string(), ':');
    assert_eq!(r, None);
}

#[test]
fn post_separator_empty_tail() {
    let r = ParseHelper::get_string_post_separator("Chapter 123:".to_string(), ':');
    assert_eq!(r, None);
}

#[test]
fn post_separator_uses_first_occurrence() {
    let r = ParseHelper::get_string_post_separator("a: b: c".to_string(), ':');
    assert_eq!(r, Some("b: c".to_string()));
}

#[test]
fn post_separator_at_start() {
    let r = ParseHelper::get_string_post_separator(": x".to_string(), ':');
    assert_eq!(r, Some("x".to_string()));
}

#[test]
fn text_from_first_result_concatenates_and_trims() {
    let html = "<html><body><div><p> Hello <b>World</b> </p><p>second</p></div></body></html>";
    let r = ParseHelper::get_text_from_first_result(html, "p");
    assert_eq!(r, Ok("Hello World".to_string()));
}

#[test]
fn text_from_first_result_missing_element() {
    let html = "<html><body><div>nothing here</div></body></html>";
    let r = ParseHelper::get_text_from_first_result(html, "h1");
    assert_eq!(r, Err(ParserError::ElementNotFound));
}

#[test]
fn src_from_first_result_returns_raw_attribute() {
    let html = "<html><body><img src=\"https://img.example/a.png?x=1&y=2\"></body></html>";
    let r = ParseHelper::get_src_from_first_result(html, "img");
    assert_eq!(r, Ok("https://img.example/a.png?x=1&y=2".to_string()));
}

#[test]
fn src_from_first_result_missing_element() {
    let html = "<html><body><p>no image</p></body></html>";
    let r = ParseHelper::get_src_from_first_result(html, "img");
    assert_eq!(r, Err(ParserError::ElementNotFound));
}

#[test]
fn src_from_first_result_missing_attribute() {
    let html = "<html><body><img class=\"cover\"></body></html>";
    let r = ParseHelper::get_src_from_first_result(html, "img");
    assert_eq!(r, Err(ParserError::AttributeNotFound));
}

#[test]
fn error_messages() {
    assert_eq!(ParserError::ElementNotFound.message(), "DOM element not found");
    assert_eq!(ParserError::AttributeNotFound.message(), "attribute of element not found");
    assert_eq!(
        ParserError::HostNotFound.message(),
        "host is either not supported or not found"
    );
    assert_eq!(
        ParserError::NumericFormatFailure.message(),
        "chapter number is missing or out of range"
    );
}
