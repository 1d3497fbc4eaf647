use emoji_lang::error::{error, error_at, error_at_token, had_error, set_had_error, Diagnostics};
use emoji_lang::token::{Span, Token, TokenType};

#[test]
fn report_line_has_span_location_and_message() {
    let mut diagnostics = Diagnostics::new();
    assert!(!had_error(&diagnostics));
    let token = Token::new(
        TokenType::Identifier,
        String::from("abc"),
        None,
        Span { start: 12, end: 15 },
    );
    error_at_token(&mut diagnostics, &token, "Expected a variable name");
    assert!(had_error(&diagnostics));
    assert_eq!(diagnostics.len(), 1);
    assert_eq!(
        diagnostics.line(0).as_str(),
        "[line 12..15] Error at 'abc': Expected a variable name"
    );
}

#[test]
fn report_at_end_of_file_says_at_end() {
    let mut diagnostics = Diagnostics::new();
    let token = Token::new(TokenType::EndOfFile, String::from("x"), None, Span { start: 0, end: 1049 });
    error_at_token(&mut diagnostics, &token, "Expected expression");
    assert_eq!(diagnostics.line(0).as_str(), "[line 0..1049] Error at end: Expected expression");
}

#[test]
fn error_without_location_and_flag_reset() {
    let mut diagnostics = Diagnostics::new();
    error(&mut diagnostics, Span { start: 7, end: 10 }, "Invalid assignment target");
    assert_eq!(diagnostics.line(0).as_str(), "[line 7..10] Error: Invalid assignment target");
    assert!(had_error(&diagnostics));
    set_had_error(&mut diagnostics, false);
    assert!(!had_error(&diagnostics));
    assert_eq!(diagnostics.len(), 1);
}

#[test]
fn error_at_fails_with_the_message() {
    let mut diagnostics = Diagnostics::new();
    let token = Token::new(TokenType::Plus, String::from("+"), None, Span { start: 3, end: 4 });
    let outcome: Result<u8, _> = error_at(&mut diagnostics, token, "Parse error in primary");
    match outcome {
        Err(e) => assert_eq!(e.message, "Parse error in primary"),
        Ok(_) => panic!("error_at returned Ok"),
    }
    assert_eq!(diagnostics.line(0).as_str(), "[line 3..4] Error: Parse error in primary");
}
