use lexer::tokenizer::Lexer;
use lexer::tokens::LexError;
use lexer::tokens::Literal;
use lexer::tokens::Token;
use lexer::tokens::TokenKind;

fn integer(value: i32, line: u128) -> Option<Result<Token, LexError>> {
    Some(Ok(Token { kind: TokenKind::Literal(Literal::Integer(value)), line }))
}

fn string_lit(payload: &str, line: u128) -> Option<Result<Token, LexError>> {
    Some(Ok(Token { kind: TokenKind::Literal(Literal::Str(String::from(payload))), line }))
}

fn symbol(text: &str, line: u128) -> Option<Result<Token, LexError>> {
    Some(Ok(Token { kind: TokenKind::Symbol(String::from(text)), line }))
}

fn identifier(name: &str, line: u128) -> Option<Result<Token, LexError>> {
    Some(Ok(Token { kind: TokenKind::Identifier(String::from(name)), line }))
}

fn end_line(line: u128) -> Option<Result<Token, LexError>> {
    Some(Ok(Token { kind: TokenKind::EndLine, line }))
}

#[test]
fn empty_input_is_terminal() {
    let mut lx = Lexer::from_text("");
    assert_eq!(lx.next(), None);
}

#[test]
fn spaces_only_is_terminal() {
    let mut lx = Lexer::from_text("     ");
    assert_eq!(lx.next(), None);
}

#[test]
fn single_integer() {
    let mut lx = Lexer::from_text("42");
    assert_eq!(lx.next(), integer(42, 1));
    assert_eq!(lx.next(), None);
}

#[test]
fn integer_with_leading_zeros() {
    let mut lx = Lexer::from_text("007");
    assert_eq!(lx.next(), integer(7, 1));
    assert_eq!(lx.next(), None);
}

#[test]
fn largest_integer_fits() {
    let mut lx = Lexer::from_text("2147483647");
    assert_eq!(lx.next(), integer(2147483647, 1));
    assert_eq!(lx.next(), None);
}

#[test]
fn integer_just_past_range_fails() {
    let mut lx = Lexer::from_text("2147483648");
    assert_eq!(
        lx.next(),
        Some(Err(LexError::InvalidInteger(String::from("2147483648"))))
    );
}

#[test]
fn huge_digit_run_fails() {
    let mut lx = Lexer::from_text("99999999999999999999");
    assert_eq!(
        lx.next(),
        Some(Err(LexError::InvalidInteger(String::from(
            "99999999999999999999"
        ))))
    );
}

#[test]
fn string_literal_verbatim() {
    let mut lx = Lexer::from_text("\"hi there\"");
    assert_eq!(lx.next(), string_lit("hi there", 1));
    assert_eq!(lx.next(), None);
}

#[test]
fn string_literal_no_unescaping() {
    let mut lx = Lexer::from_text("\"a\\nb\"");
    assert_eq!(lx.next(), string_lit("a\\nb", 1));
    assert_eq!(lx.next(), None);
}

#[test]
fn empty_string_literal() {
    let mut lx = Lexer::from_text("\"\"");
    assert_eq!(lx.next(), string_lit("", 1));
    assert_eq!(lx.next(), None);
}

#[test]
fn string_may_contain_line_break_without_counting_it() {
    let mut lx = Lexer::from_text("\"a\nb\" x");
    assert_eq!(lx.next(), string_lit("a\nb", 1));
    assert_eq!(lx.next(), identifier("x", 1));
    assert_eq!(lx.next(), None);
}

#[test]
fn unterminated_string_fails_on_the_quote() {
    let mut lx = Lexer::from_text("\"abc");
    assert_eq!(lx.next(), Some(Err(LexError::UnexpectedToken('"'))));
}

#[test]
fn comment_to_end_of_input_is_terminal() {
    let mut lx = Lexer::from_text("// anything");
    assert_eq!(lx.next(), None);
}

#[test]
fn comment_then_line_feed_then_integer() {
    let mut lx = Lexer::from_text("// comment\n42");
    assert_eq!(lx.next(), end_line(2));
    assert_eq!(lx.next(), integer(42, 2));
    assert_eq!(lx.next(), None);
}

#[test]
fn comment_swallows_carriage_return() {
    let mut lx = Lexer::from_text("// x\r42");
    assert_eq!(lx.next(), None);
}

#[test]
fn assignment_scenario() {
    let mut lx = Lexer::from_text("x <- 5");
    assert_eq!(lx.next(), identifier("x", 1));
    assert_eq!(lx.next(), symbol("<-", 1));
    assert_eq!(lx.next(), integer(5, 1));
    assert_eq!(lx.next(), None);
}

#[test]
fn unexpected_character() {
    let mut lx = Lexer::from_text("@");
    assert_eq!(lx.next(), Some(Err(LexError::UnexpectedToken('@'))));
}

#[test]
fn tab_is_not_skipped() {
    let mut lx = Lexer::from_text("\t");
    assert_eq!(lx.next(), Some(Err(LexError::UnexpectedToken('\t'))));
}

#[test]
fn single_slash_is_unexpected() {
    let mut lx = Lexer::from_text("/");
    assert_eq!(lx.next(), Some(Err(LexError::UnexpectedToken('/'))));
}

#[test]
fn lone_less_than_is_unexpected() {
    let mut lx = Lexer::from_text("<");
    assert_eq!(lx.next(), Some(Err(LexError::UnexpectedToken('<'))));
}

#[test]
fn digits_bind_before_identifier() {
    let mut lx = Lexer::from_text("12abc");
    assert_eq!(lx.next(), integer(12, 1));
    assert_eq!(lx.next(), identifier("abc", 1));
    assert_eq!(lx.next(), None);
}

#[test]
fn symbols_equal_and_arrow() {
    let mut lx = Lexer::from_text("= <-");
    assert_eq!(lx.next(), symbol("=", 1));
    assert_eq!(lx.next(), symbol("<-", 1));
    assert_eq!(lx.next(), None);
}

#[test]
fn identifiers_with_underscores_and_digits() {
    let mut lx = Lexer::from_text("_a1 b_2");
    assert_eq!(lx.next(), identifier("_a1", 1));
    assert_eq!(lx.next(), identifier("b_2", 1));
    assert_eq!(lx.next(), None);
}

#[test]
fn line_count_reads_markers_plus_one() {
    let mut lx = Lexer::from_text("a\nb\n\nc");
    assert_eq!(lx.next(), identifier("a", 1));
    assert_eq!(lx.next(), end_line(2));
    assert_eq!(lx.next(), identifier("b", 2));
    assert_eq!(lx.next(), end_line(3));
    assert_eq!(lx.next(), end_line(4));
    assert_eq!(lx.next(), identifier("c", 4));
    assert_eq!(lx.next(), None);
}

#[test]
fn carriage_return_and_line_feed_each_count() {
    let mut lx = Lexer::from_text("\r\nx");
    assert_eq!(lx.next(), end_line(2));
    assert_eq!(lx.next(), end_line(3));
    assert_eq!(lx.next(), identifier("x", 3));
    assert_eq!(lx.next(), None);
}

#[test]
fn spaces_around_tokens_are_skipped() {
    let mut lx = Lexer::from_text("  1  2  ");
    assert_eq!(lx.next(), integer(1, 1));
    assert_eq!(lx.next(), integer(2, 1));
    assert_eq!(lx.next(), None);
}

#[test]
fn failure_after_consumed_digits_keeps_cursor_past_run() {
    let mut lx = Lexer::from_text("2147483648 ok");
    assert_eq!(
        lx.next(),
        Some(Err(LexError::InvalidInteger(String::from("2147483648"))))
    );
    assert_eq!(lx.next(), identifier("ok", 1));
    assert_eq!(lx.next(), None);
}

#[test]
fn non_ascii_text_is_unexpected_but_strings_may_hold_it() {
    let mut lx = Lexer::from_text("\"h\u{e9}llo\" \u{e9}");
    assert_eq!(lx.next(), string_lit("h\u{e9}llo", 1));
    assert_eq!(lx.next(), Some(Err(LexError::UnexpectedToken('\u{e9}'))));
}
