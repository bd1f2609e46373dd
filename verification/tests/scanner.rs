use tiny_c_compiler::error::CompileError;
use tiny_c_compiler::scanner::{numerals_representable, KeywordType, Scanner, TinyCScanner, Token};
use tiny_c_compiler::stream::BasicStream;

fn create_scanner(string: String) -> TinyCScanner {
    TinyCScanner::new(BasicStream::new_with_string(string))
}

fn assert_next_number(scanner: &mut TinyCScanner, number: i64) {
    let token = scanner.next_token();
    assert_eq!(token, Ok(Token::Number(number)));
}

fn assert_next_keyword(scanner: &mut TinyCScanner, keyword: KeywordType) {
    let token = scanner.next_token();
    assert_eq!(token, Ok(Token::Keyword(keyword)));
}

#[test]
fn test_scanner_eof() {
    let mut scanner = create_scanner("".to_string());
    assert_eq!(scanner.next_token(), Ok(Token::Eof));
}

#[test]
fn test_scanner_parse_number() {
    let mut scanner = create_scanner("1234".to_owned());
    assert_next_number(&mut scanner, 1234)
}

#[test]
fn test_sacnner_parse_keyword() {
    let mut scanner = create_scanner("+-*/()".to_owned());
    assert_next_keyword(&mut scanner, KeywordType::Add);
    assert_next_keyword(&mut scanner, KeywordType::Sub);
    assert_next_keyword(&mut scanner, KeywordType::Mul);
    assert_next_keyword(&mut scanner, KeywordType::Div);
    assert_next_keyword(&mut scanner, KeywordType::Lbracket);
    assert_next_keyword(&mut scanner, KeywordType::Rbracket);
    assert_eq!(scanner.next_token(), Ok(Token::Eof));
}

#[test]
fn test_scanner_parse_number_and_keyword() {
    let mut scanner = create_scanner("123+456/789*0".to_owned());
    assert_next_number(&mut scanner, 123);
    assert_next_keyword(&mut scanner, KeywordType::Add);
    assert_next_number(&mut scanner, 456);
    assert_next_keyword(&mut scanner, KeywordType::Div);
    assert_next_number(&mut scanner, 789);
    assert_next_keyword(&mut scanner, KeywordType::Mul);
    assert_next_number(&mut scanner, 0);
    assert_eq!(scanner.next_token(), Ok(Token::Eof));
}

#[test]
fn scanner_skips_every_kind_of_ascii_whitespace() {
    let mut scanner = create_scanner(" \t\n\x0c\r 7 \t+\n".to_owned());
    assert_next_number(&mut scanner, 7);
    assert_next_keyword(&mut scanner, KeywordType::Add);
    assert_eq!(scanner.next_token(), Ok(Token::Eof));
}

#[test]
fn scanner_repeats_eof() {
    let mut scanner = create_scanner("1 ".to_owned());
    assert_next_number(&mut scanner, 1);
    assert_eq!(scanner.next_token(), Ok(Token::Eof));
    assert_eq!(scanner.next_token(), Ok(Token::Eof));
    assert_eq!(scanner.next_token(), Ok(Token::Eof));
}

#[test]
fn scanner_rejects_an_unknown_byte_and_stays_there() {
    let mut scanner = create_scanner("12 @ 3".to_owned());
    assert_next_number(&mut scanner, 12);
    assert_eq!(scanner.next_token(), Err(CompileError::LexicalError));
    assert_eq!(scanner.next_token(), Err(CompileError::LexicalError));
}

#[test]
fn scanner_rejects_text_that_is_not_ascii() {
    let mut scanner = create_scanner("1+\u{e9}".to_owned());
    assert_next_number(&mut scanner, 1);
    assert_next_keyword(&mut scanner, KeywordType::Add);
    assert_eq!(scanner.next_token(), Err(CompileError::LexicalError));
}

#[test]
fn scanner_reads_a_numeral_as_far_as_digits_go() {
    let mut scanner = create_scanner("007(42".to_owned());
    assert_next_number(&mut scanner, 7);
    assert_next_keyword(&mut scanner, KeywordType::Lbracket);
    assert_next_number(&mut scanner, 42);
    assert_eq!(scanner.next_token(), Ok(Token::Eof));
}

#[test]
fn scanner_reads_the_largest_numeral() {
    let mut scanner = create_scanner("9223372036854775807".to_owned());
    assert_next_number(&mut scanner, i64::MAX);
    assert_eq!(scanner.next_token(), Ok(Token::Eof));
}

#[test]
fn numerals_representable_tells_numerals_that_fit() {
    assert!(numerals_representable(""));
    assert!(numerals_representable("1+2"));
    assert!(numerals_representable("9223372036854775807"));
    assert!(numerals_representable("0000000000000000000000000000001"));
    assert!(!numerals_representable("9223372036854775808"));
    assert!(!numerals_representable("1 + 99999999999999999999"));
    assert!(!numerals_representable("(1) * 18446744073709551616"));
    // Scanning stops at the unknown byte, so what follows it is never read.
    assert!(numerals_representable("1 @ 99999999999999999999"));
}

#[test]
fn keyword_from_char() {
    assert_eq!(KeywordType::from_char('*'), KeywordType::Mul);
    assert_eq!(KeywordType::from_char('/'), KeywordType::Div);
    assert_eq!(KeywordType::from_char('+'), KeywordType::Add);
    assert_eq!(KeywordType::from_char('-'), KeywordType::Sub);
    assert_eq!(KeywordType::from_char('('), KeywordType::Lbracket);
    assert_eq!(KeywordType::from_char(')'), KeywordType::Rbracket);
}

#[test]
fn token_accessors() {
    assert_eq!(Token::Number(5).get_number(), 5);
    assert!(Token::Eof.is_eof());
    assert!(!Token::Number(0).is_eof());
    assert!(!Token::Keyword(KeywordType::Add).is_eof());
    assert_eq!(Token::Keyword(KeywordType::Sub).get_keyword(), &KeywordType::Sub);
}
