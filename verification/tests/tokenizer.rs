use calculator::token::{Token, TokenStream, TokenizationError};
use calculator::value::Num;

fn num(x: f64) -> Num {
    Num { bits: x.to_bits() }
}

struct TestCase {
    input: &'static str,
}

impl TestCase {
    fn input(input: &'static str) -> TestCase {
        TestCase { input }
    }

    fn expect(self, expected: Vec<Token>) {
        let mut ts = TokenStream::new(self.input.as_bytes());
        let mut actual = Vec::new();
        while let Some(token) = ts.next().unwrap() {
            actual.push(token);
        }
        assert_eq!(actual, expected);
    }

    fn expect_err(self, expected: TokenizationError) {
        let mut ts = TokenStream::new(self.input.as_bytes());
        assert_eq!(ts.next().unwrap_err(), expected);
    }
}

#[test]
fn test_next_with_number() {
    TestCase::input("123").expect(vec![Token::Number(num(123.0))]);
}

#[test]
fn test_next_with_symbol() {
    TestCase::input("+").expect(vec![Token::Symbol('+')]);
}

#[test]
fn test_next_with_empty_string() {
    TestCase::input("").expect(vec![]);
}

#[test]
fn test_next_with_whitespace() {
    TestCase::input("    ").expect(vec![]);
}

#[test]
fn test_next_with_multiple_numbers() {
    TestCase::input("123 456 789").expect(vec![
        Token::Number(num(123.0)),
        Token::Number(num(456.0)),
        Token::Number(num(789.0)),
    ]);
}

#[test]
fn test_next_with_multiple_symbols() {
    TestCase::input("+ - * /").expect(vec![
        Token::Symbol('+'),
        Token::Symbol('-'),
        Token::Symbol('*'),
        Token::Symbol('/'),
    ]);
}

#[test]
fn test_next_with_mixed_numbers_and_symbols() {
    TestCase::input("123 + 456 -789").expect(vec![
        Token::Number(num(123.0)),
        Token::Symbol('+'),
        Token::Number(num(456.0)),
        Token::Symbol('-'),
        Token::Number(num(789.0)),
    ]);
}

#[test]
fn test_next_with_decimal_number() {
    TestCase::input("123.456").expect(vec![Token::Number(num(123.456))]);
}

#[test]
fn test_next_with_scientific_notation() {
    TestCase::input("1.23e-4").expect(vec![Token::Number(num(1.23e-4))]);
}

#[test]
fn test_next_with_invalid_symbol() {
    TestCase::input("@").expect_err(TokenizationError::InvalidSymbol('@'));
}

#[test]
fn test_next_with_leading_whitespace() {
    TestCase::input("  123").expect(vec![Token::Number(num(123.0))]);
}

#[test]
fn test_next_with_trailing_whitespace() {
    TestCase::input("123  ").expect(vec![Token::Number(num(123.0))]);
}

#[test]
fn test_next_with_whitespace_between_numbers() {
    TestCase::input("123   456").expect(vec![Token::Number(num(123.0)), Token::Number(num(456.0))]);
}

#[test]
fn test_next_with_whitespace_between_symbols() {
    TestCase::input("+   -").expect(vec![Token::Symbol('+'), Token::Symbol('-')]);
}

#[test]
fn test_next_with_mixed_numbers_symbols_and_whitespace() {
    TestCase::input("123   +   456   -   789").expect(vec![
        Token::Number(num(123.0)),
        Token::Symbol('+'),
        Token::Number(num(456.0)),
        Token::Symbol('-'),
        Token::Number(num(789.0)),
    ]);
}

#[test]
fn test_next_subtraction() {
    TestCase::input("123-456").expect(vec![
        Token::Number(num(123.0)),
        Token::Symbol('-'),
        Token::Number(num(456.0)),
    ]);
}

#[test]
fn test_next_with_parentheses() {
    TestCase::input("(123 + 456)").expect(vec![
        Token::Symbol('('),
        Token::Number(num(123.0)),
        Token::Symbol('+'),
        Token::Number(num(456.0)),
        Token::Symbol(')'),
    ]);
}

#[test]
fn test_next_with_nested_parentheses() {
    TestCase::input("(123 + (456 - 789))").expect(vec![
        Token::Symbol('('),
        Token::Number(num(123.0)),
        Token::Symbol('+'),
        Token::Symbol('('),
        Token::Number(num(456.0)),
        Token::Symbol('-'),
        Token::Number(num(789.0)),
        Token::Symbol(')'),
        Token::Symbol(')'),
    ]);
}

#[test]
fn test_next_with_invalid_number() {
    TestCase::input("123.456.789")
        .expect_err(TokenizationError::InvalidNumber("123.456.789".to_string()));
}

#[test]
fn test_next_with_unbalanced_parentheses() {
    TestCase::input("(123 + 456").expect(vec![
        Token::Symbol('('),
        Token::Number(num(123.0)),
        Token::Symbol('+'),
        Token::Number(num(456.0)),
    ]);
}

#[test]
fn test_next_with_nested_unbalanced_parentheses() {
    TestCase::input("(123 + (456 - 789)").expect(vec![
        Token::Symbol('('),
        Token::Number(num(123.0)),
        Token::Symbol('+'),
        Token::Symbol('('),
        Token::Number(num(456.0)),
        Token::Symbol('-'),
        Token::Number(num(789.0)),
        Token::Symbol(')'),
    ]);
}

#[test]
fn test_next_with_unexpected_symbol() {
    TestCase::input("123 + * 456").expect(vec![
        Token::Number(num(123.0)),
        Token::Symbol('+'),
        Token::Symbol('*'),
        Token::Number(num(456.0)),
    ]);
}

#[test]
fn test_next_with_let_keyword_and_name() {
    TestCase::input("let abc = 5").expect(vec![
        Token::Let,
        Token::Name("abc".to_string()),
        Token::Symbol('='),
        Token::Number(num(5.0)),
    ]);
}

#[test]
fn test_next_with_name_containing_digits() {
    TestCase::input("x1 + 2").expect(vec![
        Token::Name("x1".to_string()),
        Token::Symbol('+'),
        Token::Number(num(2.0)),
    ]);
}

#[test]
fn test_mid_line_semicolon_is_end_statement() {
    TestCase::input("1; 2").expect(vec![
        Token::Number(num(1.0)),
        Token::EndStatement,
        Token::Number(num(2.0)),
    ]);
}

#[test]
fn test_trailing_semicolon_is_swallowed() {
    TestCase::input("1;").expect(vec![Token::Number(num(1.0))]);
}

#[test]
fn test_peek_does_not_consume() {
    let mut ts = TokenStream::new("12 34".as_bytes());
    assert_eq!(ts.peek().unwrap(), Some(Token::Number(num(12.0))));
    assert_eq!(ts.peek().unwrap(), Some(Token::Number(num(12.0))));
    assert_eq!(ts.next().unwrap(), Some(Token::Number(num(12.0))));
    assert_eq!(ts.next().unwrap(), Some(Token::Number(num(34.0))));
    assert_eq!(ts.next().unwrap(), None);
}

#[test]
fn test_put_back_is_returned_first() {
    let mut ts = TokenStream::new("7".as_bytes());
    ts.put_back(Token::Symbol('+'));
    assert_eq!(ts.next().unwrap(), Some(Token::Symbol('+')));
    assert_eq!(ts.next().unwrap(), Some(Token::Number(num(7.0))));
}

#[test]
fn test_discard_invalid_stops_at_semicolon() {
    let mut ts = TokenStream::new("1 + + ; 2".as_bytes());
    assert_eq!(ts.next().unwrap(), Some(Token::Number(num(1.0))));
    ts.discard_invalid();
    assert_eq!(ts.next().unwrap(), Some(Token::EndStatement));
    assert_eq!(ts.next().unwrap(), Some(Token::Number(num(2.0))));
}

#[test]
fn test_next_with_empty_exponent() {
    TestCase::input("5e").expect_err(TokenizationError::InvalidNumber("5e".to_string()));
}

#[test]
fn test_next_with_signed_empty_exponent() {
    TestCase::input("5e+").expect_err(TokenizationError::InvalidNumber("5e+".to_string()));
}
