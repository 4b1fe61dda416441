use calculator::lexer::{Lexer, Token};

#[test]
fn test_empty() {
    let source = "";
    let mut lexer = Lexer::new(&source);
    assert!(lexer.next().is_none());
}

#[test]
fn test_empty_whitespace() {
    let source = " \t\r\n ";
    let mut lexer = Lexer::new(&source);
    assert!(lexer.next().is_none());
}

#[test]
fn test_simple_token() {
    let source = "!";
    let mut lexer = Lexer::new(&source);
    assert_eq!(lexer.next().unwrap().0, Token::Not);
    assert!(lexer.next().is_none());
}

#[test]
fn test_combined_token() {
    let source = "!=";
    let mut lexer = Lexer::new(&source);
    assert_eq!(lexer.next().unwrap().0, Token::Ne);
    assert!(lexer.next().is_none());
}

#[test]
fn test_number_token() {
    let source = "234";
    let mut lexer = Lexer::new(&source);
    assert_eq!(lexer.next().unwrap().0, Token::Int(234));
    assert!(lexer.next().is_none());
}

#[test]
fn test_multiple_tokens() {
    let source = "(1 + 2) - 3";
    let mut lexer = Lexer::new(&source);
    assert_eq!(lexer.next().unwrap().0, Token::LParen);
    assert_eq!(lexer.next().unwrap().0, Token::Int(1));
    assert_eq!(lexer.next().unwrap().0, Token::Add);
    assert_eq!(lexer.next().unwrap().0, Token::Int(2));
    assert_eq!(lexer.next().unwrap().0, Token::RParen);
    assert_eq!(lexer.next().unwrap().0, Token::Sub);
    assert_eq!(lexer.next().unwrap().0, Token::Int(3));
    assert!(lexer.next().is_none());
}

#[test]
fn test_unexpected_character() {
    let source = "#";
    let mut lexer = Lexer::new(&source);
    assert_eq!(lexer.next().unwrap().0, Token::Unexpected('#'));
    assert!(lexer.next().is_none());
}

#[test]
fn test_single_equals_is_unexpected() {
    let source = "=";
    let mut lexer = Lexer::new(&source);
    assert_eq!(lexer.next().unwrap().0, Token::Unexpected('='));
    assert!(lexer.next().is_none());
}

#[test]
fn test_token_locations() {
    let source = " 12 ==";
    let mut lexer = Lexer::new(&source);
    let (token, loc) = lexer.next().unwrap();
    assert_eq!(token, Token::Int(12));
    assert_eq!(loc.line_start, 1);
    assert_eq!(loc.line_end, 1);
    assert_eq!(loc.col_start, 2);
    assert_eq!(loc.col_end, 4);
    let (token, loc) = lexer.next().unwrap();
    assert_eq!(token, Token::Eq);
    assert_eq!(loc.col_start, 5);
    assert_eq!(loc.col_end, 7);
    assert!(lexer.next().is_none());
}

#[test]
fn test_newline_advances_line() {
    let source = "1\n 2";
    let mut lexer = Lexer::new(&source);
    let (_, loc) = lexer.next().unwrap();
    assert_eq!(loc.line_start, 1);
    let (token, loc) = lexer.next().unwrap();
    assert_eq!(token, Token::Int(2));
    assert_eq!(loc.line_start, 2);
    assert_eq!(loc.col_start, 2);
    assert_eq!(loc.col_end, 3);
    assert!(lexer.next().is_none());
}

#[test]
fn test_literal_saturates_at_u32_max() {
    let mut lexer = Lexer::new("4294967295");
    assert_eq!(lexer.next().unwrap().0, Token::Int(u32::MAX));
    let mut lexer = Lexer::new("4294967296");
    assert_eq!(lexer.next().unwrap().0, Token::Int(u32::MAX));
    let mut lexer = Lexer::new("99999999999999999999");
    assert_eq!(lexer.next().unwrap().0, Token::Int(u32::MAX));
}
