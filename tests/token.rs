use lox::token::{try_get_keyword, Token, TokenType};

#[test]
fn test_token() {
    let t = Token::new(TokenType::LEFT_PAREN, &[40], "null".into(), 0);

    println!("{}", String::from_utf8_lossy(&t.to_text()));
    assert_eq!(t.to_text(), b"LEFT_PAREN ( null".to_vec());
}

#[test]
fn keywords_are_looked_up() {
    assert_eq!(try_get_keyword(b"while"), Some(TokenType::WHILE));
    assert_eq!(try_get_keyword(b"and"), Some(TokenType::AND));
    assert_eq!(try_get_keyword(b"nil"), Some(TokenType::NIL));
    assert_eq!(try_get_keyword(b"whilst"), None);
    assert_eq!(try_get_keyword(b""), None);
}
