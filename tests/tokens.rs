use unitlang::decimal::Decimal;
use unitlang::token::Token;

#[test]
fn token_text() {
    assert_eq!(Token::Mul.to_text(), "*");
    assert_eq!(Token::PowAssign.to_text(), "^=");
    assert_eq!(Token::Else.to_text(), "else");
    assert_eq!(Token::Unit("m".to_string()).to_text(), "UNIT");
    assert_eq!(Token::Num(Decimal::from_int(3)).to_text(), "NUM");
    assert_eq!(Token::NL.to_text(), "(\\n or ;)");
    assert_eq!(Token::LexErr("$".to_string()).to_text(), "Lexer Error: $");
}

#[test]
fn token_equality() {
    assert!(Token::Num(Decimal::new(10, 1)) == Token::Num(Decimal::from_int(1)));
    assert!(Token::Unit("m".to_string()) != Token::Unit("s".to_string()));
    assert!(Token::Add != Token::Sub);
    assert!(Token::NL == Token::NL);
}
