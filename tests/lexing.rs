use unitlang::decimal::Decimal;
use unitlang::lexer::lex;
use unitlang::token::Token;

fn unit(s: &str) -> Token {
    Token::Unit(s.to_string())
}

#[test]
fn lexes_assignment_with_unit() {
    let toks = lex("x = 5 m");
    assert_eq!(
        toks,
        vec![
            (unit("x"), 0..1),
            (Token::Assign, 2..3),
            (Token::Num(Decimal::from_int(5)), 4..5),
            (unit("m"), 6..7),
        ]
    );
}

#[test]
fn lexes_compound_operators() {
    let toks: Vec<Token> = lex("a += b -= c *= d /= e ^= f").into_iter().map(|p| p.0).collect();
    assert_eq!(
        toks,
        vec![
            unit("a"),
            Token::AddAssign,
            unit("b"),
            Token::SubAssign,
            unit("c"),
            Token::MulAssign,
            unit("d"),
            Token::DivAssign,
            unit("e"),
            Token::PowAssign,
            unit("f"),
        ]
    );
}

#[test]
fn lexes_single_operators_and_grouping() {
    let toks: Vec<Token> = lex("(a*b)/c+d-e^2{}").into_iter().map(|p| p.0).collect();
    assert_eq!(
        toks,
        vec![
            Token::LParen,
            unit("a"),
            Token::Mul,
            unit("b"),
            Token::RParen,
            Token::Div,
            unit("c"),
            Token::Add,
            unit("d"),
            Token::Sub,
            unit("e"),
            Token::Pow,
            Token::Num(Decimal::from_int(2)),
            Token::LCurly,
            Token::RCurly,
        ]
    );
}

#[test]
fn lexes_decimal_literal() {
    let toks = lex("1.25");
    assert_eq!(toks, vec![(Token::Num(Decimal::new(125, 2)), 0..4)]);
    if let Token::Num(d) = &toks[0].0 {
        assert_eq!(d.mantissa, 125);
        assert_eq!(d.scale, 2);
    } else {
        panic!("not a number");
    }
}

#[test]
fn point_without_digits_is_an_error() {
    let toks = lex("1.");
    assert_eq!(
        toks,
        vec![
            (Token::Num(Decimal::from_int(1)), 0..1),
            (Token::LexErr(".".to_string()), 1..2),
        ]
    );
}

#[test]
fn keywords_and_identifiers() {
    let toks: Vec<Token> = lex("def if else define iffy").into_iter().map(|p| p.0).collect();
    assert_eq!(
        toks,
        vec![Token::Def, Token::If, Token::Else, unit("define"), unit("iffy")]
    );
}

#[test]
fn newline_and_semicolon_are_separators() {
    let toks = lex("a;b\nc");
    assert_eq!(
        toks,
        vec![
            (unit("a"), 0..1),
            (Token::NL, 1..2),
            (unit("b"), 2..3),
            (Token::NL, 3..4),
            (unit("c"), 4..5),
        ]
    );
}

#[test]
fn blanks_are_skipped() {
    let toks = lex(" \t\u{c}m");
    assert_eq!(toks, vec![(unit("m"), 3..4)]);
    assert!(lex("").is_empty());
    assert!(lex("   ").is_empty());
}

#[test]
fn unicode_identifiers_with_byte_ranges() {
    let toks = lex("µs Ω2");
    assert_eq!(toks, vec![(unit("µs"), 0..3), (unit("Ω2"), 4..7)]);
}

#[test]
fn unmatched_text_becomes_error_tokens() {
    let toks = lex("_a $");
    assert_eq!(
        toks,
        vec![
            (Token::LexErr("_".to_string()), 0..1),
            (unit("a"), 1..2),
            (Token::LexErr("$".to_string()), 3..4),
        ]
    );
}

#[test]
fn identifier_may_hold_digits_after_start() {
    let toks: Vec<Token> = lex("2m m2").into_iter().map(|p| p.0).collect();
    assert_eq!(
        toks,
        vec![Token::Num(Decimal::from_int(2)), unit("m"), unit("m2")]
    );
}
