//! Lexical tokens.

use vstd::prelude::*;

use crate::decimal::{decimal_text_of, Decimal};

verus! {

/// A lexical token.
#[derive(Debug, Clone)]
pub enum Token {
    Mul,
    Div,
    Add,
    Sub,
    Pow,
    Assign,
    AddAssign,
    SubAssign,
    MulAssign,
    DivAssign,
    PowAssign,
    LParen,
    RParen,
    LCurly,
    RCurly,
    Def,
    If,
    Else,
    /// An identifier: a variable or a unit name.
    Unit(String),
    /// A numeric literal.
    Num(Decimal),
    /// A statement separator: a newline or `;`.
    NL,
    /// Text that no rule matches.
    LexErr(String),
}

/// The text that names a token in messages.
pub open spec fn token_text(t: Token) -> Seq<char> {
    match t {
        Token::Mul => "*"@,
        Token::Div => "/"@,
        Token::Add => "+"@,
        Token::Sub => "-"@,
        Token::Pow => "^"@,
        Token::Assign => "="@,
        Token::AddAssign => "+="@,
        Token::SubAssign => "-="@,
        Token::MulAssign => "*="@,
        Token::DivAssign => "/="@,
        Token::PowAssign => "^="@,
        Token::LParen => "("@,
        Token::RParen => ")"@,
        Token::LCurly => "{"@,
        Token::RCurly => "}"@,
        Token::Def => "def"@,
        Token::If => "if"@,
        Token::Else => "else"@,
        Token::Unit(_) => "UNIT"@,
        Token::Num(_) => "NUM"@,
        Token::NL => "(\\n or ;)"@,
        Token::LexErr(msg) => "Lexer Error: "@ + msg@,
    }
}

/// Same variant and payload; numbers compare by value.
pub open spec fn same_token(a: Token, b: Token) -> bool {
    match a {
        Token::Unit(x) => b is Unit && x@ == b->Unit_0@,
        Token::Num(x) => b is Num && x.equals(b->Num_0),
        Token::LexErr(x) => b is LexErr && x@ == b->LexErr_0@,
        Token::Mul => b is Mul,
        Token::Div => b is Div,
        Token::Add => b is Add,
        Token::Sub => b is Sub,
        Token::Pow => b is Pow,
        Token::Assign => b is Assign,
        Token::AddAssign => b is AddAssign,
        Token::SubAssign => b is SubAssign,
        Token::MulAssign => b is MulAssign,
        Token::DivAssign => b is DivAssign,
        Token::PowAssign => b is PowAssign,
        Token::LParen => b is LParen,
        Token::RParen => b is RParen,
        Token::LCurly => b is LCurly,
        Token::RCurly => b is RCurly,
        Token::Def => b is Def,
        Token::If => b is If,
        Token::Else => b is Else,
        Token::NL => b is NL,
    }
}

/// The index of a payload-free token's variant, in declaration order.
pub open spec fn plain_index(t: Token) -> int {
    match t {
        Token::Mul => 0,
        Token::Div => 1,
        Token::Add => 2,
        Token::Sub => 3,
        Token::Pow => 4,
        Token::Assign => 5,
        Token::AddAssign => 6,
        Token::SubAssign => 7,
        Token::MulAssign => 8,
        Token::DivAssign => 9,
        Token::PowAssign => 10,
        Token::LParen => 11,
        Token::RParen => 12,
        Token::LCurly => 13,
        Token::RCurly => 14,
        Token::Def => 15,
        Token::If => 16,
        Token::Else => 17,
        Token::NL => 18,
        _ => -1,
    }
}

impl Token {
    pub open spec fn wf(self) -> bool {
        self matches Token::Num(x) ==> x.wf()
    }

    fn plain_index(&self) -> (r: i32)
        ensures
            r == plain_index(*self),
    {
        match self {
            Token::Mul => 0,
            Token::Div => 1,
            Token::Add => 2,
            Token::Sub => 3,
            Token::Pow => 4,
            Token::Assign => 5,
            Token::AddAssign => 6,
            Token::SubAssign => 7,
            Token::MulAssign => 8,
            Token::DivAssign => 9,
            Token::PowAssign => 10,
            Token::LParen => 11,
            Token::RParen => 12,
            Token::LCurly => 13,
            Token::RCurly => 14,
            Token::Def => 15,
            Token::If => 16,
            Token::Else => 17,
            Token::NL => 18,
            _ => -1,
        }
    }

    /// The token's text: its symbol or keyword, `UNIT` or `NUM` for
    /// identifiers and numbers, and the offending text of a lexical error.
    pub fn to_text(&self) -> (r: String)
        ensures
            r@ == token_text(*self),
    {
        let s = match self {
            Token::Mul => "*",
            Token::Div => "/",
            Token::Add => "+",
            Token::Sub => "-",
            Token::Pow => "^",
            Token::Assign => "=",
            Token::AddAssign => "+=",
            Token::SubAssign => "-=",
            Token::MulAssign => "*=",
            Token::DivAssign => "/=",
            Token::PowAssign => "^=",
            Token::LParen => "(",
            Token::RParen => ")",
            Token::LCurly => "{",
            Token::RCurly => "}",
            Token::Def => "def",
            Token::If => "if",
            Token::Else => "else",
            Token::Unit(_) => "UNIT",
            Token::Num(_) => "NUM",
            Token::NL => "(\\n or ;)",
            Token::LexErr(msg) => {
                let mut r = String::from_str("Lexer Error: ");
                r.append(msg.as_str());
                return r;
            },
        };
        String::from_str(s)
    }
}

impl PartialEq for Token {
    fn eq(&self, other: &Token) -> (r: bool) {
        match (self, other) {
            (Token::Unit(x), Token::Unit(y)) => *x == *y,
            (Token::Num(x), Token::Num(y)) => *x == *y,
            (Token::LexErr(x), Token::LexErr(y)) => *x == *y,
            (Token::Unit(_), _) => false,
            (Token::Num(_), _) => false,
            (Token::LexErr(_), _) => false,
            _ => {
                let i = self.plain_index();
                let j = other.plain_index();
                i == j
            },
        }
    }
}

impl vstd::std_specs::cmp::PartialEqSpecImpl for Token {
    open spec fn obeys_eq_spec() -> bool {
        true
    }

    open spec fn eq_spec(&self, other: &Token) -> bool {
        same_token(*self, *other)
    }
}

} // verus!
