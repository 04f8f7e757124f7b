//! Splitting source text into tokens.

use vstd::prelude::*;

use std::ops::Range;

use crate::decimal::Decimal;
use crate::token::{plain_index, Token};

verus! {

/// Whether a character has the Unicode property XID_Start.
pub uninterp spec fn xid_start(c: char) -> bool;

/// Whether a character has the Unicode property XID_Continue.
pub uninterp spec fn xid_continue(c: char) -> bool;

/// What rust_decimal's `FromStr` makes of a numeric literal.
pub uninterp spec fn parsed_decimal_of(text: Seq<char>) -> Option<Decimal>;

/// A token as the contracts see it.
pub enum TokenView {
    /// A token without payload, by the index of its variant.
    Plain(int),
    Ident(Seq<char>),
    Number(Decimal),
    Error(Seq<char>),
}

pub open spec fn token_view(t: Token) -> TokenView {
    match t {
        Token::Unit(s) => TokenView::Ident(s@),
        Token::Num(d) => TokenView::Number(d),
        Token::LexErr(s) => TokenView::Error(s@),
        _ => TokenView::Plain(plain_index(t)),
    }
}

pub open spec fn lexed_view(out: Seq<(Token, Range<usize>)>) -> Seq<(TokenView, int, int)> {
    out.map_values(|p: (Token, Range<usize>)| (token_view(p.0), p.1.start as int, p.1.end as int))
}

pub open spec fn is_blank(c: char) -> bool {
    c == ' ' || c == '\t' || c == '\x0C'
}

pub open spec fn is_digit(c: char) -> bool {
    '0' <= c && c <= '9'
}

/// Bytes that UTF-8 takes for a character.
pub open spec fn utf8_len(c: char) -> int {
    if (c as u32) < 0x80 {
        1
    } else if (c as u32) < 0x800 {
        2
    } else if (c as u32) < 0x10000 {
        3
    } else {
        4
    }
}

/// Byte offset of the character at index `i`.
pub open spec fn byte_offset(s: Seq<char>, i: int) -> int
    decreases i,
{
    if i <= 0 || i > s.len() {
        0
    } else {
        byte_offset(s, i - 1) + utf8_len(s[i - 1])
    }
}

/// End of the run of XID_Continue characters from `j`.
pub open spec fn ident_end(s: Seq<char>, j: int) -> int
    decreases s.len() - j,
{
    if 0 <= j < s.len() && xid_continue(s[j]) {
        ident_end(s, j + 1)
    } else {
        j
    }
}

/// End of the run of ASCII digits from `j`.
pub open spec fn digits_end(s: Seq<char>, j: int) -> int
    decreases s.len() - j,
{
    if 0 <= j < s.len() && is_digit(s[j]) {
        digits_end(s, j + 1)
    } else {
        j
    }
}

/// End of the numeric literal at `i`: digits, then a point and digits if
/// a digit follows the point.
pub open spec fn number_end(s: Seq<char>, i: int) -> int {
    let d = digits_end(s, i);
    if d + 1 < s.len() && s[d] == '.' && is_digit(s[d + 1]) {
        digits_end(s, d + 1)
    } else {
        d
    }
}

/// An operator that may be followed by `=`: the bare operator, else the
/// compound assignment.
pub open spec fn operator(s: Seq<char>, i: int, bare: int, compound: int) -> (TokenView, int) {
    if i + 1 < s.len() && s[i + 1] == '=' {
        (TokenView::Plain(compound), i + 2)
    } else {
        (TokenView::Plain(bare), i + 1)
    }
}

pub open spec fn word_token(text: Seq<char>) -> TokenView {
    if text == "def"@ {
        TokenView::Plain(15)
    } else if text == "if"@ {
        TokenView::Plain(16)
    } else if text == "else"@ {
        TokenView::Plain(17)
    } else {
        TokenView::Ident(text)
    }
}

pub open spec fn number_token(text: Seq<char>) -> TokenView {
    match parsed_decimal_of(text) {
        Some(d) => TokenView::Number(d),
        None => TokenView::Error(text),
    }
}

/// The longest token that starts at `i` (not a blank) and where it ends.
pub open spec fn scan(s: Seq<char>, i: int) -> (TokenView, int) {
    let c = s[i];
    if c == '*' {
        operator(s, i, 0, 8)
    } else if c == '/' {
        operator(s, i, 1, 9)
    } else if c == '+' {
        operator(s, i, 2, 6)
    } else if c == '-' {
        operator(s, i, 3, 7)
    } else if c == '^' {
        operator(s, i, 4, 10)
    } else if c == '=' {
        (TokenView::Plain(5), i + 1)
    } else if c == '(' {
        (TokenView::Plain(11), i + 1)
    } else if c == ')' {
        (TokenView::Plain(12), i + 1)
    } else if c == '{' {
        (TokenView::Plain(13), i + 1)
    } else if c == '}' {
        (TokenView::Plain(14), i + 1)
    } else if c == ';' || c == '\n' {
        (TokenView::Plain(18), i + 1)
    } else if is_digit(c) {
        let j = number_end(s, i);
        (number_token(s.subrange(i, j)), j)
    } else if xid_start(c) {
        let j = ident_end(s, i + 1);
        (word_token(s.subrange(i, j)), j)
    } else {
        (TokenView::Error(seq![c]), i + 1)
    }
}

/// The tokens from index `i` on, with their byte ranges; blanks are skipped.
pub open spec fn lex_from(s: Seq<char>, i: int) -> Seq<(TokenView, int, int)>
    decreases s.len() - i,
{
    if i < 0 || i >= s.len() {
        Seq::empty()
    } else if is_blank(s[i]) {
        lex_from(s, i + 1)
    } else {
        let (t, j) = scan(s, i);
        if i < j <= s.len() {
            seq![(t, byte_offset(s, i), byte_offset(s, j))] + lex_from(s, j)
        } else {
            Seq::empty()
        }
    }
}

/// Relies on unicode_ident::is_xid_start.
#[verifier::external_body]
fn is_xid_start(c: char) -> (r: bool)
    ensures
        r == xid_start(c),
{
    unicode_ident::is_xid_start(c)
}

/// Relies on unicode_ident::is_xid_continue.
#[verifier::external_body]
fn is_xid_continue(c: char) -> (r: bool)
    ensures
        r == xid_continue(c),
{
    unicode_ident::is_xid_continue(c)
}

/// Relies on rust_decimal's `FromStr for Decimal`; every value it returns
/// has a 96-bit mantissa and a scale of at most 28.
#[verifier::external_body]
fn parse_decimal(text: &str) -> (r: Option<Decimal>)
    ensures
        r == parsed_decimal_of(text@),
        r.is_some() ==> r.unwrap().wf(),
{
    <rust_decimal::Decimal as std::str::FromStr>::from_str(text).ok().map(
        |d| Decimal { mantissa: d.mantissa(), scale: d.scale() },
    )
}

/// Relies on std's `str::chars`: the characters of the text, in order.
#[verifier::external_body]
fn chars_of(s: &str) -> (r: Vec<char>)
    ensures
        r@ == s@,
{
    s.chars().collect()
}

fn char_width(c: char) -> (r: usize)
    ensures
        r == utf8_len(c),
{
    let v = c as u32;
    if v < 0x80 {
        1
    } else if v < 0x800 {
        2
    } else if v < 0x10000 {
        3
    } else {
        4
    }
}

fn is_blank_char(c: char) -> (r: bool)
    ensures
        r == is_blank(c),
{
    c == ' ' || c == '\t' || c == '\x0C'
}

fn is_digit_char(c: char) -> (r: bool)
    ensures
        r == is_digit(c),
{
    '0' <= c && c <= '9'
}

fn digits_from(chars: &Vec<char>, start: usize) -> (r: usize)
    requires
        start <= chars@.len(),
    ensures
        r == digits_end(chars@, start as int),
        start <= r <= chars@.len(),
{
    let mut j = start;
    while j < chars.len() && is_digit_char(chars[j])
        invariant
            start <= j <= chars@.len(),
            digits_end(chars@, j as int) == digits_end(chars@, start as int),
        decreases chars@.len() - j,
    {
        j = j + 1;
    }
    j
}

fn ident_from(chars: &Vec<char>, start: usize) -> (r: usize)
    requires
        start <= chars@.len(),
    ensures
        r == ident_end(chars@, start as int),
        start <= r <= chars@.len(),
{
    let mut j = start;
    while j < chars.len() && is_xid_continue(chars[j])
        invariant
            start <= j <= chars@.len(),
            ident_end(chars@, j as int) == ident_end(chars@, start as int),
        decreases chars@.len() - j,
    {
        j = j + 1;
    }
    j
}

fn operator_at(chars: &Vec<char>, i: usize, bare: Token, compound: Token) -> (r: (Token, usize))
    requires
        i < chars@.len(),
        chars@.len() <= usize::MAX / 4,
        plain_index(bare) >= 0,
        plain_index(compound) >= 0,
    ensures
        (token_view(r.0), r.1 as int) == operator(
            chars@,
            i as int,
            plain_index(bare),
            plain_index(compound),
        ),
        i < r.1 <= chars@.len(),
{
    if i + 1 < chars.len() && chars[i + 1] == '=' {
        (compound, i + 2)
    } else {
        (bare, i + 1)
    }
}

/// The token at `i` and where it ends, as `scan` says.
fn scan_at(source: &str, chars: &Vec<char>, i: usize) -> (r: (Token, usize))
    requires
        chars@ == source@,
        i < chars@.len(),
        chars@.len() <= usize::MAX / 4,
    ensures
        (token_view(r.0), r.1 as int) == scan(chars@, i as int),
        i < r.1 <= chars@.len(),
        r.0.wf(),
{
    let c = chars[i];
    if c == '*' {
        operator_at(chars, i, Token::Mul, Token::MulAssign)
    } else if c == '/' {
        operator_at(chars, i, Token::Div, Token::DivAssign)
    } else if c == '+' {
        operator_at(chars, i, Token::Add, Token::AddAssign)
    } else if c == '-' {
        operator_at(chars, i, Token::Sub, Token::SubAssign)
    } else if c == '^' {
        operator_at(chars, i, Token::Pow, Token::PowAssign)
    } else if c == '=' {
        (Token::Assign, i + 1)
    } else if c == '(' {
        (Token::LParen, i + 1)
    } else if c == ')' {
        (Token::RParen, i + 1)
    } else if c == '{' {
        (Token::LCurly, i + 1)
    } else if c == '}' {
        (Token::RCurly, i + 1)
    } else if c == ';' || c == '\n' {
        (Token::NL, i + 1)
    } else if is_digit_char(c) {
        assert(digits_end(chars@, i as int) == digits_end(chars@, i + 1));
        let d = digits_from(chars, i + 1);
        let j = if d + 1 < chars.len() && chars[d] == '.' && is_digit_char(chars[d + 1]) {
            digits_from(chars, d + 1)
        } else {
            d
        };
        let text = source.substring_char(i, j);
        match parse_decimal(text) {
            Some(v) => (Token::Num(v), j),
            None => (Token::LexErr(String::from_str(text)), j),
        }
    } else if is_xid_start(c) {
        let j = ident_from(chars, i + 1);
        let text = String::from_str(source.substring_char(i, j));
        let kw_def = String::from_str("def");
        let kw_if = String::from_str("if");
        let kw_else = String::from_str("else");
        if text == kw_def {
            (Token::Def, j)
        } else if text == kw_if {
            (Token::If, j)
        } else if text == kw_else {
            (Token::Else, j)
        } else {
            (Token::Unit(text), j)
        }
    } else {
        let text = String::from_str(source.substring_char(i, i + 1));
        assert(text@ =~= seq![c]);
        (Token::LexErr(text), i + 1)
    }
}

proof fn lemma_byte_offset_bound(s: Seq<char>, i: int)
    requires
        0 <= i <= s.len(),
    ensures
        0 <= byte_offset(s, i) <= 4 * i,
    decreases i,
{
    if i > 0 {
        lemma_byte_offset_bound(s, i - 1);
    }
}

/// Splits source text into tokens with their byte ranges. Blanks (space,
/// tab, form feed) are skipped; text that no rule matches becomes a
/// `LexErr` token and the scan goes on after it.
pub fn lex(source: &str) -> (r: Vec<(Token, Range<usize>)>)
    requires
        source@.len() <= usize::MAX / 4,
    ensures
        lexed_view(r@) == lex_from(source@, 0),
        forall|k: int| 0 <= k < r@.len() ==> (#[trigger] r@[k]).0.wf(),
{
    let chars = chars_of(source);
    let n = chars.len();
    let mut out: Vec<(Token, Range<usize>)> = Vec::new();
    let mut i: usize = 0;
    let mut b: usize = 0;
    while i < n
        invariant
            n == chars@.len(),
            chars@ == source@,
            n <= usize::MAX / 4,
            i <= n,
            b == byte_offset(source@, i as int),
            lexed_view(out@) + lex_from(source@, i as int) == lex_from(source@, 0),
            forall|k: int| 0 <= k < out@.len() ==> (#[trigger] out@[k]).0.wf(),
        decreases n - i,
    {
        proof {
            lemma_byte_offset_bound(source@, i as int);
        }
        let c = chars[i];
        if is_blank_char(c) {
            b = b + char_width(c);
            i = i + 1;
        } else {
            let (tok, j) = scan_at(source, &chars, i);
            let ghost tv = token_view(tok);
            let mut bj = b;
            let mut k = i;
            while k < j
                invariant
                    i <= k <= j <= n,
                    n == chars@.len(),
                    chars@ == source@,
                    n <= usize::MAX / 4,
                    bj == byte_offset(source@, k as int),
                decreases j - k,
            {
                proof {
                    lemma_byte_offset_bound(source@, k + 1);
                }
                bj = bj + char_width(chars[k]);
                k = k + 1;
            }
            let ghost out0 = out@;
            let item = (tok, b..bj);
            out.push(item);
            proof {
                assert(lexed_view(out@) =~= lexed_view(out0).push(
                    (tv, byte_offset(source@, i as int), byte_offset(source@, j as int)),
                ));
                assert(lex_from(source@, i as int) == seq![
                    (tv, byte_offset(source@, i as int), byte_offset(source@, j as int)),
                ] + lex_from(source@, j as int));
                assert(lexed_view(out@) + lex_from(source@, j as int) =~= lexed_view(out0)
                    + lex_from(source@, i as int));
            }
            i = j;
            b = bj;
        }
    }
    assert(lexed_view(out@) =~= lexed_view(out@) + lex_from(source@, n as int));
    out
}

} // verus!
