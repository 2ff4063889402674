//! The lexical grammar, as spec functions over the source text.
//!
//! At each position the longest match wins; on equal length a reserved word, a type
//! name or a boolean beats an identifier.
use vstd::prelude::*;
use crate::token::{Keywords, LiteralV, Operator, TokenV, TypeV};

verus! {

pub open spec fn is_letter(c: char) -> bool {
    ('a' <= c && c <= 'z') || ('A' <= c && c <= 'Z')
}

pub open spec fn is_digit(c: char) -> bool {
    '0' <= c && c <= '9'
}

/// `s[i]` exists and is `c`.
pub open spec fn at(s: Seq<char>, i: int, c: char) -> bool {
    0 <= i < s.len() && s[i] == c
}

pub open spec fn digit_at(s: Seq<char>, i: int) -> bool {
    0 <= i < s.len() && is_digit(s[i])
}

/// Length of the run of letters that starts at `i`.
pub open spec fn letters(s: Seq<char>, i: int) -> nat
    decreases s.len() - i,
{
    if 0 <= i < s.len() && is_letter(s[i]) {
        1 + letters(s, i + 1)
    } else {
        0
    }
}

/// Length of the run of decimal digits that starts at `i`.
pub open spec fn digits(s: Seq<char>, i: int) -> nat
    decreases s.len() - i,
{
    if digit_at(s, i) {
        1 + digits(s, i + 1)
    } else {
        0
    }
}

/// Number of characters from `i` on before the next `q` (or the end).
pub open spec fn until(s: Seq<char>, i: int, q: char) -> nat
    decreases s.len() - i,
{
    if 0 <= i < s.len() && s[i] != q {
        1 + until(s, i + 1, q)
    } else {
        0
    }
}

/// Length of `[eE][+-]?[0-9]+` at `j`, or 0.
pub open spec fn exponent_len(s: Seq<char>, j: int) -> nat {
    if at(s, j, 'e') || at(s, j, 'E') {
        let k = if at(s, j + 1, '+') || at(s, j + 1, '-') { j + 2 } else { j + 1 };
        if digits(s, k) > 0 { ((k - j) + digits(s, k)) as nat } else { 0 }
    } else {
        0
    }
}

/// Length of the longest match of
/// `[0-9]*\.[0-9]+([eE][+-]?[0-9]+)?|[0-9]+[eE][+-]?[0-9]+` at `i`, or 0.
pub open spec fn float_len(s: Seq<char>, i: int) -> nat {
    let a = digits(s, i);
    if at(s, i + a, '.') && digits(s, i + a + 1) > 0 {
        let b = a + 1 + digits(s, i + a + 1);
        b + exponent_len(s, i + b)
    } else if a > 0 && exponent_len(s, i + a) > 0 {
        a + exponent_len(s, i + a)
    } else {
        0
    }
}

pub open spec fn digit_value(c: char) -> nat {
    if is_digit(c) { ((c as int) - ('0' as int)) as nat } else { 0 }
}

/// The number that a string of decimal digits denotes.
pub open spec fn digits_value(d: Seq<char>) -> nat
    decreases d.len(),
{
    if d.len() == 0 {
        0
    } else {
        digits_value(d.drop_last()) * 10 + digit_value(d.last())
    }
}

pub open spec fn pow10(n: nat) -> nat
    decreases n,
{
    if n == 0 { 1 } else { 10 * pow10((n - 1) as nat) }
}

/// The largest finite 32-bit float, exactly.
pub open spec fn f32_max() -> nat {
    340282346638528859811704183484516925440
}

/// The parts of a float literal's text: integer digits, fraction digits, signed exponent.
pub open spec fn float_int_part(t: Seq<char>) -> Seq<char> {
    t.take(digits(t, 0) as int)
}

pub open spec fn float_frac_part(t: Seq<char>) -> Seq<char> {
    let a = digits(t, 0) as int;
    if at(t, a, '.') { t.subrange(a + 1, a + 1 + digits(t, a + 1)) } else { Seq::empty() }
}

pub open spec fn float_exponent(t: Seq<char>) -> int {
    let a = digits(t, 0) as int;
    let r = if at(t, a, '.') { a + 1 + digits(t, a + 1) } else { a };
    if !(at(t, r, 'e') || at(t, r, 'E')) {
        0
    } else if at(t, r + 1, '-') {
        -digits_value(t.subrange(r + 2, r + 2 + digits(t, r + 2)))
    } else if at(t, r + 1, '+') {
        digits_value(t.subrange(r + 2, r + 2 + digits(t, r + 2))) as int
    } else {
        digits_value(t.subrange(r + 1, r + 1 + digits(t, r + 1))) as int
    }
}

/// Whether `m * 10^e` is larger than the largest 32-bit float.
pub open spec fn exceeds_at(m: nat, e: int) -> bool {
    if e >= 0 {
        m * pow10(e as nat) > f32_max()
    } else {
        m > f32_max() * pow10((-e) as nat)
    }
}

/// Whether the decimal number written `t` is larger than the largest 32-bit float.
pub open spec fn exceeds_f32(t: Seq<char>) -> bool {
    exceeds_at(
        digits_value(float_int_part(t) + float_frac_part(t)),
        float_exponent(t) - float_frac_part(t).len(),
    )
}

pub open spec fn float_token(t: Seq<char>) -> TokenV {
    if exceeds_f32(t) {
        TokenV::Literal(LiteralV::Double(t))
    } else {
        TokenV::Literal(LiteralV::Float(t))
    }
}

/// An integer literal of value `v`: 32-bit when it fits, else 64-bit, else no token.
pub open spec fn int_token(v: int) -> TokenV {
    if i32::MIN <= v <= i32::MAX {
        TokenV::Literal(LiteralV::Integer(v as i32))
    } else if i64::MIN <= v <= i64::MAX {
        TokenV::Literal(LiteralV::Long(v as i64))
    } else {
        TokenV::Error
    }
}

pub open spec fn keyword_spelling(k: Keywords) -> Seq<char> {
    match k {
        Keywords::Let => seq!['l', 'e', 't'],
        Keywords::If => seq!['i', 'f'],
        Keywords::Else => seq!['e', 'l', 's', 'e'],
        Keywords::Func => seq!['f', 'u', 'n', 'c'],
        Keywords::Return => seq!['r', 'e', 't', 'u', 'r', 'n'],
        Keywords::While => seq!['w', 'h', 'i', 'l', 'e'],
    }
}

/// The token of a maximal run of letters.
pub open spec fn word_token(w: Seq<char>) -> TokenV {
    if w == keyword_spelling(Keywords::Let) {
        TokenV::Keyword(Keywords::Let)
    } else if w == keyword_spelling(Keywords::If) {
        TokenV::Keyword(Keywords::If)
    } else if w == keyword_spelling(Keywords::Else) {
        TokenV::Keyword(Keywords::Else)
    } else if w == keyword_spelling(Keywords::Func) {
        TokenV::Keyword(Keywords::Func)
    } else if w == keyword_spelling(Keywords::Return) {
        TokenV::Keyword(Keywords::Return)
    } else if w == keyword_spelling(Keywords::While) {
        TokenV::Keyword(Keywords::While)
    } else if w == seq!['s', 't', 'r', 'i', 'n', 'g'] {
        TokenV::Type(TypeV::String)
    } else if w == seq!['c', 'h', 'a', 'r'] {
        TokenV::Type(TypeV::Char)
    } else if w == seq!['b', 'o', 'o', 'l'] {
        TokenV::Type(TypeV::Boolean)
    } else if w == seq!['t', 'r', 'u', 'e'] {
        TokenV::Literal(LiteralV::Boolean(true))
    } else if w == seq!['f', 'a', 'l', 's', 'e'] {
        TokenV::Literal(LiteralV::Boolean(false))
    } else {
        TokenV::Identifier(w)
    }
}

/// A type name made of one letter and a bit width (`i8` .. `f64`) at `i`.
pub open spec fn sized_type_at(s: Seq<char>, i: int) -> Option<(TypeV, nat)> {
    let c = s[i];
    if c != 'i' && c != 'u' && c != 'f' {
        None
    } else if at(s, i + 1, '8') && c != 'f' {
        Some((if c == 'i' { TypeV::I8 } else { TypeV::U8 }, 2))
    } else if at(s, i + 1, '1') && at(s, i + 2, '6') && c != 'f' {
        Some((if c == 'i' { TypeV::I16 } else { TypeV::U16 }, 3))
    } else if at(s, i + 1, '3') && at(s, i + 2, '2') {
        Some((if c == 'i' { TypeV::I32 } else if c == 'u' { TypeV::U32 } else { TypeV::F32 }, 3))
    } else if at(s, i + 1, '6') && at(s, i + 2, '4') {
        Some((if c == 'i' { TypeV::I64 } else if c == 'u' { TypeV::U64 } else { TypeV::F64 }, 3))
    } else {
        None
    }
}

/// Punctuation, operators, line breaks and blanks at `i`; anything else is an error.
pub open spec fn symbol_at(s: Seq<char>, i: int) -> (TokenV, nat) {
    let c = s[i];
    if c == '=' {
        if at(s, i + 1, '=') { (TokenV::Operator(Operator::EQUAL), 2) } else { (TokenV::Operator(Operator::ASSIGNMENT), 1) }
    } else if c == '!' {
        if at(s, i + 1, '=') { (TokenV::Operator(Operator::NOTEQ), 2) } else { (TokenV::Operator(Operator::NOT), 1) }
    } else if c == '&' {
        if at(s, i + 1, '&') { (TokenV::Operator(Operator::AND), 2) } else { (TokenV::Operator(Operator::ADDRESSING), 1) }
    } else if c == '|' {
        if at(s, i + 1, '|') { (TokenV::Operator(Operator::OR), 2) } else { (TokenV::Error, 1) }
    } else if c == ':' {
        if at(s, i + 1, ':') { (TokenV::Operator(Operator::NAVIGATION), 2) } else { (TokenV::Colon, 1) }
    } else if c == '+' {
        (TokenV::Operator(Operator::ADD), 1)
    } else if c == '*' {
        (TokenV::Operator(Operator::MUL), 1)
    } else if c == '/' {
        (TokenV::Operator(Operator::DIV), 1)
    } else if c == '%' {
        (TokenV::Operator(Operator::MOD), 1)
    } else if c == '<' {
        (TokenV::Operator(Operator::LT), 1)
    } else if c == '>' {
        (TokenV::Operator(Operator::GT), 1)
    } else if c == ',' {
        (TokenV::Comma, 1)
    } else if c == ';' {
        (TokenV::Semicolon, 1)
    } else if c == '@' {
        (TokenV::AtSign, 1)
    } else if c == '(' {
        (TokenV::LParen, 1)
    } else if c == ')' {
        (TokenV::RParen, 1)
    } else if c == '{' {
        (TokenV::LBrace, 1)
    } else if c == '}' {
        (TokenV::RBrace, 1)
    } else if c == '\n' {
        (TokenV::Line, 1)
    } else if c == ' ' || c == '\t' || c == '\x0c' {
        (TokenV::Space, 1)
    } else {
        (TokenV::Error, 1)
    }
}

/// The token that starts at `i` (`0 <= i < s.len()`) and the number of characters it spans.
pub open spec fn lex_at(s: Seq<char>, i: int) -> (TokenV, nat) {
    let c = s[i];
    if is_letter(c) {
        match sized_type_at(s, i) {
            Some((t, n)) => (TokenV::Type(t), n),
            None => (word_token(s.subrange(i, i + letters(s, i))), letters(s, i)),
        }
    } else if is_digit(c) || c == '.' {
        let f = float_len(s, i);
        if f > 0 {
            (float_token(s.subrange(i, i + f)), f)
        } else if c == '.' {
            (TokenV::Dot, 1)
        } else {
            (int_token(digits_value(s.subrange(i, i + digits(s, i))) as int), digits(s, i))
        }
    } else if c == '-' {
        if digit_at(s, i + 1) {
            (int_token(-digits_value(s.subrange(i + 1, i + 1 + digits(s, i + 1)))), 1 + digits(s, i + 1))
        } else if at(s, i + 1, '>') {
            (TokenV::Operator(Operator::ARROW), 2)
        } else {
            (TokenV::Operator(Operator::SUB), 1)
        }
    } else if c == '"' {
        let n = until(s, i + 1, '"');
        if i + 1 + n < s.len() {
            (TokenV::Literal(LiteralV::String(s.subrange(i + 1, i + 1 + n))), n + 2)
        } else {
            (TokenV::Error, 1)
        }
    } else if c == '\'' {
        let n = until(s, i + 1, '\'');
        if i + 1 + n < s.len() && n > 0 {
            (TokenV::Literal(LiteralV::Char(s[i + 1])), n + 2)
        } else {
            (TokenV::Error, 1)
        }
    } else {
        symbol_at(s, i)
    }
}

/// The whole text as tokens with their widths, from position `i` on.
pub open spec fn scan(s: Seq<char>, i: int) -> Seq<(TokenV, nat)>
    decreases s.len() - i,
{
    if i < 0 || i >= s.len() {
        Seq::empty()
    } else {
        let r = lex_at(s, i);
        if r.1 == 0 || i + r.1 > s.len() {
            Seq::empty()
        } else {
            seq![r] + scan(s, i + r.1)
        }
    }
}

} // verus!
