//! The executable scanner: splits text into tokens exactly as the grammar says.
use vstd::prelude::*;
use crate::grammar::{
    at, digit_at, digits, digits_value, exponent_len, float_len, int_token, is_digit, is_letter,
    keyword_spelling, letters, lex_at, scan, sized_type_at, symbol_at, until, word_token,
};
use crate::decimal::exceeds_f32_max;
use crate::text::{string_of, vec_of};
use crate::token::{Keywords, Literal, Operator, Token, TokenV, Type};

verus! {

fn letter(c: char) -> (b: bool)
    ensures
        b == is_letter(c),
{
    ('a' <= c && c <= 'z') || ('A' <= c && c <= 'Z')
}

fn digit(c: char) -> (b: bool)
    ensures
        b == is_digit(c),
{
    '0' <= c && c <= '9'
}

fn char_at(cs: &Vec<char>, i: usize, c: char) -> (b: bool)
    ensures
        b == at(cs@, i as int, c),
{
    i < cs.len() && cs[i] == c
}

fn digit_at_exec(cs: &Vec<char>, i: usize) -> (b: bool)
    ensures
        b == digit_at(cs@, i as int),
{
    i < cs.len() && digit(cs[i])
}

pub fn count_letters(cs: &Vec<char>, i: usize) -> (n: usize)
    ensures
        n == letters(cs@, i as int),
        i <= cs.len() ==> i + n <= cs.len(),
        i > cs.len() ==> n == 0,
{
    let mut j: usize = i;
    while j < cs.len() && letter(cs[j])
        invariant
            i <= j,
            i <= cs.len() ==> j <= cs.len(),
            i > cs.len() ==> j == i,
            letters(cs@, i as int) == (j - i) + letters(cs@, j as int),
        decreases cs.len() - j,
    {
        j = j + 1;
    }
    j - i
}

pub fn count_digits(cs: &Vec<char>, i: usize) -> (n: usize)
    ensures
        n == digits(cs@, i as int),
        i <= cs.len() ==> i + n <= cs.len(),
        i > cs.len() ==> n == 0,
{
    let mut j: usize = i;
    while digit_at_exec(cs, j)
        invariant
            i <= j,
            i <= cs.len() ==> j <= cs.len(),
            i > cs.len() ==> j == i,
            digits(cs@, i as int) == (j - i) + digits(cs@, j as int),
        decreases cs.len() - j,
    {
        j = j + 1;
    }
    j - i
}

pub fn count_until(cs: &Vec<char>, i: usize, q: char) -> (n: usize)
    ensures
        n == until(cs@, i as int, q),
        i <= cs.len() ==> i + n <= cs.len(),
        i > cs.len() ==> n == 0,
{
    let mut j: usize = i;
    while j < cs.len() && cs[j] != q
        invariant
            i <= j,
            i <= cs.len() ==> j <= cs.len(),
            i > cs.len() ==> j == i,
            until(cs@, i as int, q) == (j - i) + until(cs@, j as int, q),
        decreases cs.len() - j,
    {
        j = j + 1;
    }
    j - i
}

fn exponent_len_exec(cs: &Vec<char>, j: usize) -> (n: usize)
    requires
        j <= cs.len(),
    ensures
        n == exponent_len(cs@, j as int),
        j + n <= cs.len(),
{
    if char_at(cs, j, 'e') || char_at(cs, j, 'E') {
        let k: usize = if char_at(cs, j + 1, '+') || char_at(cs, j + 1, '-') { j + 2 } else { j + 1 };
        let d = count_digits(cs, k);
        if d > 0 { (k - j) + d } else { 0 }
    } else {
        0
    }
}

fn float_len_exec(cs: &Vec<char>, i: usize) -> (n: usize)
    requires
        i <= cs.len(),
    ensures
        n == float_len(cs@, i as int),
        i + n <= cs.len(),
{
    let a = count_digits(cs, i);
    if char_at(cs, i + a, '.') && count_digits(cs, i + a + 1) > 0 {
        let b = a + 1 + count_digits(cs, i + a + 1);
        b + exponent_len_exec(cs, i + b)
    } else if a > 0 && exponent_len_exec(cs, i + a) > 0 {
        a + exponent_len_exec(cs, i + a)
    } else {
        0
    }
}

/// The integer literal written with digits `cs[from..to]`, negated when `neg`.
fn int_literal(cs: &Vec<char>, from: usize, to: usize, neg: bool) -> (t: Token)
    requires
        from <= to <= cs.len(),
        forall|k: int| from <= k < to ==> is_digit(#[trigger] cs@[k]),
    ensures
        t@ == int_token(if neg { -digits_value(cs@.subrange(from as int, to as int)) } else {
            digits_value(cs@.subrange(from as int, to as int)) as int
        }),
{
    let mut acc: u64 = 0;
    let mut big = false;
    let mut j: usize = from;
    while j < to
        invariant
            from <= j <= to <= cs.len(),
            forall|k: int| from <= k < to ==> is_digit(#[trigger] cs@[k]),
            !big ==> acc == digits_value(cs@.subrange(from as int, j as int)),
            big ==> digits_value(cs@.subrange(from as int, j as int)) > u64::MAX,
        decreases to - j,
    {
        let ghost prev = digits_value(cs@.subrange(from as int, j as int));
        assert(cs@.subrange(from as int, j + 1).drop_last() =~= cs@.subrange(from as int, j as int));
        assert(is_digit(cs@[j as int]));
        let d = (cs[j] as u32 - '0' as u32) as u64;
        if !big {
            if acc > (u64::MAX - d) / 10 {
                assert(acc * 10 + d > u64::MAX) by (nonlinear_arith)
                    requires
                        acc > (u64::MAX - d) / 10,
                        d <= 9,
                ;
                big = true;
            } else {
                assert(acc * 10 + d <= u64::MAX) by (nonlinear_arith)
                    requires
                        acc <= (u64::MAX - d) / 10,
                        d <= 9,
                ;
                acc = acc * 10 + d;
            }
        }
        j = j + 1;
    }
    if big {
        return Token::Error;
    }
    let v: i128 = if neg { -(acc as i128) } else { acc as i128 };
    if -2147483648 <= v && v <= 2147483647 {
        Token::Literal(Literal::Integer(v as i32))
    } else if -9223372036854775808 <= v && v <= 9223372036854775807 {
        Token::Literal(Literal::Long(v as i64))
    } else {
        Token::Error
    }
}

/// Whether `cs[i..i + n]` is spelled `w`.
fn word_is(cs: &Vec<char>, i: usize, n: usize, w: &str) -> (b: bool)
    requires
        i + n <= cs.len(),
    ensures
        b == (cs@.subrange(i as int, i + n) == w@),
{
    let m = w.unicode_len();
    if m != n {
        return false;
    }
    let mut k: usize = 0;
    while k < n
        invariant
            k <= n == w@.len(),
            i + n <= cs.len(),
            cs@.subrange(i as int, i + k) == w@.take(k as int),
        decreases n - k,
    {
        if cs[i + k] != w.get_char(k) {
            assert(cs@.subrange(i as int, i + n)[k as int] != w@[k as int]);
            return false;
        }
        assert(cs@.subrange(i as int, i + k + 1) =~= w@.take(k + 1));
        k = k + 1;
    }
    assert(cs@.subrange(i as int, i + n) =~= w@);
    true
}

/// The token of the maximal run of letters `cs[i..i + n]`.
fn word(cs: &Vec<char>, i: usize, n: usize) -> (t: Token)
    requires
        i + n <= cs.len(),
    ensures
        t@ == word_token(cs@.subrange(i as int, i + n)),
{
    proof {
        reveal_strlit("let");
        reveal_strlit("if");
        reveal_strlit("else");
        reveal_strlit("func");
        reveal_strlit("return");
        reveal_strlit("while");
        reveal_strlit("string");
        reveal_strlit("char");
        reveal_strlit("bool");
        reveal_strlit("true");
        reveal_strlit("false");
        assert("let"@ =~= keyword_spelling(Keywords::Let));
        assert("if"@ =~= keyword_spelling(Keywords::If));
        assert("else"@ =~= keyword_spelling(Keywords::Else));
        assert("func"@ =~= keyword_spelling(Keywords::Func));
        assert("return"@ =~= keyword_spelling(Keywords::Return));
        assert("while"@ =~= keyword_spelling(Keywords::While));
        assert("string"@ =~= seq!['s', 't', 'r', 'i', 'n', 'g']);
        assert("char"@ =~= seq!['c', 'h', 'a', 'r']);
        assert("bool"@ =~= seq!['b', 'o', 'o', 'l']);
        assert("true"@ =~= seq!['t', 'r', 'u', 'e']);
        assert("false"@ =~= seq!['f', 'a', 'l', 's', 'e']);
    }
    if word_is(cs, i, n, "let") {
        Token::Keyword(Keywords::Let)
    } else if word_is(cs, i, n, "if") {
        Token::Keyword(Keywords::If)
    } else if word_is(cs, i, n, "else") {
        Token::Keyword(Keywords::Else)
    } else if word_is(cs, i, n, "func") {
        Token::Keyword(Keywords::Func)
    } else if word_is(cs, i, n, "return") {
        Token::Keyword(Keywords::Return)
    } else if word_is(cs, i, n, "while") {
        Token::Keyword(Keywords::While)
    } else if word_is(cs, i, n, "string") {
        Token::Type(Type::String)
    } else if word_is(cs, i, n, "char") {
        Token::Type(Type::Char)
    } else if word_is(cs, i, n, "bool") {
        Token::Type(Type::Boolean)
    } else if word_is(cs, i, n, "true") {
        Token::Literal(Literal::Boolean(true))
    } else if word_is(cs, i, n, "false") {
        Token::Literal(Literal::Boolean(false))
    } else {
        Token::Identifier(string_of(cs, i, i + n))
    }
}

fn sized_type(cs: &Vec<char>, i: usize) -> (r: Option<(Type, usize)>)
    requires
        i < cs.len(),
    ensures
        match (r, sized_type_at(cs@, i as int)) {
            (Some((ty, n)), Some((tv, m))) => ty@ == tv && n == m,
            (None, None) => true,
            _ => false,
        },
{
    let c = cs[i];
    if c != 'i' && c != 'u' && c != 'f' {
        None
    } else if char_at(cs, i + 1, '8') && c != 'f' {
        Some((if c == 'i' { Type::I8 } else { Type::U8 }, 2))
    } else if char_at(cs, i + 1, '1') && char_at(cs, i + 2, '6') && c != 'f' {
        Some((if c == 'i' { Type::I16 } else { Type::U16 }, 3))
    } else if char_at(cs, i + 1, '3') && char_at(cs, i + 2, '2') {
        Some((if c == 'i' { Type::I32 } else if c == 'u' { Type::U32 } else { Type::F32 }, 3))
    } else if char_at(cs, i + 1, '6') && char_at(cs, i + 2, '4') {
        Some((if c == 'i' { Type::I64 } else if c == 'u' { Type::U64 } else { Type::F64 }, 3))
    } else {
        None
    }
}

fn op(o: Operator, n: usize) -> (r: (Token, usize))
    ensures
        r.0@ == TokenV::Operator(o),
        r.1 == n,
{
    (Token::Operator(o), n)
}

fn symbol(cs: &Vec<char>, i: usize) -> (r: (Token, usize))
    requires
        i < cs.len(),
    ensures
        r.0@ == symbol_at(cs@, i as int).0,
        r.1 == symbol_at(cs@, i as int).1,
{
    let c = cs[i];
    if c == '=' {
        if char_at(cs, i + 1, '=') { op(Operator::EQUAL, 2) } else { op(Operator::ASSIGNMENT, 1) }
    } else if c == '!' {
        if char_at(cs, i + 1, '=') { op(Operator::NOTEQ, 2) } else { op(Operator::NOT, 1) }
    } else if c == '&' {
        if char_at(cs, i + 1, '&') { op(Operator::AND, 2) } else { op(Operator::ADDRESSING, 1) }
    } else if c == '|' {
        if char_at(cs, i + 1, '|') { op(Operator::OR, 2) } else { (Token::Error, 1) }
    } else if c == ':' {
        if char_at(cs, i + 1, ':') { op(Operator::NAVIGATION, 2) } else { (Token::Colon, 1) }
    } else if c == '+' {
        op(Operator::ADD, 1)
    } else if c == '*' {
        op(Operator::MUL, 1)
    } else if c == '/' {
        op(Operator::DIV, 1)
    } else if c == '%' {
        op(Operator::MOD, 1)
    } else if c == '<' {
        op(Operator::LT, 1)
    } else if c == '>' {
        op(Operator::GT, 1)
    } else if c == ',' {
        (Token::Comma, 1)
    } else if c == ';' {
        (Token::Semicolon, 1)
    } else if c == '@' {
        (Token::AtSign, 1)
    } else if c == '(' {
        (Token::LParen, 1)
    } else if c == ')' {
        (Token::RParen, 1)
    } else if c == '{' {
        (Token::LBrace, 1)
    } else if c == '}' {
        (Token::RBrace, 1)
    } else if c == '\n' {
        (Token::Line, 1)
    } else if c == ' ' || c == '\t' || c == '\x0c' {
        (Token::Space, 1)
    } else {
        (Token::Error, 1)
    }
}

pub proof fn lemma_digit_run(s: Seq<char>, i: int, k: int)
    requires
        0 <= i <= k < i + digits(s, i),
    ensures
        is_digit(s[k]),
    decreases k - i,
{
    if k > i {
        lemma_digit_run(s, i + 1, k);
    }
}

/// The token that starts at `cs[i]`, and how many characters it spans.
pub fn lex_one(cs: &Vec<char>, i: usize) -> (r: (Token, usize))
    requires
        i < cs.len(),
    ensures
        r.0@ == lex_at(cs@, i as int).0,
        r.1 == lex_at(cs@, i as int).1,
        1 <= r.1 <= cs.len() - i,
{
    let c = cs[i];
    if letter(c) {
        match sized_type(cs, i) {
            Some((t, n)) => (Token::Type(t), n),
            None => {
                let n = count_letters(cs, i);
                (word(cs, i, n), n)
            },
        }
    } else if digit(c) || c == '.' {
        let f = float_len_exec(cs, i);
        if f > 0 {
            let text = string_of(cs, i, i + f);
            let piece = vec_of(cs, i, i + f);
            if exceeds_f32_max(&piece) {
                (Token::Literal(Literal::Double(text)), f)
            } else {
                (Token::Literal(Literal::Float(text)), f)
            }
        } else if c == '.' {
            (Token::Dot, 1)
        } else {
            let n = count_digits(cs, i);
            assert forall|k: int| i <= k < i + n implies is_digit(#[trigger] cs@[k]) by {
                lemma_digit_run(cs@, i as int, k);
            }
            (int_literal(cs, i, i + n, false), n)
        }
    } else if c == '-' {
        if digit_at_exec(cs, i + 1) {
            let n = count_digits(cs, i + 1);
            assert forall|k: int| i + 1 <= k < i + 1 + n implies is_digit(#[trigger] cs@[k]) by {
                lemma_digit_run(cs@, i + 1, k);
            }
            (int_literal(cs, i + 1, i + 1 + n, true), n + 1)
        } else if char_at(cs, i + 1, '>') {
            op(Operator::ARROW, 2)
        } else {
            op(Operator::SUB, 1)
        }
    } else if c == '"' {
        let n = count_until(cs, i + 1, '"');
        if i + 1 + n < cs.len() {
            (Token::Literal(Literal::String(string_of(cs, i + 1, i + 1 + n))), n + 2)
        } else {
            (Token::Error, 1)
        }
    } else if c == '\'' {
        let n = count_until(cs, i + 1, '\'');
        if i + 1 + n < cs.len() && n > 0 {
            (Token::Literal(Literal::Char(cs[i + 1])), n + 2)
        } else {
            (Token::Error, 1)
        }
    } else {
        symbol(cs, i)
    }
}

/// The total width of the first `i` tokens.
pub open spec fn width_sum(widths: Seq<usize>, i: int) -> nat
    decreases i,
{
    if i <= 0 || i > widths.len() {
        0
    } else {
        width_sum(widths, i - 1) + widths[i - 1] as nat
    }
}

proof fn lemma_width_sum_prefix(ws: Seq<usize>, n: usize)
    ensures
        forall|k: int| 0 <= k <= ws.len() ==> width_sum(ws.push(n), k) == width_sum(ws, k),
{
    assert forall|k: int| 0 <= k <= ws.len() implies width_sum(ws.push(n), k) == width_sum(ws, k) by {
        lemma_width_sum_prefix_at(ws, n, k);
    }
}

proof fn lemma_width_sum_prefix_at(ws: Seq<usize>, n: usize, k: int)
    requires
        0 <= k <= ws.len(),
    ensures
        width_sum(ws.push(n), k) == width_sum(ws, k),
    decreases k,
{
    if k > 0 {
        lemma_width_sum_prefix_at(ws, n, k - 1);
    }
}

/// Tokens paired with their widths, as views.
pub open spec fn pairs(toks: Seq<Token>, widths: Seq<usize>) -> Seq<(TokenV, nat)> {
    Seq::new(toks.len(), |k: int| (toks[k]@, widths[k] as nat))
}

/// Splits the whole text into tokens, blanks, line breaks and errors included.
pub fn scan_chars(cs: &Vec<char>) -> (r: (Vec<Token>, Vec<usize>))
    ensures
        r.0@.len() == r.1@.len(),
        r.0@.len() <= cs@.len(),
        pairs(r.0@, r.1@) == scan(cs@, 0),
        forall|k: int| 0 <= k < r.1@.len() ==> #[trigger] r.1@[k] >= 1,
        width_sum(r.1@, r.1@.len() as int) == cs@.len(),
{
    let mut toks: Vec<Token> = Vec::new();
    let mut widths: Vec<usize> = Vec::new();
    let mut i: usize = 0;
    while i < cs.len()
        invariant
            i <= cs.len(),
            toks@.len() == widths@.len(),
            toks@.len() <= i,
            pairs(toks@, widths@) + scan(cs@, i as int) == scan(cs@, 0),
            forall|k: int| 0 <= k < widths@.len() ==> #[trigger] widths@[k] >= 1,
            width_sum(widths@, widths@.len() as int) == i,
        decreases cs.len() - i,
    {
        let (t, n) = lex_one(cs, i);
        let ghost old_pairs = pairs(toks@, widths@);
        let ghost old_widths = widths@;
        proof { lemma_width_sum_prefix(old_widths, n); }
        assert(scan(cs@, i as int) == seq![(t@, n as nat)] + scan(cs@, i + n));
        toks.push(t);
        widths.push(n);
        assert(width_sum(widths@, widths@.len() as int) == width_sum(widths@, widths@.len() - 1) + n);
        assert(widths@.drop_last() =~= old_widths);
        assert(pairs(toks@, widths@) =~= old_pairs.push((t@, n as nat)));
        assert(pairs(toks@, widths@) + scan(cs@, (i + n) as int) =~= old_pairs + scan(cs@, i as int));
        i = i + n;
    }
    assert(scan(cs@, i as int) =~= Seq::empty());
    assert(pairs(toks@, widths@) =~= scan(cs@, 0));
    (toks, widths)
}

} // verus!
