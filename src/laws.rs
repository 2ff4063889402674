//! Properties of the front end that hold for all inputs, proved from the specifications.
use vstd::prelude::*;
use crate::ast::{ExprV, StmtV};
use crate::errors::ErrorCode;
use crate::grammar::{
    digits, digits_value, exponent_len, float_len, float_token, int_token, is_digit, keyword_spelling,
    letters, lex_at, scan, until,
};
use crate::semantic::{check_block, glue, lookup, mismatch_note, undeclared_note, value_type};
use crate::errors::SyntaxErrors;
use crate::syntax::{spec_params, tk};
use crate::token::{Keywords, LiteralV, Operator, TokenV, TypeV, operator_spelling};

verus! {

pub open spec fn all_digits_from(s: Seq<char>, i: int) -> bool {
    forall|k: int| i <= k < s.len() ==> is_digit(#[trigger] s[k])
}

proof fn lemma_digits_to_end(s: Seq<char>, i: int)
    requires
        0 <= i <= s.len(),
        all_digits_from(s, i),
    ensures
        digits(s, i) == s.len() - i,
    decreases s.len() - i,
{
    if i < s.len() {
        lemma_digits_to_end(s, i + 1);
    }
}

proof fn lemma_scan_one(s: Seq<char>)
    requires
        s.len() > 0,
        lex_at(s, 0).1 == s.len(),
    ensures
        scan(s, 0) == seq![lex_at(s, 0)],
{
    assert(scan(s, s.len() as int) == Seq::<(TokenV, nat)>::empty());
    assert(seq![lex_at(s, 0)] + Seq::<(TokenV, nat)>::empty() =~= seq![lex_at(s, 0)]);
}

/// Each reserved word, on its own, is exactly one keyword token.
pub proof fn lemma_keyword_round_trip(k: Keywords)
    ensures
        scan(keyword_spelling(k), 0) == seq![(TokenV::Keyword(k), keyword_spelling(k).len())],
{
    let s = keyword_spelling(k);
    reveal_with_fuel(letters, 8);
    assert(letters(s, 0) == s.len());
    assert(s.subrange(0, s.len() as int) =~= s);
    lemma_scan_one(s);
}

/// Each operator, on its own, is exactly one operator token.
pub proof fn lemma_operator_round_trip(o: Operator)
    ensures
        scan(operator_spelling(o), 0) == seq![(TokenV::Operator(o), operator_spelling(o).len())],
{
    reveal_strlit("+");
    reveal_strlit("-");
    reveal_strlit("*");
    reveal_strlit("/");
    reveal_strlit("%");
    reveal_strlit("==");
    reveal_strlit("<");
    reveal_strlit(">");
    reveal_strlit("&&");
    reveal_strlit("!=");
    reveal_strlit("||");
    reveal_strlit("&");
    reveal_strlit("!");
    reveal_strlit("->");
    reveal_strlit("::");
    reveal_strlit("=");
    let s = operator_spelling(o);
    lemma_scan_one(s);
}

/// The spelling of each primitive type name.
pub open spec fn type_spelling(t: TypeV) -> Seq<char> {
    match t {
        TypeV::I8 => seq!['i', '8'],
        TypeV::I16 => seq!['i', '1', '6'],
        TypeV::I32 => seq!['i', '3', '2'],
        TypeV::I64 => seq!['i', '6', '4'],
        TypeV::U8 => seq!['u', '8'],
        TypeV::U16 => seq!['u', '1', '6'],
        TypeV::U32 => seq!['u', '3', '2'],
        TypeV::U64 => seq!['u', '6', '4'],
        TypeV::F32 => seq!['f', '3', '2'],
        TypeV::F64 => seq!['f', '6', '4'],
        TypeV::Boolean => seq!['b', 'o', 'o', 'l'],
        TypeV::Char => seq!['c', 'h', 'a', 'r'],
        TypeV::String => seq!['s', 't', 'r', 'i', 'n', 'g'],
        _ => Seq::empty(),
    }
}

/// Each primitive type name, on its own, is exactly one type token.
pub proof fn lemma_type_round_trip(t: TypeV)
    requires
        !(t is Void),
        !(t is Object),
    ensures
        scan(type_spelling(t), 0) == seq![(TokenV::Type(t), type_spelling(t).len())],
{
    let s = type_spelling(t);
    reveal_with_fuel(letters, 8);
    assert(s.subrange(0, s.len() as int) =~= s);
    lemma_scan_one(s);
}

/// `true` and `false`, on their own, are exactly one boolean literal.
pub proof fn lemma_boolean_round_trip(b: bool)
    ensures
        ({
            let s = if b { seq!['t', 'r', 'u', 'e'] } else { seq!['f', 'a', 'l', 's', 'e'] };
            scan(s, 0) == seq![(TokenV::Literal(LiteralV::Boolean(b)), s.len())]
        }),
{
    reveal_with_fuel(letters, 7);
    if b {
        let s = seq!['t', 'r', 'u', 'e'];
        assert(letters(s, 0) == 4);
        assert(s.subrange(0, 4) =~= s);
        lemma_scan_one(s);
    } else {
        let s = seq!['f', 'a', 'l', 's', 'e'];
        assert(letters(s, 0) == 5);
        assert(s.subrange(0, 5) =~= s);
        lemma_scan_one(s);
    }
}

/// Each punctuation character, on its own, is exactly one token of its kind.
pub proof fn lemma_punctuation_round_trip(c: char)
    requires
        c == '.' || c == ',' || c == ':' || c == ';' || c == '@' || c == '(' || c == ')' || c == '{' || c == '}',
    ensures
        scan(seq![c], 0) == seq![(
            if c == '.' {
                TokenV::Dot
            } else if c == ',' {
                TokenV::Comma
            } else if c == ':' {
                TokenV::Colon
            } else if c == ';' {
                TokenV::Semicolon
            } else if c == '@' {
                TokenV::AtSign
            } else if c == '(' {
                TokenV::LParen
            } else if c == ')' {
                TokenV::RParen
            } else if c == '{' {
                TokenV::LBrace
            } else {
                TokenV::RBrace
            },
            1nat,
        )],
{
    let s = seq![c];
    lemma_scan_one(s);
}

/// A run of decimal digits, on its own, is one integer literal of its value
/// (or an error token when the value does not fit in 64 bits).
pub proof fn lemma_integer_round_trip(d: Seq<char>)
    requires
        d.len() > 0,
        all_digits_from(d, 0),
    ensures
        scan(d, 0) == seq![(int_token(digits_value(d) as int), d.len())],
{
    lemma_digits_to_end(d, 0);
    assert(is_digit(d[0]));
    assert(float_len(d, 0) == 0);
    assert(d.subrange(0, d.len() as int) =~= d);
    lemma_scan_one(d);
}

/// A minus sign followed by digits is one integer literal of the negated value.
pub proof fn lemma_negative_integer_round_trip(d: Seq<char>)
    requires
        d.len() > 0,
        all_digits_from(d, 0),
    ensures
        scan(seq!['-'] + d, 0) == seq![(int_token(-digits_value(d)), d.len() + 1)],
{
    let s = seq!['-'] + d;
    assert(all_digits_from(s, 1)) by {
        assert forall|k: int| 1 <= k < s.len() implies is_digit(#[trigger] s[k]) by {
            assert(s[k] == d[k - 1]);
        }
    }
    lemma_digits_to_end(s, 1);
    assert(s[1] == d[0]);
    assert(s.subrange(1, s.len() as int) =~= d);
    lemma_scan_one(s);
}

/// Digits, a point and digits form one float literal of exactly that text.
pub proof fn lemma_float_round_trip(a: Seq<char>, b: Seq<char>)
    requires
        b.len() > 0,
        all_digits_from(a, 0),
        all_digits_from(b, 0),
    ensures
        scan(a + seq!['.'] + b, 0) == seq![(float_token(a + seq!['.'] + b), a.len() + b.len() + 1)],
{
    let s = a + seq!['.'] + b;
    let n = a.len() as int;
    assert(s.subrange(0, n) =~= a);
    assert(all_digits_from(s.subrange(0, n), 0));
    assert(all_digits_from(s, n + 1)) by {
        assert forall|k: int| n + 1 <= k < s.len() implies is_digit(#[trigger] s[k]) by {
            assert(s[k] == b[k - n - 1]);
        }
    }
    lemma_digits_to_end(s, n + 1);
    lemma_digits_prefix(s, n);
    assert(exponent_len(s, s.len() as int) == 0);
    assert(s.subrange(0, s.len() as int) =~= s);
    if n == 0 {
        assert(s[0] == '.');
    } else {
        assert(is_digit(s[0]));
    }
    lemma_scan_one(s);
}

proof fn lemma_digits_prefix(s: Seq<char>, n: int)
    requires
        0 <= n < s.len(),
        s[n] == '.',
        forall|k: int| 0 <= k < n ==> is_digit(#[trigger] s[k]),
    ensures
        digits(s, 0) == n,
{
    lemma_digits_prefix_from(s, 0, n);
}

proof fn lemma_digits_prefix_from(s: Seq<char>, i: int, n: int)
    requires
        0 <= i <= n < s.len(),
        s[n] == '.',
        forall|k: int| 0 <= k < n ==> is_digit(#[trigger] s[k]),
    ensures
        digits(s, i) == n - i,
    decreases n - i,
{
    if i < n {
        lemma_digits_prefix_from(s, i + 1, n);
    }
}

proof fn lemma_until_end(s: Seq<char>, i: int, n: int, q: char)
    requires
        0 <= i <= n < s.len(),
        s[n] == q,
        forall|k: int| i <= k < n ==> #[trigger] s[k] != q,
    ensures
        until(s, i, q) == n - i,
    decreases n - i,
{
    if i < n {
        lemma_until_end(s, i + 1, n, q);
    }
}

/// Text without a double quote, between double quotes, is one string literal of that text.
pub proof fn lemma_string_round_trip(t: Seq<char>)
    requires
        forall|k: int| 0 <= k < t.len() ==> #[trigger] t[k] != '"',
    ensures
        scan(seq!['"'] + t + seq!['"'], 0) == seq![(TokenV::Literal(LiteralV::String(t)), t.len() + 2)],
{
    let s = seq!['"'] + t + seq!['"'];
    let n = s.len() - 1;
    assert forall|k: int| 1 <= k < n implies #[trigger] s[k] != '"' by {
        assert(s[k] == t[k - 1]);
    }
    lemma_until_end(s, 1, n, '"');
    assert(s.subrange(1, n) =~= t);
    lemma_scan_one(s);
}

/// One character other than a quote, between single quotes, is one character literal.
pub proof fn lemma_char_round_trip(c: char)
    requires
        c != '\'',
    ensures
        scan(seq!['\'', c, '\''], 0) == seq![(TokenV::Literal(LiteralV::Char(c)), 3nat)],
{
    let s = seq!['\'', c, '\''];
    reveal_with_fuel(until, 3);
    lemma_scan_one(s);
}

/// A parameter name without `: Type` after it is a missing-type error, reported just
/// after the name.
pub proof fn lemma_missing_parameter_type(sig: Seq<TokenV>, m: nat, ps: Seq<(Seq<char>, TypeV)>)
    requires
        tk(sig, m) is Identifier,
        !(tk(sig, m + 1) is Colon),
    ensures
        spec_params(sig, m, ps) is Err,
        spec_params(sig, m, ps)->Err_0.0 == SyntaxErrors::SYNTAX_MISSING_TYPE,
        spec_params(sig, m, ps)->Err_0.1 == m + 1,
{
}

/// A name that is not bound, used to initialize a `let`, is reported as undeclared,
/// with the line of that `let` and a note that names it.
pub proof fn lemma_undeclared_variable(
    scope: Seq<(Seq<char>, TypeV)>,
    name: Seq<char>,
    ty: TypeV,
    x: Seq<char>,
    line: nat,
    rest: Seq<StmtV>,
)
    requires
        lookup(scope, x) is None,
    ensures
        check_block(
            scope,
            seq![StmtV::Let {
                name,
                typedef: ty,
                expr: seq![ExprV::Unary { operator: None, value: LiteralV::Var(x) }],
                line,
            }] + rest,
            0,
        ) == Err::<Seq<StmtV>, (ErrorCode, nat, Seq<char>)>((ErrorCode::STATUS_NOT_DECLARED_VARIABLE, line, undeclared_note(LiteralV::Var(x)))),
{
}

/// A `let` without a type annotation takes the type of its value, and later statements
/// see the name with that type.
pub proof fn lemma_let_takes_value_type(
    scope: Seq<(Seq<char>, TypeV)>,
    name: Seq<char>,
    v: LiteralV,
    t: TypeV,
    line: nat,
    rest: Seq<StmtV>,
)
    requires
        value_type(v, scope) == Some(t),
    ensures
        check_block(
            scope,
            seq![StmtV::Let { name, typedef: TypeV::Void, expr: seq![ExprV::Unary { operator: None, value: v }], line }]
                + rest,
            0,
        ) == glue(
            seq![StmtV::Let { name, typedef: t, expr: seq![ExprV::Unary { operator: None, value: v }], line }],
            check_block(scope.push((name, t)), rest, 0),
        ),
{
    let e = seq![ExprV::Unary { operator: None, value: v }];
    let first = StmtV::Let { name, typedef: TypeV::Void, expr: e, line };
    let ss = seq![first] + rest;
    assert(e.drop_first() =~= Seq::<ExprV>::empty());
    assert(crate::semantic::infer(scope, t, e.drop_first(), line) == Ok::<TypeV, (ErrorCode, nat, Seq<char>)>(t));
    assert(crate::semantic::infer(scope, TypeV::Void, e, line) == Ok::<TypeV, (ErrorCode, nat, Seq<char>)>(t));
    lemma_check_block_shift(scope.push((name, t)), rest, first, 0);
    assert(ss[0] == first);
}

/// A `let` whose annotation differs from the type of its value is a type mismatch,
/// reported with the line of that `let` and a note naming both types.
pub proof fn lemma_let_type_mismatch(
    scope: Seq<(Seq<char>, TypeV)>,
    name: Seq<char>,
    declared: TypeV,
    v: LiteralV,
    t: TypeV,
    line: nat,
    rest: Seq<StmtV>,
)
    requires
        value_type(v, scope) == Some(t),
        declared != TypeV::Void,
        declared != t,
    ensures
        check_block(
            scope,
            seq![StmtV::Let { name, typedef: declared, expr: seq![ExprV::Unary { operator: None, value: v }], line }]
                + rest,
            0,
        ) == Err::<Seq<StmtV>, (ErrorCode, nat, Seq<char>)>((ErrorCode::STATUS_MISMATCHED_TYPES, line, mismatch_note(declared, t))),
{
}

/// Checking `[first] + rest` from position 1 is checking `rest` from the start.
proof fn lemma_check_block_shift(scope: Seq<(Seq<char>, TypeV)>, rest: Seq<StmtV>, first: StmtV, i: int)
    requires
        0 <= i <= rest.len(),
    ensures
        check_block(scope, seq![first] + rest, i + 1) == check_block(scope, rest, i),
    decreases rest.len() - i,
{
    let ss = seq![first] + rest;
    if i < rest.len() {
        assert(ss[i + 1] == rest[i]);
        match rest[i] {
            StmtV::Let { name, typedef, expr, line } => {
                match crate::semantic::infer(scope, typedef, expr, line) {
                    Ok(t) => lemma_check_block_shift(scope.push((name, t)), rest, first, i + 1),
                    Err(_) => {},
                }
            },
            _ => lemma_check_block_shift(scope, rest, first, i + 1),
        }
    }
}

/// What an `if` binds stays inside it: a name bound only inside its branches is
/// undeclared for a `let` right after the `if`.
pub proof fn lemma_scope_isolation(
    scope: Seq<(Seq<char>, TypeV)>,
    condition: Seq<ExprV>,
    then_block: Seq<StmtV>,
    else_block: Seq<StmtV>,
    if_line: nat,
    y: Seq<char>,
    x: Seq<char>,
    line: nat,
)
    requires
        lookup(scope, x) is None,
        check_block(scope, then_block, 0) is Ok,
        check_block(scope, else_block, 0) is Ok,
    ensures
        check_block(
            scope,
            seq![
                StmtV::If { condition, then_block, else_block, line: if_line },
                StmtV::Let {
                    name: y,
                    typedef: TypeV::Void,
                    expr: seq![ExprV::Unary { operator: None, value: LiteralV::Var(x) }],
                    line,
                },
            ],
            0,
        ) == Err::<Seq<StmtV>, (ErrorCode, nat, Seq<char>)>((ErrorCode::STATUS_NOT_DECLARED_VARIABLE, line, undeclared_note(LiteralV::Var(x)))),
{
    let ss = seq![
        StmtV::If { condition, then_block, else_block, line: if_line },
        StmtV::Let {
            name: y,
            typedef: TypeV::Void,
            expr: seq![ExprV::Unary { operator: None, value: LiteralV::Var(x) }],
            line,
        },
    ];
    assert(check_block(scope, ss, 1) == Err::<Seq<StmtV>, (ErrorCode, nat, Seq<char>)>((ErrorCode::STATUS_NOT_DECLARED_VARIABLE, line, undeclared_note(LiteralV::Var(x)))));
}

} // verus!
