//! The recursive-descent parser: drives the lexer's cursor and builds the syntax tree,
//! stopping at the first syntax error.
use vstd::prelude::*;
use crate::ast::{
    Binary, ExprV, Expression, Stantament, StmtV, Unary, expr_v, exprs_v, lemma_exprs_push,
    lemma_func_v, lemma_if_v, lemma_stmts_push, lemma_while_v, parms_v, stmt_v, stmts_v,
};
use crate::errors::{Diagnostic, SyntaxErrors};
use crate::lexer::Lexer;
use crate::syntax::{
    quoted, put_param, spec_block, spec_check, spec_exprs, spec_fragment, spec_func, spec_if, spec_let,
    spec_operator, spec_params, spec_program, spec_return, spec_stmts, spec_type, spec_value,
    spec_while, tk,
};
use crate::token::{Keywords, Literal, LiteralV, Operator, Token, TokenV, Type, TypeV};

verus! {

/// `d` reports error `e` of the lexer `lx`: its code, and the line and column of its position.
pub open spec fn reports(d: Diagnostic, e: (SyntaxErrors, nat, Seq<char>), lx: Lexer) -> bool {
    &&& d.code == e.0
    &&& d.note@ == e.2
    &&& e.1 <= lx.meaningful().len()
    &&& d.line == lx.line_table()[e.1 as int]
    &&& d.column == lx.column_table()[e.1 as int]
}

pub open spec fn lit_opt_v(x: Option<Literal>) -> Option<LiteralV> {
    match x {
        Some(l) => Some(l@),
        None => None,
    }
}

/// A diagnostic at the cursor's current position.
fn diagnostic(lx: &Lexer, code: SyntaxErrors, note: String) -> (d: Diagnostic)
    requires
        lx.wf(),
    ensures
        d.code == code,
        d.note == note,
        d.line == lx.line_table()[lx.pos() as int],
        d.column == lx.column_table()[lx.pos() as int],
{
    Diagnostic { code, line: lx.line(), column: lx.column(), note }
}

/// `pre`, the token's text, then `post`.
fn note(pre: &str, t: &Token, post: &str) -> (r: String)
    ensures
        r@ == quoted(pre@, t@, post@),
{
    let mut r = String::from_str(pre);
    let tt = t.text();
    r.append(tt.as_str());
    r.append(post);
    r
}

fn parse_value(lx: &mut Lexer) -> (r: Result<Option<Literal>, Diagnostic>)
    requires
        old(lx).wf(),
    ensures
        final(lx).wf(),
        final(lx).keeps(old(lx)),
        match (r, spec_value(old(lx).meaningful(), old(lx).pos())) {
            (Ok(x), Ok((sx, m))) => lit_opt_v(x) == sx && final(lx).pos() == m,
            (Err(d), Err(e)) => reports(d, e, *old(lx)) && final(lx).pos() == e.1,
            _ => false,
        },
{
    proof { lx.lemma_pos(); }
    let t = lx.next();
    match t {
        Token::Literal(l) => Ok(Some(l)),
        Token::Identifier(n) => Ok(Some(Literal::Var(n))),
        Token::Operator(_) => {
            lx.back();
            Ok(None)
        },
        _ => {
            proof { lx.lemma_pos(); }
            let n = note("expected a value before `", &t, "`");
            Err(diagnostic(lx, SyntaxErrors::SYNTAX_EXPECTED_VALUE, n))
        },
    }
}

fn parse_operator(lx: &mut Lexer) -> (r: Option<Operator>)
    requires
        old(lx).wf(),
    ensures
        final(lx).wf(),
        final(lx).keeps(old(lx)),
        spec_operator(old(lx).meaningful(), old(lx).pos()) == (r, final(lx).pos()),
{
    proof { lx.lemma_pos(); }
    match lx.peek() {
        Token::Operator(o) => {
            lx.skip();
            Some(o)
        },
        _ => None,
    }
}

fn parse_fragment(lx: &mut Lexer) -> (r: Result<Expression, Diagnostic>)
    requires
        old(lx).wf(),
    ensures
        final(lx).wf(),
        final(lx).keeps(old(lx)),
        final(lx).pos() >= old(lx).pos(),
        r is Ok ==> final(lx).pos() > old(lx).pos(),
        match (r, spec_fragment(old(lx).meaningful(), old(lx).pos())) {
            (Ok(x), Ok((sx, m))) => expr_v(x) == sx && final(lx).pos() == m,
            (Err(d), Err(e)) => reports(d, e, *old(lx)) && final(lx).pos() == e.1,
            _ => false,
        },
{
    let x = match parse_value(lx) {
        Ok(x) => x,
        Err(d) => return Err(d),
    };
    let op = parse_operator(lx);
    match op {
        None => match x {
            Some(a) => Ok(Expression::Unary(Unary { operator: None, value: a })),
            None => {
                proof { lx.lemma_pos(); }
                let n = String::from_str("expected a value");
                assert(n@ == "expected a value"@);
                Err(diagnostic(lx, SyntaxErrors::SYNTAX_EXPECTED_VALUE, n))
            },
        },
        Some(o) => {
            let y = match parse_value(lx) {
                Ok(y) => y,
                Err(d) => return Err(d),
            };
            match (x, y) {
                (Some(a), Some(b)) => Ok(Expression::Binary(Binary::new(a, o, b))),
                (Some(a), None) => Ok(Expression::Unary(Unary { operator: op, value: a })),
                (None, Some(b)) => Ok(Expression::Unary(Unary { operator: op, value: b })),
                (None, None) => {
                    proof { lx.lemma_pos(); }
                    let n = String::from_str("expected a value next to an operator");
                    Err(diagnostic(lx, SyntaxErrors::SYNTAX_EXPECTED_VALUE, n))
                },
            }
        },
    }
}

/// Expression fragments up to and including `end`.
fn parse_exprs(lx: &mut Lexer, end: &Token) -> (r: Result<Vec<Expression>, Diagnostic>)
    requires
        old(lx).wf(),
    ensures
        final(lx).wf(),
        final(lx).keeps(old(lx)),
        final(lx).pos() >= old(lx).pos(),
        match (r, spec_exprs(old(lx).meaningful(), old(lx).pos(), end@)) {
            (Ok(x), Ok((sx, m))) => exprs_v(x@) == sx && final(lx).pos() == m,
            (Err(d), Err(e)) => reports(d, e, *old(lx)) && final(lx).pos() == e.1,
            _ => false,
        },
    decreases old(lx).meaningful().len() - old(lx).pos(),
{
    proof { lx.lemma_pos(); }
    let f = match parse_fragment(lx) {
        Ok(f) => f,
        Err(d) => return Err(d),
    };
    proof { lx.lemma_pos(); }
    let mut v: Vec<Expression> = Vec::new();
    proof { lemma_exprs_push(v@, f); }
    v.push(f);
    assert(exprs_v(v@) =~= seq![expr_v(f)]);
    if lx.peek() == *end {
        lx.skip();
        return Ok(v);
    }
    let mut rest = match parse_exprs(lx, end) {
        Ok(rest) => rest,
        Err(d) => return Err(d),
    };
    let ghost before = v@;
    let ghost after = rest@;
    v.append(&mut rest);
    assert(exprs_v(v@) =~= exprs_v(before) + exprs_v(after));
    Ok(v)
}

/// An optional `: Type`.
fn parse_type(lx: &mut Lexer) -> (r: Result<Type, Diagnostic>)
    requires
        old(lx).wf(),
    ensures
        final(lx).wf(),
        final(lx).keeps(old(lx)),
        final(lx).pos() >= old(lx).pos(),
        match (r, spec_type(old(lx).meaningful(), old(lx).pos())) {
            (Ok(x), Ok((sx, m))) => x@ == sx && final(lx).pos() == m,
            (Err(d), Err(e)) => reports(d, e, *old(lx)) && final(lx).pos() == e.1,
            _ => false,
        },
{
    proof { lx.lemma_pos(); }
    match lx.peek() {
        Token::Colon => {
            lx.skip();
            proof { lx.lemma_pos(); }
            let t = lx.next();
            match t {
                Token::Type(ty) => Ok(ty),
                Token::Identifier(id) => Ok(Type::Object(id)),
                _ => {
                    proof { lx.lemma_pos(); }
                    let n = note("expected `type` after `:`, found `", &t, "`");
                    Err(diagnostic(lx, SyntaxErrors::SYNTAX_EXPECTED_TYPE, n))
                },
            }
        },
        _ => Ok(Type::Void),
    }
}

/// The token `expected` must come next.
fn check_token(lx: &mut Lexer, expected: Token) -> (r: Result<(), Diagnostic>)
    requires
        old(lx).wf(),
    ensures
        final(lx).wf(),
        final(lx).keeps(old(lx)),
        final(lx).pos() >= old(lx).pos(),
        match (r, spec_check(old(lx).meaningful(), old(lx).pos(), expected@)) {
            (Ok(_), Ok(m)) => final(lx).pos() == m,
            (Err(d), Err(e)) => reports(d, e, *old(lx)) && final(lx).pos() == e.1,
            _ => false,
        },
{
    proof { lx.lemma_pos(); }
    if lx.peek() == expected {
        lx.skip();
        return Ok(());
    }
    let found = lx.next();
    proof { lx.lemma_pos(); }
    let mut n = note("expected `", &expected, "` after `");
    let ft = found.text();
    n.append(ft.as_str());
    n.append("`");
    Err(diagnostic(lx, SyntaxErrors::SYNTAX_EXPECTED_TOKEN, n))
}

fn parse_let(lx: &mut Lexer) -> (r: Result<Stantament, Diagnostic>)
    requires
        old(lx).wf(),
    ensures
        final(lx).wf(),
        final(lx).keeps(old(lx)),
        final(lx).pos() >= old(lx).pos(),
        match (r, spec_let(old(lx).meaningful(), old(lx).line_table(), old(lx).pos())) {
            (Ok(x), Ok((sx, m))) => stmt_v(x) == sx && final(lx).pos() == m,
            (Err(d), Err(e)) => reports(d, e, *old(lx)) && final(lx).pos() == e.1,
            _ => false,
        },
{
    proof { lx.lemma_pos(); }
    let t = lx.next();
    let name = match t {
        Token::Identifier(name) => name,
        _ => {
            proof { lx.lemma_pos(); }
            let n = note("expected a name after `let`, found `", &t, "`");
            return Err(diagnostic(lx, SyntaxErrors::SYNTAX_EXPECTED_NAME, n));
        },
    };
    let typedef = match parse_type(lx) {
        Ok(t) => t,
        Err(d) => return Err(d),
    };
    match check_token(lx, Token::Operator(Operator::ASSIGNMENT)) {
        Ok(_) => {},
        Err(d) => return Err(d),
    }
    let expr = match parse_exprs(lx, &Token::Semicolon) {
        Ok(e) => e,
        Err(d) => return Err(d),
    };
    proof { lx.lemma_pos(); }
    let line = lx.line();
    Ok(Stantament::Let { name, typedef, expr, line })
}

fn parse_return(lx: &mut Lexer) -> (r: Result<Stantament, Diagnostic>)
    requires
        old(lx).wf(),
    ensures
        final(lx).wf(),
        final(lx).keeps(old(lx)),
        final(lx).pos() >= old(lx).pos(),
        match (r, spec_return(old(lx).meaningful(), old(lx).pos())) {
            (Ok(x), Ok((sx, m))) => stmt_v(x) == sx && final(lx).pos() == m,
            (Err(d), Err(e)) => reports(d, e, *old(lx)) && final(lx).pos() == e.1,
            _ => false,
        },
{
    match parse_exprs(lx, &Token::Semicolon) {
        Ok(expr) => Ok(Stantament::Return { expr }),
        Err(d) => Err(d),
    }
}

/// `{` statements `}`
fn parse_block(lx: &mut Lexer) -> (r: Result<Vec<Stantament>, Diagnostic>)
    requires
        old(lx).wf(),
    ensures
        final(lx).wf(),
        final(lx).keeps(old(lx)),
        final(lx).pos() >= old(lx).pos(),
        match (r, spec_block(old(lx).meaningful(), old(lx).line_table(), old(lx).pos())) {
            (Ok(x), Ok((sx, m))) => stmts_v(x@) == sx && final(lx).pos() == m,
            (Err(d), Err(e)) => reports(d, e, *old(lx)) && final(lx).pos() == e.1,
            _ => false,
        },
    decreases old(lx).meaningful().len() - old(lx).pos(), 1nat,
{
    proof { lx.lemma_pos(); }
    match check_token(lx, Token::LBrace) {
        Ok(_) => {},
        Err(d) => return Err(d),
    }
    parse_stmts(lx)
}

/// Statements up to and including `}`.
fn parse_stmts(lx: &mut Lexer) -> (r: Result<Vec<Stantament>, Diagnostic>)
    requires
        old(lx).wf(),
    ensures
        final(lx).wf(),
        final(lx).keeps(old(lx)),
        final(lx).pos() >= old(lx).pos(),
        match (r, spec_stmts(old(lx).meaningful(), old(lx).line_table(), old(lx).pos())) {
            (Ok(x), Ok((sx, m))) => stmts_v(x@) == sx && final(lx).pos() == m,
            (Err(d), Err(e)) => reports(d, e, *old(lx)) && final(lx).pos() == e.1,
            _ => false,
        },
    decreases old(lx).meaningful().len() - old(lx).pos(), 0nat,
{
    proof { lx.lemma_pos(); }
    let t = lx.next();
    proof { lx.lemma_pos(); }
    let first = match t {
        Token::Keyword(Keywords::Let) => parse_let(lx),
        Token::Keyword(Keywords::If) => parse_if(lx),
        Token::Keyword(Keywords::While) => parse_while(lx),
        Token::Keyword(Keywords::Return) => parse_return(lx),
        Token::RBrace => {
            let v: Vec<Stantament> = Vec::new();
            assert(stmts_v(v@) =~= Seq::empty());
            return Ok(v);
        },
        _ => {
            let n = note("unexpected token `", &t, "`");
            return Err(diagnostic(lx, SyntaxErrors::SYNTAX_UNEXPECTED_TOKEN, n));
        },
    };
    let st = match first {
        Ok(st) => st,
        Err(d) => return Err(d),
    };
    proof { lx.lemma_pos(); }
    let mut rest = match parse_stmts(lx) {
        Ok(rest) => rest,
        Err(d) => return Err(d),
    };
    let mut v: Vec<Stantament> = Vec::new();
    proof { lemma_stmts_push(v@, st); }
    v.push(st);
    let ghost before = v@;
    let ghost after = rest@;
    v.append(&mut rest);
    assert(stmts_v(before) =~= seq![stmt_v(st)]);
    assert(stmts_v(v@) =~= stmts_v(before) + stmts_v(after));
    Ok(v)
}

/// `if` ( expressions ) block [else block], from just after `if`.
fn parse_if(lx: &mut Lexer) -> (r: Result<Stantament, Diagnostic>)
    requires
        old(lx).wf(),
    ensures
        final(lx).wf(),
        final(lx).keeps(old(lx)),
        final(lx).pos() >= old(lx).pos(),
        match (r, spec_if(old(lx).meaningful(), old(lx).line_table(), old(lx).pos())) {
            (Ok(x), Ok((sx, m))) => stmt_v(x) == sx && final(lx).pos() == m,
            (Err(d), Err(e)) => reports(d, e, *old(lx)) && final(lx).pos() == e.1,
            _ => false,
        },
    decreases old(lx).meaningful().len() - old(lx).pos(), 2nat,
{
    proof { lx.lemma_pos(); }
    let line = lx.line();
    match check_token(lx, Token::LParen) {
        Ok(_) => {},
        Err(d) => return Err(d),
    }
    let condition = match parse_exprs(lx, &Token::RParen) {
        Ok(c) => c,
        Err(d) => return Err(d),
    };
    proof { lx.lemma_pos(); }
    let then_block = match parse_block(lx) {
        Ok(b) => b,
        Err(d) => return Err(d),
    };
    proof { lx.lemma_pos(); }
    let else_block = match lx.peek() {
        Token::Keyword(Keywords::Else) => {
            lx.skip();
            match parse_block(lx) {
                Ok(b) => b,
                Err(d) => return Err(d),
            }
        },
        _ => Vec::new(),
    };
    let st = Stantament::If { condition, then_block, else_block, line };
    proof {
        lemma_if_v(st);
        assert(stmts_v(st->If_else_block@) =~= Seq::empty() || st->If_else_block@.len() > 0);
    }
    Ok(st)
}

/// `while` ( expressions ) block, from just after `while`.
fn parse_while(lx: &mut Lexer) -> (r: Result<Stantament, Diagnostic>)
    requires
        old(lx).wf(),
    ensures
        final(lx).wf(),
        final(lx).keeps(old(lx)),
        final(lx).pos() >= old(lx).pos(),
        match (r, spec_while(old(lx).meaningful(), old(lx).line_table(), old(lx).pos())) {
            (Ok(x), Ok((sx, m))) => stmt_v(x) == sx && final(lx).pos() == m,
            (Err(d), Err(e)) => reports(d, e, *old(lx)) && final(lx).pos() == e.1,
            _ => false,
        },
    decreases old(lx).meaningful().len() - old(lx).pos(), 2nat,
{
    proof { lx.lemma_pos(); }
    let line = lx.line();
    match check_token(lx, Token::LParen) {
        Ok(_) => {},
        Err(d) => return Err(d),
    }
    let condition = match parse_exprs(lx, &Token::RParen) {
        Ok(c) => c,
        Err(d) => return Err(d),
    };
    proof { lx.lemma_pos(); }
    let body = match parse_block(lx) {
        Ok(b) => b,
        Err(d) => return Err(d),
    };
    let st = Stantament::While { condition, body, line };
    proof { lemma_while_v(st); }
    Ok(st)
}

/// No name occurs twice.
pub open spec fn unique_names(ps: Seq<(Seq<char>, TypeV)>) -> bool {
    forall|i: int, j: int| 0 <= i < ps.len() && 0 <= j < ps.len() && i != j ==> (#[trigger] ps[i]).0 != (#[trigger] ps[j]).0
}

/// Adds parameter `n: t`, replacing the type of an earlier parameter of that name.
fn put(ps: &mut Vec<(String, Type)>, n: String, t: Type)
    requires
        unique_names(parms_v(old(ps)@)),
    ensures
        parms_v(final(ps)@) == put_param(parms_v(old(ps)@), n@, t@),
        unique_names(parms_v(final(ps)@)),
{
    let ghost old_v = parms_v(ps@);
    let mut k: usize = 0;
    while k < ps.len()
        invariant
            k <= ps@.len(),
            ps@ == old(ps)@,
            old_v == parms_v(ps@),
            unique_names(old_v),
            forall|j: int| 0 <= j < k ==> (#[trigger] old_v[j]).0 != n@,
        decreases ps@.len() - k,
    {
        if ps[k].0 == n {
            let ghost nv = n@;
            let ghost tv = t@;
            assert(old_v[k as int].0 == nv);
            ps.set(k, (n, t));
            proof {
                assert(0 <= k < old_v.len() && old_v[k as int].0 == nv);
                let c = choose|c: int| 0 <= c < old_v.len() && (#[trigger] old_v[c]).0 == nv;
                assert(0 <= c < old_v.len() && old_v[c].0 == nv);
                if c != k {
                    assert(old_v[c].0 != old_v[k as int].0);
                }
                assert(c == k);
                assert(parms_v(ps@) =~= old_v.update(k as int, (nv, tv)));
            }
            return;
        }
        k = k + 1;
    }
    let ghost nv = n@;
    let ghost tv = t@;
    ps.push((n, t));
    assert(parms_v(ps@) =~= old_v.push((nv, tv)));
}

/// Parameters after `(`, up to and including `)`.
fn parse_params(lx: &mut Lexer, ps: Vec<(String, Type)>) -> (r: Result<Vec<(String, Type)>, Diagnostic>)
    requires
        old(lx).wf(),
        unique_names(parms_v(ps@)),
    ensures
        final(lx).wf(),
        final(lx).keeps(old(lx)),
        final(lx).pos() >= old(lx).pos(),
        match (r, spec_params(old(lx).meaningful(), old(lx).pos(), parms_v(ps@))) {
            (Ok(x), Ok((sx, m))) => parms_v(x@) == sx && final(lx).pos() == m && unique_names(sx),
            (Err(d), Err(e)) => reports(d, e, *old(lx)) && final(lx).pos() == e.1,
            _ => false,
        },
    decreases old(lx).meaningful().len() - old(lx).pos(),
{
    let mut ps = ps;
    proof { lx.lemma_pos(); }
    let t = lx.next();
    proof { lx.lemma_pos(); }
    match t {
        Token::Identifier(p) => {
            let ty = match parse_type(lx) {
                Ok(ty) => ty,
                Err(d) => return Err(d),
            };
            proof { lx.lemma_pos(); }
            if ty.is_any() {
                let n = note("missing `type` for parameter `", &Token::Identifier(p), "`");
                return Err(diagnostic(lx, SyntaxErrors::SYNTAX_MISSING_TYPE, n));
            }
            put(&mut ps, p, ty);
            let t2 = lx.next();
            proof { lx.lemma_pos(); }
            match t2 {
                Token::Comma => parse_params(lx, ps),
                Token::RParen => Ok(ps),
                _ => {
                    let n = note("unexpected token `", &t2, "`");
                    Err(diagnostic(lx, SyntaxErrors::SYNTAX_UNEXPECTED_TOKEN, n))
                },
            }
        },
        Token::Comma => parse_params(lx, ps),
        Token::RParen => Ok(ps),
        _ => {
            let n = note("unexpected token `", &t, "`");
            Err(diagnostic(lx, SyntaxErrors::SYNTAX_UNEXPECTED_TOKEN, n))
        },
    }
}

/// `func` name ( parameters ) [: Type] block, from just after `func`.
fn parse_func(lx: &mut Lexer) -> (r: Result<Stantament, Diagnostic>)
    requires
        old(lx).wf(),
    ensures
        final(lx).wf(),
        final(lx).keeps(old(lx)),
        final(lx).pos() >= old(lx).pos(),
        match (r, spec_func(old(lx).meaningful(), old(lx).line_table(), old(lx).pos())) {
            (Ok(x), Ok((sx, m))) => stmt_v(x) == sx && final(lx).pos() == m,
            (Err(d), Err(e)) => reports(d, e, *old(lx)) && final(lx).pos() == e.1,
            _ => false,
        },
{
    proof { lx.lemma_pos(); }
    let line = lx.line();
    let t = lx.next();
    let name = match t {
        Token::Identifier(name) => name,
        _ => {
            proof { lx.lemma_pos(); }
            let n = note("expected `name` after `func`, found `", &t, "`");
            return Err(diagnostic(lx, SyntaxErrors::SYNTAX_EXPECTED_NAME, n));
        },
    };
    match check_token(lx, Token::LParen) {
        Ok(_) => {},
        Err(d) => return Err(d),
    }
    let ps: Vec<(String, Type)> = Vec::new();
    assert(parms_v(ps@) =~= Seq::empty());
    let parms = match parse_params(lx, ps) {
        Ok(p) => p,
        Err(d) => return Err(d),
    };
    let return_type = match parse_type(lx) {
        Ok(t) => t,
        Err(d) => return Err(d),
    };
    let body = match parse_block(lx) {
        Ok(b) => b,
        Err(d) => return Err(d),
    };
    let st = Stantament::Func { name, parms, body, return_type, line };
    proof { lemma_func_v(st); }
    Ok(st)
}

/// Function declarations up to the end of input.
fn parse_program(lx: &mut Lexer) -> (r: Result<Vec<Stantament>, Diagnostic>)
    requires
        old(lx).wf(),
    ensures
        final(lx).wf(),
        final(lx).keeps(old(lx)),
        match (r, spec_program(old(lx).meaningful(), old(lx).line_table(), old(lx).pos())) {
            (Ok(x), Ok(sx)) => stmts_v(x@) == sx,
            (Err(d), Err(e)) => reports(d, e, *old(lx)),
            _ => false,
        },
    decreases old(lx).meaningful().len() - old(lx).pos(),
{
    proof { lx.lemma_pos(); }
    let t = lx.next();
    proof { lx.lemma_pos(); }
    match t {
        Token::Keyword(Keywords::Func) => {
            let f = match parse_func(lx) {
                Ok(f) => f,
                Err(d) => return Err(d),
            };
            proof { lx.lemma_pos(); }
            let mut rest = match parse_program(lx) {
                Ok(rest) => rest,
                Err(d) => return Err(d),
            };
            let mut v: Vec<Stantament> = Vec::new();
            proof { lemma_stmts_push(v@, f); }
            v.push(f);
            let ghost before = v@;
            let ghost after = rest@;
            v.append(&mut rest);
            assert(stmts_v(before) =~= seq![stmt_v(f)]);
            assert(stmts_v(v@) =~= stmts_v(before) + stmts_v(after));
            Ok(v)
        },
        Token::EOF => {
            let v: Vec<Stantament> = Vec::new();
            assert(stmts_v(v@) =~= Seq::empty());
            Ok(v)
        },
        _ => {
            let n = note("unexpected token `", &t, "`");
            Err(diagnostic(lx, SyntaxErrors::SYNTAX_UNEXPECTED_TOKEN, n))
        },
    }
}

/// Builds the syntax tree of one source text.
pub struct Parser {
    lexer: Lexer,
}

impl Parser {
    pub closed spec fn lexer_state(&self) -> Lexer {
        self.lexer
    }

    pub fn default(lexer: Lexer) -> (r: Parser)
        ensures
            r.lexer_state() == lexer,
    {
        Parser { lexer }
    }

    /// Parses the rest of the input: the top-level function declarations, or the
    /// first syntax error.
    pub fn analyse(&mut self) -> (r: Result<Vec<Stantament>, Diagnostic>)
        requires
            old(self).lexer_state().wf(),
        ensures
            final(self).lexer_state().wf(),
            final(self).lexer_state().keeps(&old(self).lexer_state()),
            match (r, spec_program(
                old(self).lexer_state().meaningful(),
                old(self).lexer_state().line_table(),
                old(self).lexer_state().pos(),
            )) {
                (Ok(x), Ok(sx)) => stmts_v(x@) == sx,
                (Err(d), Err(e)) => reports(d, e, old(self).lexer_state()),
                _ => false,
            },
    {
        parse_program(&mut self.lexer)
    }

    /// The lexer, for reading source lines and positions.
    pub fn lexer(&self) -> (r: &Lexer)
        ensures
            *r == self.lexer_state(),
    {
        &self.lexer
    }

    /// Puts the cursor back at the start of input.
    pub fn reset(&mut self)
        requires
            old(self).lexer_state().wf(),
        ensures
            final(self).lexer_state().wf(),
            final(self).lexer_state().keeps(&old(self).lexer_state()),
            final(self).lexer_state().pos() == 0,
    {
        self.lexer.reset();
    }
}

} // verus!
