//! The grammar of statements, as a functional parser over the meaningful tokens.
//!
//! Each function takes the meaningful tokens `sig`, the line at each position `lines`,
//! and a position `m`; it gives what was read and the position after it, or the error
//! and the position at which it was found.
//!
//! Reading only ever moves forward. Where a definition recurses on a position that a
//! nested rule produced, it first checks that the position moved; the check never fails
//! (the parser proves as much), and keeps the definitions well founded.
use vstd::prelude::*;
use crate::ast::{ExprV, StmtV};
use crate::errors::SyntaxErrors;
use crate::token::{Keywords, LiteralV, Operator, TokenV, TypeV, token_text};

verus! {

/// The token at position `m`, or `EOF` past the end.
pub open spec fn tk(sig: Seq<TokenV>, m: nat) -> TokenV {
    if m < sig.len() { sig[m as int] } else { TokenV::EOF }
}

/// The position after reading one token at `m` (reading past the end stays put).
pub open spec fn adv(sig: Seq<TokenV>, m: nat) -> nat {
    if m < sig.len() { m + 1 } else { m }
}

pub open spec fn line_of(lines: Seq<nat>, m: nat) -> nat {
    if m < lines.len() { lines[m as int] } else { 0 }
}

/// A message made of `pre`, the text of `t`, and `post`.
pub open spec fn quoted(pre: Seq<char>, t: TokenV, post: Seq<char>) -> Seq<char> {
    pre + token_text(t) + post
}

/// A value: a literal or a name. An operator there is left for the caller.
pub open spec fn spec_value(sig: Seq<TokenV>, m: nat) -> Result<(Option<LiteralV>, nat), (SyntaxErrors, nat, Seq<char>)> {
    match tk(sig, m) {
        TokenV::Literal(l) => Ok((Some(l), m + 1)),
        TokenV::Identifier(n) => Ok((Some(LiteralV::Var(n)), m + 1)),
        TokenV::Operator(_) => Ok((None, m)),
        _ => Err((SyntaxErrors::SYNTAX_EXPECTED_VALUE, adv(sig, m), quoted("expected a value before `"@, tk(sig, m), "`"@))),
    }
}

/// An optional operator at `m`.
pub open spec fn spec_operator(sig: Seq<TokenV>, m: nat) -> (Option<Operator>, nat) {
    match tk(sig, m) {
        TokenV::Operator(o) => (Some(o), m + 1),
        _ => (None, m),
    }
}

/// One fragment of an expression list: value, optional operator, and (after an
/// operator) an optional second value.
pub open spec fn spec_fragment(sig: Seq<TokenV>, m: nat) -> Result<(ExprV, nat), (SyntaxErrors, nat, Seq<char>)> {
    match spec_value(sig, m) {
        Err(e) => Err(e),
        Ok((x, m1)) => {
            let (op, m2) = spec_operator(sig, m1);
            if op is None {
                match x {
                    Some(a) => Ok((ExprV::Unary { operator: None, value: a }, m2)),
                    None => Err((SyntaxErrors::SYNTAX_EXPECTED_VALUE, m2, "expected a value"@)),
                }
            } else {
                match spec_value(sig, m2) {
                    Err(e) => Err(e),
                    Ok((y, m3)) => match (x, y) {
                        (Some(a), Some(b)) => Ok((ExprV::Binary { x: a, operator: op->0, y: b }, m3)),
                        (Some(a), None) => Ok((ExprV::Unary { operator: op, value: a }, m3)),
                        (None, Some(b)) => Ok((ExprV::Unary { operator: op, value: b }, m3)),
                        (None, None) => Err((SyntaxErrors::SYNTAX_EXPECTED_VALUE, m3, "expected a value next to an operator"@)),
                    },
                }
            }
        },
    }
}

/// Fragments up to and including the terminator `end`.
pub open spec fn spec_exprs(sig: Seq<TokenV>, m: nat, end: TokenV) -> Result<(Seq<ExprV>, nat), (SyntaxErrors, nat, Seq<char>)>
    decreases sig.len() - m,
{
    match spec_fragment(sig, m) {
        Err(e) => Err(e),
        Ok((f, m1)) => {
            if tk(sig, m1) == end {
                Ok((seq![f], adv(sig, m1)))
            } else if m1 <= m || m1 > sig.len() {
                Err((SyntaxErrors::SYNTAX_EXPECTED_EXPRS, m1, "expected an expression"@))
            } else {
                match spec_exprs(sig, m1, end) {
                    Err(e) => Err(e),
                    Ok((rest, m2)) => Ok((seq![f] + rest, m2)),
                }
            }
        },
    }
}

/// An optional `: Type`; without one, `Void`.
pub open spec fn spec_type(sig: Seq<TokenV>, m: nat) -> Result<(TypeV, nat), (SyntaxErrors, nat, Seq<char>)> {
    if tk(sig, m) is Colon {
        match tk(sig, m + 1) {
            TokenV::Type(t) => Ok((t, m + 2)),
            TokenV::Identifier(id) => Ok((TypeV::Object(id), m + 2)),
            _ => Err((SyntaxErrors::SYNTAX_EXPECTED_TYPE, adv(sig, m + 1), quoted("expected `type` after `:`, found `"@, tk(sig, m + 1), "`"@))),
        }
    } else {
        Ok((TypeV::Void, m))
    }
}

/// The token `e` must come next.
pub open spec fn spec_check(sig: Seq<TokenV>, m: nat, e: TokenV) -> Result<nat, (SyntaxErrors, nat, Seq<char>)> {
    if tk(sig, m) == e {
        Ok(adv(sig, m))
    } else {
        Err((SyntaxErrors::SYNTAX_EXPECTED_TOKEN, adv(sig, m), quoted("expected `"@, e, "` after `"@) + token_text(tk(sig, m)) + "`"@))
    }
}

/// `let` name [: Type] = expressions ;   (from just after `let`)
pub open spec fn spec_let(sig: Seq<TokenV>, lines: Seq<nat>, m: nat) -> Result<(StmtV, nat), (SyntaxErrors, nat, Seq<char>)> {
    match tk(sig, m) {
        TokenV::Identifier(name) => match spec_type(sig, m + 1) {
            Err(e) => Err(e),
            Ok((ty, m2)) => match spec_check(sig, m2, TokenV::Operator(Operator::ASSIGNMENT)) {
                Err(e) => Err(e),
                Ok(m3) => match spec_exprs(sig, m3, TokenV::Semicolon) {
                    Err(e) => Err(e),
                    Ok((ex, m4)) => Ok((StmtV::Let { name, typedef: ty, expr: ex, line: line_of(lines, m4) }, m4)),
                },
            },
        },
        _ => Err((SyntaxErrors::SYNTAX_EXPECTED_NAME, adv(sig, m), quoted("expected a name after `let`, found `"@, tk(sig, m), "`"@))),
    }
}

/// `return` expressions ;   (from just after `return`)
pub open spec fn spec_return(sig: Seq<TokenV>, m: nat) -> Result<(StmtV, nat), (SyntaxErrors, nat, Seq<char>)> {
    match spec_exprs(sig, m, TokenV::Semicolon) {
        Err(e) => Err(e),
        Ok((ex, m1)) => Ok((StmtV::Return { expr: ex }, m1)),
    }
}

/// `{` statements `}`
pub open spec fn spec_block(sig: Seq<TokenV>, lines: Seq<nat>, m: nat) -> Result<(Seq<StmtV>, nat), (SyntaxErrors, nat, Seq<char>)>
    decreases sig.len() - m, 1nat,
{
    match spec_check(sig, m, TokenV::LBrace) {
        Err(e) => Err(e),
        Ok(m1) => if m1 <= m { Err((SyntaxErrors::SYNTAX_EXPECTED_TOKEN, m1, "expected `{`"@)) } else { spec_stmts(sig, lines, m1) },
    }
}

/// Statements up to and including the closing `}`.
pub open spec fn spec_stmts(sig: Seq<TokenV>, lines: Seq<nat>, m: nat) -> Result<(Seq<StmtV>, nat), (SyntaxErrors, nat, Seq<char>)>
    decreases sig.len() - m, 0nat,
{
    let first = match tk(sig, m) {
        TokenV::Keyword(Keywords::Let) => Some(spec_let(sig, lines, m + 1)),
        TokenV::Keyword(Keywords::If) => Some(spec_if(sig, lines, m + 1)),
        TokenV::Keyword(Keywords::While) => Some(spec_while(sig, lines, m + 1)),
        TokenV::Keyword(Keywords::Return) => Some(spec_return(sig, m + 1)),
        _ => None,
    };
    match first {
        Some(Err(e)) => Err(e),
        Some(Ok((s, m1))) => if m1 <= m || m1 > sig.len() {
            Err((SyntaxErrors::SYNTAX_UNEXPECTED_TOKEN, m1, "expected a statement"@))
        } else {
            match spec_stmts(sig, lines, m1) {
                Err(e) => Err(e),
                Ok((rest, m2)) => Ok((seq![s] + rest, m2)),
            }
        },
        None => if tk(sig, m) is RBrace {
            Ok((Seq::empty(), m + 1))
        } else {
            Err((SyntaxErrors::SYNTAX_UNEXPECTED_TOKEN, adv(sig, m), quoted("unexpected token `"@, tk(sig, m), "`"@)))
        },
    }
}

/// `if` ( expressions ) block [else block]   (from just after `if`)
pub open spec fn spec_if(sig: Seq<TokenV>, lines: Seq<nat>, m: nat) -> Result<(StmtV, nat), (SyntaxErrors, nat, Seq<char>)>
    decreases sig.len() - m, 2nat,
{
    match spec_check(sig, m, TokenV::LParen) {
        Err(e) => Err(e),
        Ok(m1) => match spec_exprs(sig, m1, TokenV::RParen) {
            Err(e) => Err(e),
            Ok((cond, m2)) => if m2 <= m || m2 > sig.len() {
                Err((SyntaxErrors::SYNTAX_EXPECTED_EXPRS, m2, "expected an expression"@))
            } else {
                match spec_block(sig, lines, m2) {
                    Err(e) => Err(e),
                    Ok((then_block, m3)) => if tk(sig, m3) == TokenV::Keyword(Keywords::Else) {
                        if m3 <= m || m3 >= sig.len() {
                            Err((SyntaxErrors::SYNTAX_UNEXPECTED_TOKEN, m3, "expected `else`"@))
                        } else {
                            match spec_block(sig, lines, m3 + 1) {
                                Err(e) => Err(e),
                                Ok((else_block, m4)) => Ok((StmtV::If { condition: cond, then_block, else_block, line: line_of(lines, m) }, m4)),
                            }
                        }
                    } else {
                        Ok((StmtV::If { condition: cond, then_block, else_block: Seq::empty(), line: line_of(lines, m) }, m3))
                    },
                }
            },
        },
    }
}

/// `while` ( expressions ) block   (from just after `while`)
pub open spec fn spec_while(sig: Seq<TokenV>, lines: Seq<nat>, m: nat) -> Result<(StmtV, nat), (SyntaxErrors, nat, Seq<char>)>
    decreases sig.len() - m, 2nat,
{
    match spec_check(sig, m, TokenV::LParen) {
        Err(e) => Err(e),
        Ok(m1) => match spec_exprs(sig, m1, TokenV::RParen) {
            Err(e) => Err(e),
            Ok((cond, m2)) => if m2 <= m || m2 > sig.len() {
                Err((SyntaxErrors::SYNTAX_EXPECTED_EXPRS, m2, "expected an expression"@))
            } else {
                match spec_block(sig, lines, m2) {
                    Err(e) => Err(e),
                    Ok((body, m3)) => Ok((StmtV::While { condition: cond, body, line: line_of(lines, m) }, m3)),
                }
            },
        },
    }
}

/// Adds parameter `n: t`; a name already present gets the new type in its place.
pub open spec fn put_param(ps: Seq<(Seq<char>, TypeV)>, n: Seq<char>, t: TypeV) -> Seq<(Seq<char>, TypeV)> {
    if exists|k: int| 0 <= k < ps.len() && (#[trigger] ps[k]).0 == n {
        let k = choose|k: int| 0 <= k < ps.len() && (#[trigger] ps[k]).0 == n;
        ps.update(k, (n, t))
    } else {
        ps.push((n, t))
    }
}

/// Parameters after `(`, each `name: Type`, up to and including `)`.
pub open spec fn spec_params(sig: Seq<TokenV>, m: nat, ps: Seq<(Seq<char>, TypeV)>) -> Result<(Seq<(Seq<char>, TypeV)>, nat), (SyntaxErrors, nat, Seq<char>)>
    decreases sig.len() - m,
{
    match tk(sig, m) {
        TokenV::Identifier(p) => match spec_type(sig, m + 1) {
            Err(e) => Err(e),
            Ok((ty, m1)) => if ty is Void {
                Err((SyntaxErrors::SYNTAX_MISSING_TYPE, m1, quoted("missing `type` for parameter `"@, TokenV::Identifier(p), "`"@)))
            } else {
                match tk(sig, m1) {
                    TokenV::Comma => spec_params(sig, m1 + 1, put_param(ps, p, ty)),
                    TokenV::RParen => Ok((put_param(ps, p, ty), m1 + 1)),
                    _ => Err((SyntaxErrors::SYNTAX_UNEXPECTED_TOKEN, adv(sig, m1), quoted("unexpected token `"@, tk(sig, m1), "`"@))),
                }
            },
        },
        TokenV::Comma => spec_params(sig, m + 1, ps),
        TokenV::RParen => Ok((ps, m + 1)),
        _ => Err((SyntaxErrors::SYNTAX_UNEXPECTED_TOKEN, adv(sig, m), quoted("unexpected token `"@, tk(sig, m), "`"@))),
    }
}

/// `func` name ( parameters ) [: Type] block   (from just after `func`)
pub open spec fn spec_func(sig: Seq<TokenV>, lines: Seq<nat>, m: nat) -> Result<(StmtV, nat), (SyntaxErrors, nat, Seq<char>)> {
    match tk(sig, m) {
        TokenV::Identifier(name) => match spec_check(sig, m + 1, TokenV::LParen) {
            Err(e) => Err(e),
            Ok(m2) => match spec_params(sig, m2, Seq::empty()) {
                Err(e) => Err(e),
                Ok((ps, m3)) => match spec_type(sig, m3) {
                    Err(e) => Err(e),
                    Ok((rt, m4)) => match spec_block(sig, lines, m4) {
                        Err(e) => Err(e),
                        Ok((body, m5)) => Ok((StmtV::Func { name, parms: ps, body, return_type: rt, line: line_of(lines, m) }, m5)),
                    },
                },
            },
        },
        _ => Err((SyntaxErrors::SYNTAX_EXPECTED_NAME, adv(sig, m), quoted("expected `name` after `func`, found `"@, tk(sig, m), "`"@))),
    }
}

/// A whole program: function declarations up to the end of input.
pub open spec fn spec_program(sig: Seq<TokenV>, lines: Seq<nat>, m: nat) -> Result<Seq<StmtV>, (SyntaxErrors, nat, Seq<char>)>
    decreases sig.len() - m,
{
    match tk(sig, m) {
        TokenV::Keyword(Keywords::Func) => match spec_func(sig, lines, m + 1) {
            Err(e) => Err(e),
            Ok((f, m1)) => if m1 <= m || m1 > sig.len() {
                Err((SyntaxErrors::SYNTAX_UNEXPECTED_TOKEN, m1, "expected a function"@))
            } else {
                match spec_program(sig, lines, m1) {
                    Err(e) => Err(e),
                    Ok(rest) => Ok(seq![f] + rest),
                }
            },
        },
        TokenV::EOF => Ok(Seq::empty()),
        _ => Err((SyntaxErrors::SYNTAX_UNEXPECTED_TOKEN, adv(sig, m), quoted("unexpected token `"@, tk(sig, m), "`"@))),
    }
}

} // verus!
