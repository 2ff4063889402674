//! The syntax tree: expressions, statements, and their mathematical views.
use vstd::prelude::*;
use crate::token::{Literal, LiteralV, Operator, Type, TypeV};

verus! {

broadcast use vstd::std_specs::vec::group_vec_axioms, vstd::seq::group_seq_axioms;

/// One value, optionally with one operator.
#[derive(Debug, Clone)]
pub struct Unary {
    pub operator: Option<Operator>,
    pub value: Literal,
}

/// Two values joined by one operator.
#[derive(Debug, Clone)]
pub struct Binary {
    pub x: Literal,
    pub operator: Operator,
    pub y: Literal,
}

impl Binary {
    pub fn new(x: Literal, operator: Operator, y: Literal) -> (r: Binary)
        ensures
            r.x == x,
            r.operator == operator,
            r.y == y,
    {
        Binary { x, operator, y }
    }
}

/// A fragment of a flat expression list: never more than two operands.
#[derive(Debug, Clone)]
pub enum Expression {
    Unary(Unary),
    Binary(Binary),
}

/// A statement; a block is a `Vec` of them.
#[derive(Debug)]
pub enum Stantament {
    Let { name: String, typedef: Type, expr: Vec<Expression>, line: usize },
    If { condition: Vec<Expression>, then_block: Vec<Stantament>, else_block: Vec<Stantament>, line: usize },
    While { condition: Vec<Expression>, body: Vec<Stantament>, line: usize },
    Return { expr: Vec<Expression> },
    Func {
        name: String,
        parms: Vec<(String, Type)>,
        body: Vec<Stantament>,
        return_type: Type,
        line: usize,
    },
}

pub ghost enum ExprV {
    Unary { operator: Option<Operator>, value: LiteralV },
    Binary { x: LiteralV, operator: Operator, y: LiteralV },
}

pub ghost enum StmtV {
    Let { name: Seq<char>, typedef: TypeV, expr: Seq<ExprV>, line: nat },
    If { condition: Seq<ExprV>, then_block: Seq<StmtV>, else_block: Seq<StmtV>, line: nat },
    While { condition: Seq<ExprV>, body: Seq<StmtV>, line: nat },
    Return { expr: Seq<ExprV> },
    Func {
        name: Seq<char>,
        parms: Seq<(Seq<char>, TypeV)>,
        body: Seq<StmtV>,
        return_type: TypeV,
        line: nat,
    },
}

pub open spec fn expr_v(e: Expression) -> ExprV {
    match e {
        Expression::Unary(u) => ExprV::Unary { operator: u.operator, value: u.value@ },
        Expression::Binary(b) => ExprV::Binary { x: b.x@, operator: b.operator, y: b.y@ },
    }
}

pub open spec fn exprs_v(v: Seq<Expression>) -> Seq<ExprV> {
    Seq::new(v.len(), |i: int| expr_v(v[i]))
}

pub open spec fn parms_v(v: Seq<(String, Type)>) -> Seq<(Seq<char>, TypeV)> {
    Seq::new(v.len(), |i: int| (v[i].0@, v[i].1@))
}

pub open spec fn stmt_v(s: Stantament) -> StmtV
    decreases s,
{
    match s {
        Stantament::Let { name, typedef, expr, line } => StmtV::Let {
            name: name@,
            typedef: typedef@,
            expr: exprs_v(expr@),
            line: line as nat,
        },
        Stantament::If { condition, then_block, else_block, line } => StmtV::If {
            condition: exprs_v(condition@),
            then_block: Seq::new(
                then_block@.len(),
                |i: int| if 0 <= i < then_block@.len() { stmt_v(then_block@[i]) } else { StmtV::Return { expr: Seq::empty() } },
            ),
            else_block: Seq::new(
                else_block@.len(),
                |i: int| if 0 <= i < else_block@.len() { stmt_v(else_block@[i]) } else { StmtV::Return { expr: Seq::empty() } },
            ),
            line: line as nat,
        },
        Stantament::While { condition, body, line } => StmtV::While {
            condition: exprs_v(condition@),
            body: Seq::new(
                body@.len(),
                |i: int| if 0 <= i < body@.len() { stmt_v(body@[i]) } else { StmtV::Return { expr: Seq::empty() } },
            ),
            line: line as nat,
        },
        Stantament::Return { expr } => StmtV::Return { expr: exprs_v(expr@) },
        Stantament::Func { name, parms, body, return_type, line } => StmtV::Func {
            name: name@,
            parms: parms_v(parms@),
            body: Seq::new(
                body@.len(),
                |i: int| if 0 <= i < body@.len() { stmt_v(body@[i]) } else { StmtV::Return { expr: Seq::empty() } },
            ),
            return_type: return_type@,
            line: line as nat,
        },
    }
}

pub open spec fn stmts_v(v: Seq<Stantament>) -> Seq<StmtV> {
    Seq::new(v.len(), |i: int| stmt_v(v[i]))
}

/// The view of an `If` statement is made of the views of its parts.
pub proof fn lemma_if_v(s: Stantament)
    requires
        s is If,
    ensures
        stmt_v(s) == (StmtV::If {
            condition: exprs_v(s->If_condition@),
            then_block: stmts_v(s->If_then_block@),
            else_block: stmts_v(s->If_else_block@),
            line: s->If_line as nat,
        }),
{
    if let StmtV::If { then_block, else_block, .. } = stmt_v(s) {
        assert(then_block =~= stmts_v(s->If_then_block@));
        assert(else_block =~= stmts_v(s->If_else_block@));
    }
}

/// The view of a `While` statement is made of the views of its parts.
pub proof fn lemma_while_v(s: Stantament)
    requires
        s is While,
    ensures
        stmt_v(s) == (StmtV::While {
            condition: exprs_v(s->While_condition@),
            body: stmts_v(s->While_body@),
            line: s->While_line as nat,
        }),
{
    if let StmtV::While { body, .. } = stmt_v(s) {
        assert(body =~= stmts_v(s->While_body@));
    }
}

/// The view of a `Func` declaration is made of the views of its parts.
pub proof fn lemma_func_v(s: Stantament)
    requires
        s is Func,
    ensures
        stmt_v(s) == (StmtV::Func {
            name: s->Func_name@,
            parms: parms_v(s->Func_parms@),
            body: stmts_v(s->Func_body@),
            return_type: s->Func_return_type@,
            line: s->Func_line as nat,
        }),
{
    if let StmtV::Func { body, .. } = stmt_v(s) {
        assert(body =~= stmts_v(s->Func_body@));
    }
}

/// Appending a statement appends its view.
pub proof fn lemma_stmts_push(v: Seq<Stantament>, s: Stantament)
    ensures
        stmts_v(v.push(s)) == stmts_v(v).push(stmt_v(s)),
{
    assert(stmts_v(v.push(s)) =~= stmts_v(v).push(stmt_v(s)));
}

/// Appending an expression appends its view.
pub proof fn lemma_exprs_push(v: Seq<Expression>, e: Expression)
    ensures
        exprs_v(v.push(e)) == exprs_v(v).push(expr_v(e)),
{
    assert(exprs_v(v.push(e)) =~= exprs_v(v).push(expr_v(e)));
}

} // verus!
