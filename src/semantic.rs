//! Semantic analysis: scoped variable bindings, type inference for `let`, and type checks.
use vstd::prelude::*;
use crate::ast::{
    ExprV, Expression, Stantament, StmtV, exprs_v, lemma_func_v, lemma_if_v, lemma_stmts_push,
    lemma_while_v, parms_v, stmt_v, stmts_v,
};
use crate::errors::{ErrorCode, SemanticError};
use crate::token::{Literal, LiteralV, Type, TypeV, literal_text, type_text};

verus! {

broadcast use vstd::std_specs::vec::group_vec_axioms, vstd::seq::group_seq_axioms;

/// The type bound to `n`: the latest binding wins.
pub open spec fn lookup(scope: Seq<(Seq<char>, TypeV)>, n: Seq<char>) -> Option<TypeV>
    decreases scope.len(),
{
    if scope.len() == 0 {
        None
    } else if scope.last().0 == n {
        Some(scope.last().1)
    } else {
        lookup(scope.drop_last(), n)
    }
}

/// The type of a value; `None` for a name that is not bound.
pub open spec fn value_type(v: LiteralV, scope: Seq<(Seq<char>, TypeV)>) -> Option<TypeV> {
    match v {
        LiteralV::Default => Some(TypeV::Void),
        LiteralV::Char(_) => Some(TypeV::Char),
        LiteralV::Integer(_) => Some(TypeV::I32),
        LiteralV::Long(_) => Some(TypeV::I64),
        LiteralV::Float(_) => Some(TypeV::F32),
        LiteralV::Double(_) => Some(TypeV::F64),
        LiteralV::String(_) => Some(TypeV::String),
        LiteralV::Boolean(_) => Some(TypeV::Boolean),
        LiteralV::Var(n) => lookup(scope, n),
    }
}

/// The note for a name that is not bound: it names the variable.
pub open spec fn undeclared_note(v: LiteralV) -> Seq<char> {
    "'"@ + literal_text(v) + "' not declared in scope."@
}

/// The note for a type mismatch: the expected type, then the one found.
pub open spec fn mismatch_note(expected: TypeV, found: TypeV) -> Seq<char> {
    "expected `"@ + type_text(expected) + "`, found `"@ + type_text(found) + "`"@
}

/// The type a `let` ends up with: each expression in turn must have the declared type,
/// or, while none is known yet, gives it. Binary expressions are not typed yet.
pub open spec fn infer(scope: Seq<(Seq<char>, TypeV)>, ty: TypeV, es: Seq<ExprV>, line: nat) -> Result<TypeV, (ErrorCode, nat, Seq<char>)>
    decreases es.len(),
{
    if es.len() == 0 {
        Ok(ty)
    } else {
        match es[0] {
            ExprV::Unary { value, .. } => match value_type(value, scope) {
                None => Err((ErrorCode::STATUS_NOT_DECLARED_VARIABLE, line, undeclared_note(value))),
                Some(vt) => if ty == TypeV::Void || ty == vt {
                    infer(scope, vt, es.drop_first(), line)
                } else {
                    Err((ErrorCode::STATUS_MISMATCHED_TYPES, line, mismatch_note(ty, vt)))
                },
            },
            ExprV::Binary { .. } => Err((ErrorCode::STATUS_FAILED_TYPING, line, "binary expressions are not typed yet"@)),
        }
    }
}

/// `pre` in front of a successful result.
pub open spec fn glue(pre: Seq<StmtV>, r: Result<Seq<StmtV>, (ErrorCode, nat, Seq<char>)>) -> Result<Seq<StmtV>, (ErrorCode, nat, Seq<char>)> {
    match r {
        Ok(s) => Ok(pre + s),
        Err(e) => Err(e),
    }
}

/// Checks statements `ss[i..]` of a block in `scope`; gives them with inferred types.
/// A `let` binds its name for the statements after it; nested blocks see the bindings
/// made before them, and theirs end with them.
pub open spec fn check_block(scope: Seq<(Seq<char>, TypeV)>, ss: Seq<StmtV>, i: int) -> Result<Seq<StmtV>, (ErrorCode, nat, Seq<char>)>
    decreases ss, ss.len() - i,
{
    if i < 0 || i >= ss.len() {
        Ok(Seq::empty())
    } else {
        match ss[i] {
            StmtV::Let { name, typedef, expr, line } => match infer(scope, typedef, expr, line) {
                Err(e) => Err(e),
                Ok(t) => glue(
                    seq![StmtV::Let { name, typedef: t, expr, line }],
                    check_block(scope.push((name, t)), ss, i + 1),
                ),
            },
            StmtV::If { condition, then_block, else_block, line } => match check_block(scope, then_block, 0) {
                Err(e) => Err(e),
                Ok(t2) => match check_block(scope, else_block, 0) {
                    Err(e) => Err(e),
                    Ok(e2) => glue(
                        seq![StmtV::If { condition, then_block: t2, else_block: e2, line }],
                        check_block(scope, ss, i + 1),
                    ),
                },
            },
            StmtV::While { condition, body, line } => match check_block(scope, body, 0) {
                Err(e) => Err(e),
                Ok(b2) => glue(seq![StmtV::While { condition, body: b2, line }], check_block(scope, ss, i + 1)),
            },
            other => glue(seq![other], check_block(scope, ss, i + 1)),
        }
    }
}

pub open spec fn stmt_line(s: StmtV) -> nat {
    match s {
        StmtV::Let { line, .. } => line,
        StmtV::If { line, .. } => line,
        StmtV::While { line, .. } => line,
        StmtV::Return { .. } => 0,
        StmtV::Func { line, .. } => line,
    }
}

/// Checks each top-level function `ss[i..]`, its body seeing its parameters.
pub open spec fn check_program(ss: Seq<StmtV>, i: int) -> Result<Seq<StmtV>, (ErrorCode, nat, Seq<char>)>
    decreases ss.len() - i,
{
    if i < 0 || i >= ss.len() {
        Ok(Seq::empty())
    } else {
        match ss[i] {
            StmtV::Func { name, parms, body, return_type, line } => match check_block(parms, body, 0) {
                Err(e) => Err(e),
                Ok(b2) => glue(
                    seq![StmtV::Func { name, parms, body: b2, return_type, line }],
                    check_program(ss, i + 1),
                ),
            },
            other => Err((ErrorCode::STATUS_FUNCTION_PROTO_ERROR, stmt_line(other), "only functions may stand at the top level"@)),
        }
    }
}

proof fn lemma_glue(a: Seq<StmtV>, b: Seq<StmtV>, r: Result<Seq<StmtV>, (ErrorCode, nat, Seq<char>)>)
    ensures
        glue(a, glue(b, r)) == glue(a + b, r),
{
    if let Ok(s) = r {
        assert(a + (b + s) =~= (a + b) + s);
    }
}

fn lookup_exec(scope: &Vec<(String, Type)>, n: &String) -> (r: Option<Type>)
    ensures
        match (r, lookup(parms_v(scope@), n@)) {
            (Some(t), Some(tv)) => t@ == tv,
            (None, None) => true,
            _ => false,
        },
{
    let mut k: usize = scope.len();
    assert(parms_v(scope@).take(k as int) =~= parms_v(scope@));
    while k > 0
        invariant
            k <= scope@.len(),
            lookup(parms_v(scope@), n@) == lookup(parms_v(scope@).take(k as int), n@),
        decreases k,
    {
        let ghost pre = parms_v(scope@).take(k as int);
        assert(pre.drop_last() =~= parms_v(scope@).take(k - 1));
        if scope[k - 1].0 == *n {
            return Some(scope[k - 1].1.duplicate());
        }
        k = k - 1;
    }
    assert(parms_v(scope@).take(0) =~= Seq::<(Seq<char>, TypeV)>::empty());
    None
}

fn value_type_exec(v: &Literal, scope: &Vec<(String, Type)>) -> (r: Option<Type>)
    ensures
        match (r, value_type(v@, parms_v(scope@))) {
            (Some(t), Some(tv)) => t@ == tv,
            (None, None) => true,
            _ => false,
        },
{
    match v {
        Literal::Default => Some(Type::Void),
        Literal::Char(_) => Some(Type::Char),
        Literal::Integer(_) => Some(Type::I32),
        Literal::Long(_) => Some(Type::I64),
        Literal::Float(_) => Some(Type::F32),
        Literal::Double(_) => Some(Type::F64),
        Literal::String(_) => Some(Type::String),
        Literal::Boolean(_) => Some(Type::Boolean),
        Literal::Var(n) => lookup_exec(scope, n),
    }
}

fn infer_exec(scope: &Vec<(String, Type)>, ty: Type, es: &Vec<Expression>, line: usize) -> (r: Result<Type, SemanticError>)
    ensures
        match (r, infer(parms_v(scope@), ty@, exprs_v(es@), line as nat)) {
            (Ok(t), Ok(tv)) => t@ == tv,
            (Err(d), Err(e)) => d.status == e.0 && d.line == e.1 && d.note@ == e.2,
            _ => false,
        },
{
    let ghost sc = parms_v(scope@);
    let ghost all = exprs_v(es@);
    let ghost ty0 = ty@;
    let mut cur = ty.duplicate();
    let mut i: usize = 0;
    assert(all.skip(0) =~= all);
    while i < es.len()
        invariant
            i <= es@.len(),
            sc == parms_v(scope@),
            all == exprs_v(es@),
            ty0 == ty@,
            infer(sc, ty0, all, line as nat) == infer(sc, cur@, all.skip(i as int), line as nat),
        decreases es@.len() - i,
    {
        let ghost rest = all.skip(i as int);
        assert(rest.len() > 0);
        assert(rest[0] == all[i as int]);
        assert(all[i as int] == crate::ast::expr_v(es@[i as int]));
        assert(rest.drop_first() =~= all.skip(i + 1));
        match &es[i] {
            Expression::Unary(u) => match value_type_exec(&u.value, scope) {
                None => {
                    let mut note = String::from_str("'");
                    let t = u.value.text();
                    note.append(t.as_str());
                    note.append("' not declared in scope.");
                    return Err(SemanticError { status: ErrorCode::STATUS_NOT_DECLARED_VARIABLE, line, note });
                },
                Some(vt) => {
                    if cur.is_any() || cur == vt {
                        cur = vt;
                    } else {
                        let mut note = String::from_str("expected `");
                        let a = cur.name();
                        note.append(a.as_str());
                        note.append("`, found `");
                        let b = vt.name();
                        note.append(b.as_str());
                        note.append("`");
                        return Err(SemanticError { status: ErrorCode::STATUS_MISMATCHED_TYPES, line, note });
                    }
                },
            },
            Expression::Binary(_) => {
                let note = String::from_str("binary expressions are not typed yet");
                assert(note@ == "binary expressions are not typed yet"@);
                return Err(SemanticError { status: ErrorCode::STATUS_FAILED_TYPING, line, note });
            },
        }
        i = i + 1;
    }
    assert(all.skip(i as int) =~= Seq::<ExprV>::empty());
    Ok(cur)
}

/// A copy of a list of bindings.
fn copy_bindings(ps: &Vec<(String, Type)>) -> (r: Vec<(String, Type)>)
    ensures
        parms_v(r@) == parms_v(ps@),
{
    let mut r: Vec<(String, Type)> = Vec::new();
    let mut i: usize = 0;
    while i < ps.len()
        invariant
            i <= ps@.len(),
            parms_v(r@) == parms_v(ps@).take(i as int),
        decreases ps@.len() - i,
    {
        let n = ps[i].0.clone();
        let t = ps[i].1.duplicate();
        let ghost before = parms_v(r@);
        r.push((n, t));
        assert(parms_v(r@) =~= before.push((ps@[i as int].0@, ps@[i as int].1@)));
        assert(parms_v(ps@).take(i + 1) =~= parms_v(ps@).take(i as int).push((ps@[i as int].0@, ps@[i as int].1@)));
        i = i + 1;
    }
    assert(parms_v(ps@).take(i as int) =~= parms_v(ps@));
    r
}

fn error_at(status: ErrorCode, line: usize, note: &str) -> (d: SemanticError)
    ensures
        d.status == status,
        d.line == line,
        d.note@ == note@,
{
    SemanticError { status, line, note: String::from_str(note) }
}

/// Checks a block in `scope`; the bindings it makes are gone afterwards.
fn analyse_block(scope: &mut Vec<(String, Type)>, stmts: Vec<Stantament>) -> (r: Result<Vec<Stantament>, SemanticError>)
    ensures
        final(scope)@ == old(scope)@,
        match (r, check_block(parms_v(old(scope)@), stmts_v(stmts@), 0)) {
            (Ok(v), Ok(sv)) => stmts_v(v@) == sv,
            (Err(d), Err(e)) => d.status == e.0 && d.line == e.1 && d.note@ == e.2,
            _ => false,
        },
    decreases stmts,
{
    let base = scope.len();
    let ghost sc0 = parms_v(scope@);
    let ghost orig = stmts@;
    let ghost ss = stmts_v(orig);
    let mut out: Vec<Stantament> = Vec::new();
    assert(stmts_v(out@) =~= Seq::empty());
    assert(glue(Seq::empty(), check_block(sc0, ss, 0)) == check_block(sc0, ss, 0)) by {
        if let Ok(x) = check_block(sc0, ss, 0) {
            assert(Seq::<StmtV>::empty() + x =~= x);
        }
    }
    for s in it: stmts.into_iter()
        invariant
            it.seq() == orig,
            orig == stmts@,
            ss == stmts_v(orig),
            base == old(scope)@.len(),
            scope@.len() >= base,
            scope@.subrange(0, base as int) == old(scope)@,
            sc0 == parms_v(old(scope)@),
            check_block(sc0, ss, 0) == glue(stmts_v(out@), check_block(parms_v(scope@), ss, it.index() as int)),
    {
        let ghost k = it.index() as int;
        let ghost sc = parms_v(scope@);
        let ghost before = stmts_v(out@);
        assert(ss[k] == stmt_v(orig[k]));
        match s {
            Stantament::Let { name, typedef, expr, line } => {
                match infer_exec(scope, typedef, &expr, line) {
                    Err(d) => {
                        scope.truncate(base);
                        return Err(d);
                    },
                    Ok(t) => {
                        let st = Stantament::Let { name: name.clone(), typedef: t.duplicate(), expr, line };
                        let ghost sv = stmt_v(st);
                        scope.push((name, t));
                        assert(parms_v(scope@) =~= sc.push((sv->Let_name, sv->Let_typedef)));
                        assert(scope@.subrange(0, base as int) =~= old(scope)@);
                        proof {
                            lemma_stmts_push(out@, st);
                            lemma_glue(before, seq![sv], check_block(parms_v(scope@), ss, k + 1));
                            assert(before.push(sv) =~= before + seq![sv]);
                            assert(check_block(sc, ss, k) == glue(seq![sv], check_block(parms_v(scope@), ss, k + 1)));
                        }
                        out.push(st);
                    },
                }
            },
            Stantament::If { condition, then_block, else_block, line } => {
                proof { lemma_if_v(orig[k]); }
                let t2 = match analyse_block(scope, then_block) {
                    Ok(b) => b,
                    Err(d) => {
                        scope.truncate(base);
                        return Err(d);
                    },
                };
                let e2 = match analyse_block(scope, else_block) {
                    Ok(b) => b,
                    Err(d) => {
                        scope.truncate(base);
                        return Err(d);
                    },
                };
                let st = Stantament::If { condition, then_block: t2, else_block: e2, line };
                proof {
                    lemma_if_v(st);
                    lemma_stmts_push(out@, st);
                    lemma_glue(before, seq![stmt_v(st)], check_block(parms_v(scope@), ss, k + 1));
                    assert(before.push(stmt_v(st)) =~= before + seq![stmt_v(st)]);
                }
                out.push(st);
            },
            Stantament::While { condition, body, line } => {
                proof { lemma_while_v(orig[k]); }
                let b2 = match analyse_block(scope, body) {
                    Ok(b) => b,
                    Err(d) => {
                        scope.truncate(base);
                        return Err(d);
                    },
                };
                let st = Stantament::While { condition, body: b2, line };
                proof {
                    lemma_while_v(st);
                    lemma_stmts_push(out@, st);
                    lemma_glue(before, seq![stmt_v(st)], check_block(parms_v(scope@), ss, k + 1));
                    assert(before.push(stmt_v(st)) =~= before + seq![stmt_v(st)]);
                }
                out.push(st);
            },
            other => {
                proof {
                    lemma_stmts_push(out@, other);
                    lemma_glue(before, seq![stmt_v(other)], check_block(parms_v(scope@), ss, k + 1));
                    assert(before.push(stmt_v(other)) =~= before + seq![stmt_v(other)]);
                }
                out.push(other);
            },
        }
    }
    proof {
        assert(check_block(parms_v(scope@), ss, ss.len() as int) == Ok::<Seq<StmtV>, (ErrorCode, nat, Seq<char>)>(Seq::empty()));
        assert(stmts_v(out@) + Seq::<StmtV>::empty() =~= stmts_v(out@));
    }
    scope.truncate(base);
    Ok(out)
}

/// Checks each top-level function, its body seeing its parameters.
fn analyse_program(stmts: Vec<Stantament>) -> (r: Result<Vec<Stantament>, SemanticError>)
    ensures
        match (r, check_program(stmts_v(stmts@), 0)) {
            (Ok(v), Ok(sv)) => stmts_v(v@) == sv,
            (Err(d), Err(e)) => d.status == e.0 && d.line == e.1 && d.note@ == e.2,
            _ => false,
        },
{
    let ghost orig = stmts@;
    let ghost ss = stmts_v(orig);
    let mut out: Vec<Stantament> = Vec::new();
    assert(stmts_v(out@) =~= Seq::empty());
    assert(glue(Seq::empty(), check_program(ss, 0)) == check_program(ss, 0)) by {
        if let Ok(x) = check_program(ss, 0) {
            assert(Seq::<StmtV>::empty() + x =~= x);
        }
    }
    for s in it: stmts.into_iter()
        invariant
            it.seq() == orig,
            ss == stmts_v(orig),
            check_program(ss, 0) == glue(stmts_v(out@), check_program(ss, it.index() as int)),
    {
        let ghost k = it.index() as int;
        let ghost before = stmts_v(out@);
        assert(ss[k] == stmt_v(orig[k]));
        match s {
            Stantament::Func { name, parms, body, return_type, line } => {
                proof { lemma_func_v(orig[k]); }
                let mut scope = copy_bindings(&parms);
                let b2 = match analyse_block(&mut scope, body) {
                    Ok(b) => b,
                    Err(d) => return Err(d),
                };
                let st = Stantament::Func { name, parms, body: b2, return_type, line };
                proof {
                    lemma_func_v(st);
                    lemma_stmts_push(out@, st);
                    lemma_glue(before, seq![stmt_v(st)], check_program(ss, k + 1));
                    assert(before.push(stmt_v(st)) =~= before + seq![stmt_v(st)]);
                }
                out.push(st);
            },
            Stantament::Let { line, .. } => {
                return Err(error_at(ErrorCode::STATUS_FUNCTION_PROTO_ERROR, line, "only functions may stand at the top level"));
            },
            Stantament::If { line, .. } => {
                proof { lemma_if_v(orig[k]); }
                return Err(error_at(ErrorCode::STATUS_FUNCTION_PROTO_ERROR, line, "only functions may stand at the top level"));
            },
            Stantament::While { line, .. } => {
                proof { lemma_while_v(orig[k]); }
                return Err(error_at(ErrorCode::STATUS_FUNCTION_PROTO_ERROR, line, "only functions may stand at the top level"));
            },
            Stantament::Return { .. } => {
                return Err(error_at(ErrorCode::STATUS_FUNCTION_PROTO_ERROR, 0, "only functions may stand at the top level"));
            },
        }
    }
    proof {
        assert(stmts_v(out@) + Seq::<StmtV>::empty() =~= stmts_v(out@));
    }
    Ok(out)
}

/// Semantic analysis of one parsed source file.
pub struct Sematic {
    filename: String,
    ast: Vec<Stantament>,
}

impl Sematic {
    /// The tree to be analysed, as a view.
    pub closed spec fn tree(&self) -> Seq<StmtV> {
        stmts_v(self.ast@)
    }

    pub closed spec fn file_name(&self) -> Seq<char> {
        self.filename@
    }

    pub fn default(filename: &str, ast: Vec<Stantament>) -> (r: Sematic)
        ensures
            r.tree() == stmts_v(ast@),
            r.file_name() == filename@,
    {
        Sematic { filename: filename.to_owned(), ast }
    }

    pub fn filename(&self) -> (r: &str)
        ensures
            r@ == self.file_name(),
    {
        self.filename.as_str()
    }

    /// Checks every function and hands out the tree with the inferred `let` types,
    /// or the first semantic error.
    pub fn analyse(self) -> (r: Result<Vec<Stantament>, SemanticError>)
        ensures
            match (r, check_program(self.tree(), 0)) {
                (Ok(v), Ok(sv)) => stmts_v(v@) == sv,
                (Err(d), Err(e)) => d.status == e.0 && d.line == e.1 && d.note@ == e.2,
                _ => false,
            },
    {
        analyse_program(self.ast)
    }
}

} // verus!
