use exodusc::ast::{Binary, Expression, Stantament, Unary};
use exodusc::errors::{Diagnostic, ErrorCode, SyntaxErrors};
use exodusc::lexer::Lexer;
use exodusc::parser::Parser;
use exodusc::semantic::Sematic;
use exodusc::token::{Keywords, Literal, Operator, Token, Type};

fn parse(source: &str) -> Result<Vec<Stantament>, Diagnostic> {
    let lexer = Lexer::tokenization("main.exo", source);
    let mut parser = Parser::default(lexer);
    parser.analyse()
}

fn body(ast: &[Stantament]) -> &Vec<Stantament> {
    match &ast[0] {
        Stantament::Func { body, .. } => body,
        other => panic!("expected a function, got {:?}", other),
    }
}

#[test]
fn flat_binary_expression() {
    let ast = parse("func f() { let x = 2 + 3; }").unwrap();
    assert_eq!(ast.len(), 1);
    match &body(&ast)[0] {
        Stantament::Let { name, typedef, expr, .. } => {
            assert_eq!(name, "x");
            assert_eq!(*typedef, Type::Void);
            assert_eq!(expr.len(), 1);
            match &expr[0] {
                Expression::Binary(Binary { x, operator, y }) => {
                    assert_eq!(*x, Literal::Integer(2));
                    assert_eq!(*operator, Operator::ADD);
                    assert_eq!(*y, Literal::Integer(3));
                },
                other => panic!("expected a binary expression, got {:?}", other),
            }
        },
        other => panic!("expected a let, got {:?}", other),
    }
}

#[test]
fn longer_chains_stay_flat() {
    let ast = parse("func f() { let x = 2 + 3 * y; }").unwrap();
    match &body(&ast)[0] {
        Stantament::Let { expr, .. } => {
            assert_eq!(expr.len(), 2);
            match &expr[1] {
                Expression::Unary(Unary { operator, value }) => {
                    assert_eq!(*operator, Some(Operator::MUL));
                    assert_eq!(*value, Literal::Var(String::from("y")));
                },
                other => panic!("expected a unary fragment, got {:?}", other),
            }
        },
        other => panic!("expected a let, got {:?}", other),
    }
}

#[test]
fn function_with_parameters_and_return_type() {
    let ast = parse("func add(a: i32, b: i64): bool { return a; }").unwrap();
    match &ast[0] {
        Stantament::Func { name, parms, return_type, body, line } => {
            assert_eq!(name, "add");
            assert_eq!(parms.len(), 2);
            assert_eq!(parms[0].0, "a");
            assert_eq!(parms[0].1, Type::I32);
            assert_eq!(parms[1].1, Type::I64);
            assert_eq!(*return_type, Type::Boolean);
            assert_eq!(*line, 1);
            assert!(matches!(body[0], Stantament::Return { .. }));
        },
        other => panic!("expected a function, got {:?}", other),
    }
}

#[test]
fn duplicate_parameter_takes_last_type() {
    let ast = parse("func f(a: i32, a: bool) { }").unwrap();
    match &ast[0] {
        Stantament::Func { parms, .. } => {
            assert_eq!(parms.len(), 1);
            assert_eq!(parms[0].1, Type::Boolean);
        },
        other => panic!("expected a function, got {:?}", other),
    }
}

#[test]
fn if_else_and_while() {
    let ast = parse("func f() {\n if (a == b) { let x = 1; } else { let y = 2; }\n while (x < 3) { }\n}").unwrap();
    let b = body(&ast);
    match &b[0] {
        Stantament::If { condition, then_block, else_block, line } => {
            assert_eq!(condition.len(), 1);
            assert_eq!(then_block.len(), 1);
            assert_eq!(else_block.len(), 1);
            assert_eq!(*line, 2);
        },
        other => panic!("expected an if, got {:?}", other),
    }
    match &b[1] {
        Stantament::While { line, body, .. } => {
            assert_eq!(*line, 3);
            assert!(body.is_empty());
        },
        other => panic!("expected a while, got {:?}", other),
    }
}

#[test]
fn if_without_else_has_empty_else_block() {
    let ast = parse("func f() { if (true) { } }").unwrap();
    match &body(&ast)[0] {
        Stantament::If { else_block, .. } => assert!(else_block.is_empty()),
        other => panic!("expected an if, got {:?}", other),
    }
}

#[test]
fn missing_parameter_type() {
    let err = parse("func f(x) { }").unwrap_err();
    assert_eq!(err.code, SyntaxErrors::SYNTAX_MISSING_TYPE);
    assert_eq!(err.code.code(), "E0104");
}

#[test]
fn syntax_error_variants() {
    assert_eq!(parse("func (").unwrap_err().code, SyntaxErrors::SYNTAX_EXPECTED_NAME);
    assert_eq!(parse("func f x").unwrap_err().code, SyntaxErrors::SYNTAX_EXPECTED_TOKEN);
    assert_eq!(parse("let x = 1;").unwrap_err().code, SyntaxErrors::SYNTAX_UNEXPECTED_TOKEN);
    assert_eq!(parse("func f(x: ;").unwrap_err().code, SyntaxErrors::SYNTAX_EXPECTED_TYPE);
    assert_eq!(parse("func f() { let x = ; }").unwrap_err().code, SyntaxErrors::SYNTAX_EXPECTED_VALUE);
    assert_eq!(parse("func f() { let = 2; }").unwrap_err().code, SyntaxErrors::SYNTAX_EXPECTED_NAME);
}

#[test]
fn diagnostic_location() {
    let err = parse("func f() {\n  let = 2; }").unwrap_err();
    assert_eq!(err.code, SyntaxErrors::SYNTAX_EXPECTED_NAME);
    assert_eq!(err.line, 2);
    assert_eq!(err.column, 7);
    assert!(err.note.contains("="));
}

#[test]
fn error_codes() {
    assert_eq!(SyntaxErrors::SYNTAX_EXPECTED_NAME.code(), "E0100");
    assert_eq!(SyntaxErrors::SYNTAX_EXPECTED_TOKEN.code(), "E0101");
    assert_eq!(SyntaxErrors::SYNTAX_EXPECTED_TYPE.code(), "E0102");
    assert_eq!(SyntaxErrors::SYNTAX_UNEXPECTED_TOKEN.code(), "E0103");
    assert_eq!(SyntaxErrors::SYNTAX_EXPECTED_EXPRS.code(), "E0105");
    assert_eq!(SyntaxErrors::SYNTAX_EXPECTED_VALUE.code(), "E0106");
    assert_eq!(ErrorCode::STATUS_SEGMENT_FAILED.code(), 1000);
    assert_eq!(ErrorCode::STATUS_NOT_DECLARED_VARIABLE.code(), 1009);
    assert_eq!(ErrorCode::STATUS_MISMATCHED_TYPES.code(), 1010);
    assert_eq!(ErrorCode::STATUS_MISSING_VALUE.code(), 1011);
}

fn analyse(source: &str) -> Result<Vec<Stantament>, exodusc::errors::SemanticError> {
    let ast = parse(source).unwrap();
    Sematic::default("main.exo", ast).analyse()
}

#[test]
fn let_type_is_inferred() {
    let ast = analyse("func f() { let x = 2; }").unwrap();
    match &body(&ast)[0] {
        Stantament::Let { name, typedef, .. } => {
            assert_eq!(name, "x");
            assert_eq!(*typedef, Type::I32);
        },
        other => panic!("expected a let, got {:?}", other),
    }
}

#[test]
fn inferred_from_variable_and_parameter() {
    let ast = analyse("func f(p: string) { let x = 2147483648; let y = x; let z = p; }").unwrap();
    let b = body(&ast);
    let types: Vec<Type> = b
        .iter()
        .map(|s| match s {
            Stantament::Let { typedef, .. } => typedef.clone(),
            other => panic!("expected a let, got {:?}", other),
        })
        .collect();
    assert_eq!(types, vec![Type::I64, Type::I64, Type::String]);
}

#[test]
fn mismatched_annotation() {
    let err = analyse("func f() {\n let x: i64 = 2;\n let y: i32 = x;\n}").unwrap_err();
    assert_eq!(err.status, ErrorCode::STATUS_MISMATCHED_TYPES);
    assert_eq!(err.line, 2);
    let err = analyse("func f() {\n let x: i64 = 2147483648;\n let y: i32 = x;\n}").unwrap_err();
    assert_eq!(err.status, ErrorCode::STATUS_MISMATCHED_TYPES);
    assert_eq!(err.line, 3);
}

#[test]
fn if_scope_does_not_leak() {
    let err = analyse("func f() { if (true) { let x = 1; } let y = x; }").unwrap_err();
    assert_eq!(err.status, ErrorCode::STATUS_NOT_DECLARED_VARIABLE);
}

#[test]
fn undeclared_variable_cites_line() {
    let err = analyse("func f() {\n let a = 1;\n let b = c;\n}").unwrap_err();
    assert_eq!(err.status, ErrorCode::STATUS_NOT_DECLARED_VARIABLE);
    assert_eq!(err.line, 3);
    assert!(err.note.contains("c"));
}

#[test]
fn binary_initializer_is_not_typed() {
    let err = analyse("func f() { let x = 1 + 2; }").unwrap_err();
    assert_eq!(err.status, ErrorCode::STATUS_FAILED_TYPING);
}

#[test]
fn outer_bindings_are_visible_in_blocks() {
    let ast = analyse("func f() { let a = true; if (a) { let b = a; } else { let c = 'q'; } }").unwrap();
    match &body(&ast)[1] {
        Stantament::If { then_block, else_block, .. } => {
            assert!(matches!(&then_block[0], Stantament::Let { typedef: Type::Boolean, .. }));
            assert!(matches!(&else_block[0], Stantament::Let { typedef: Type::Char, .. }));
        },
        other => panic!("expected an if, got {:?}", other),
    }
}

#[test]
fn binary_new_keeps_parts() {
    let b = Binary::new(Literal::Integer(1), Operator::SUB, Literal::Var(String::from("v")));
    assert_eq!(b.x, Literal::Integer(1));
    assert_eq!(b.operator, Operator::SUB);
    assert_eq!(b.y, Literal::Var(String::from("v")));
    assert!(Type::Void.is_any());
    assert!(!Type::I8.is_any());
}

#[test]
fn only_functions_at_top_level() {
    let stray = Stantament::Let { name: String::from("x"), typedef: Type::Void, expr: Vec::new(), line: 4 };
    let err = Sematic::default("main.exo", vec![stray]).analyse().unwrap_err();
    assert_eq!(err.status, ErrorCode::STATUS_FUNCTION_PROTO_ERROR);
    assert_eq!(err.line, 4);
}

#[test]
fn names_in_messages() {
    assert_eq!(Type::Void.name(), "Any");
    assert_eq!(Type::U16.name(), "u16");
    assert_eq!(Type::Object(String::from("Point")).name(), "Point");
    assert_eq!(Keywords::Return.spelling(), "return");
    assert_eq!(Token::Keyword(Keywords::While).text(), "while");
    assert_eq!(Token::Literal(Literal::Integer(-5)).text(), "-5");
    assert_eq!(Token::Literal(Literal::Char('z')).text(), "z");
    assert_eq!(Token::EOF.text(), "end of file");
    assert_eq!(Sematic::default("a.exo", Vec::new()).filename(), "a.exo");
}

#[test]
fn parser_reset_reads_again() {
    let lexer = Lexer::tokenization("main.exo", "func f() { }");
    let mut parser = Parser::default(lexer);
    assert_eq!(parser.analyse().unwrap().len(), 1);
    assert_eq!(parser.analyse().unwrap().len(), 0);
    parser.reset();
    assert_eq!(parser.analyse().unwrap().len(), 1);
    assert_eq!(parser.lexer().filename(), "main.exo");
}

#[test]
fn notes_name_the_tokens() {
    let err = parse("func f x").unwrap_err();
    assert_eq!(err.note, "expected `(` after `x`");
    let err = parse("let x = 1;").unwrap_err();
    assert_eq!(err.note, "unexpected token `let`");
    let err = parse("func f() {\n let x = 1").unwrap_err();
    assert_eq!(err.code, SyntaxErrors::SYNTAX_EXPECTED_VALUE);
    assert_eq!(err.note, "expected a value before `end of file`");
    let err = analyse("func f() { let x: i64 = 2; }").unwrap_err();
    assert_eq!(err.note, "expected `i64`, found `i32`");
    let err = analyse("func f() { let b = c; }").unwrap_err();
    assert_eq!(err.note, "'c' not declared in scope.");
}

#[test]
fn error_at_end_of_input_is_on_the_last_line() {
    let err = parse("func f() {\n  let x = 1;\n\n").unwrap_err();
    assert_eq!(err.code, SyntaxErrors::SYNTAX_UNEXPECTED_TOKEN);
    assert_eq!(err.line, 4);
    assert_eq!(err.note, "unexpected token `end of file`");
}
