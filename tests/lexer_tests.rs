use exodusc::lexer::Lexer;
use exodusc::token::{Keywords, Literal, Operator, Token, Type};

#[test]
fn tokenization_identifier() {
    let source = "x";

    let mut lexer = Lexer::tokenization("main", source);
    assert_eq!(lexer.next(), Token::Identifier(String::from("x")));
    assert_eq!(lexer.next(), Token::EOF);
}

#[test]
fn tokenization_number_integer() {
    let source = "256";

    let mut lexer = Lexer::tokenization("main", source);
    assert_eq!(lexer.next(), Token::Literal(Literal::Integer(256)));
    assert_eq!(lexer.next(), Token::EOF);
}

#[test]
fn tokenization_number_floating() {
    let source = "73.81";

    let mut lexer = Lexer::tokenization("main", source);
    match lexer.next() {
        Token::Literal(Literal::Float(text)) => assert_eq!(text.parse::<f64>().unwrap(), 73.81),
        other => panic!("expected a float literal, got {:?}", other),
    }
    assert_eq!(lexer.next(), Token::EOF);
}

#[test]
fn tokenization_type_i32() {
    let source = "i32";

    let mut lexer = Lexer::tokenization("main", source);
    assert_eq!(lexer.next(), Token::Type(Type::I32));
    assert_eq!(lexer.next(), Token::EOF);
}

#[test]
fn tokenization_type_f32() {
    let source = "f32";

    let mut lexer = Lexer::tokenization("main", source);
    assert_eq!(lexer.next(), Token::Type(Type::F32));
    assert_eq!(lexer.next(), Token::EOF);
}

#[test]
fn tokenization_let_keyword() {
    let source = "let x = 2;";

    let mut lexer = Lexer::tokenization("main", source);
    assert_eq!(lexer.next(), Token::Keyword(Keywords::Let));
    assert_eq!(lexer.next(), Token::Identifier(String::from("x")));
    assert_eq!(lexer.next(), Token::Operator(Operator::ASSIGNMENT));
    assert_eq!(lexer.next(), Token::Literal(Literal::Integer(2)));
    assert_eq!(lexer.next(), Token::Semicolon);
    assert_eq!(lexer.next(), Token::EOF);
}

#[test]
fn tokenization_if_keyword() {
    let source = "if (2 > 5) { }";

    let mut lexer = Lexer::tokenization("main", source);
    assert_eq!(lexer.next(), Token::Keyword(Keywords::If));
    assert_eq!(lexer.next(), Token::LParen);
    assert_eq!(lexer.next(), Token::Literal(Literal::Integer(2)));
    assert_eq!(lexer.next(), Token::Operator(Operator::GT));
    assert_eq!(lexer.next(), Token::Literal(Literal::Integer(5)));
    assert_eq!(lexer.next(), Token::RParen);
    assert_eq!(lexer.next(), Token::LBrace);
    assert_eq!(lexer.next(), Token::RBrace);
    assert_eq!(lexer.next(), Token::EOF);
}

fn single(source: &str) -> Token {
    let mut lexer = Lexer::tokenization("main", source);
    let t = lexer.next();
    assert_eq!(lexer.next(), Token::EOF, "more than one token in {:?}", source);
    t
}

#[test]
fn every_keyword_is_one_token() {
    assert_eq!(single("let"), Token::Keyword(Keywords::Let));
    assert_eq!(single("if"), Token::Keyword(Keywords::If));
    assert_eq!(single("else"), Token::Keyword(Keywords::Else));
    assert_eq!(single("func"), Token::Keyword(Keywords::Func));
    assert_eq!(single("return"), Token::Keyword(Keywords::Return));
    assert_eq!(single("while"), Token::Keyword(Keywords::While));
}

#[test]
fn every_operator_is_one_token() {
    let cases = [
        ("+", Operator::ADD),
        ("-", Operator::SUB),
        ("*", Operator::MUL),
        ("/", Operator::DIV),
        ("%", Operator::MOD),
        ("==", Operator::EQUAL),
        ("<", Operator::LT),
        (">", Operator::GT),
        ("!=", Operator::NOTEQ),
        ("&&", Operator::AND),
        ("||", Operator::OR),
        ("&", Operator::ADDRESSING),
        ("!", Operator::NOT),
        ("->", Operator::ARROW),
        ("::", Operator::NAVIGATION),
        ("=", Operator::ASSIGNMENT),
    ];
    for (text, op) in cases {
        assert_eq!(single(text), Token::Operator(op));
        assert_eq!(op.spelling(), text);
    }
}

#[test]
fn every_type_name_is_one_token() {
    let cases = [
        ("i8", Type::I8),
        ("i16", Type::I16),
        ("i32", Type::I32),
        ("i64", Type::I64),
        ("u8", Type::U8),
        ("u16", Type::U16),
        ("u32", Type::U32),
        ("u64", Type::U64),
        ("f32", Type::F32),
        ("f64", Type::F64),
        ("string", Type::String),
        ("char", Type::Char),
        ("bool", Type::Boolean),
    ];
    for (text, ty) in cases {
        assert_eq!(single(text), Token::Type(ty));
    }
}

#[test]
fn punctuation_and_literals_are_one_token() {
    assert_eq!(single("."), Token::Dot);
    assert_eq!(single(","), Token::Comma);
    assert_eq!(single(":"), Token::Colon);
    assert_eq!(single(";"), Token::Semicolon);
    assert_eq!(single("@"), Token::AtSign);
    assert_eq!(single("("), Token::LParen);
    assert_eq!(single(")"), Token::RParen);
    assert_eq!(single("{"), Token::LBrace);
    assert_eq!(single("}"), Token::RBrace);
    assert_eq!(single("true"), Token::Literal(Literal::Boolean(true)));
    assert_eq!(single("false"), Token::Literal(Literal::Boolean(false)));
    assert_eq!(single("\"hi there\""), Token::Literal(Literal::String(String::from("hi there"))));
    assert_eq!(single("'c'"), Token::Literal(Literal::Char('c')));
    assert_eq!(single("-17"), Token::Literal(Literal::Integer(-17)));
}

#[test]
fn longest_match_wins() {
    assert_eq!(single("letter"), Token::Identifier(String::from("letter")));
    assert_eq!(single("iffy"), Token::Identifier(String::from("iffy")));
    let mut lexer = Lexer::tokenization("main", "i32x");
    assert_eq!(lexer.next(), Token::Type(Type::I32));
    assert_eq!(lexer.next(), Token::Identifier(String::from("x")));
    assert_eq!(lexer.next(), Token::EOF);
}

#[test]
fn integer_boundary() {
    assert_eq!(single("2147483647"), Token::Literal(Literal::Integer(2147483647)));
    assert_eq!(single("2147483648"), Token::Literal(Literal::Long(2147483648)));
    assert_eq!(single("-2147483648"), Token::Literal(Literal::Integer(-2147483648)));
    assert_eq!(single("-2147483649"), Token::Literal(Literal::Long(-2147483649)));
    assert_eq!(single("9223372036854775807"), Token::Literal(Literal::Long(i64::MAX)));
    // Beyond 64 bits the numeral is a lexical error, which the cursor skips.
    let mut lexer = Lexer::tokenization("main", "99999999999999999999");
    assert_eq!(lexer.next(), Token::EOF);
}

#[test]
fn float_boundary() {
    let max = "340282346638528859811704183484516925440.0";
    let above = "340282346638528859811704183484516925441.0";
    assert_eq!(single(max), Token::Literal(Literal::Float(String::from(max))));
    assert_eq!(single(above), Token::Literal(Literal::Double(String::from(above))));
    assert_eq!(single("3.4e38"), Token::Literal(Literal::Float(String::from("3.4e38"))));
    assert_eq!(single("3.5e38"), Token::Literal(Literal::Double(String::from("3.5e38"))));
    assert_eq!(single("1e400"), Token::Literal(Literal::Double(String::from("1e400"))));
    assert_eq!(single("0.5e-3"), Token::Literal(Literal::Float(String::from("0.5e-3"))));
    assert_eq!(single(".25"), Token::Literal(Literal::Float(String::from(".25"))));
}

#[test]
fn cursor_symmetry() {
    let mut lexer = Lexer::tokenization("main", "let x = 2;\n  if (x) { }\n");
    let (line, column) = (lexer.line(), lexer.column());
    let mut seen = Vec::new();
    for _ in 0..7 {
        seen.push(lexer.next());
    }
    assert_eq!(lexer.line(), 2);
    for _ in 0..7 {
        lexer.back();
    }
    assert_eq!((lexer.line(), lexer.column()), (line, column));
    assert_eq!(lexer.next(), seen[0]);
}

#[test]
fn peek_does_not_move() {
    let mut lexer = Lexer::tokenization("main", "  a b");
    assert_eq!(lexer.peek(), Token::Identifier(String::from("a")));
    assert_eq!(lexer.peek(), Token::Identifier(String::from("a")));
    lexer.skip();
    assert_eq!(lexer.next(), Token::Identifier(String::from("b")));
    assert_eq!(lexer.peek(), Token::EOF);
}

#[test]
fn line_and_column_tracking() {
    let mut lexer = Lexer::tokenization("main", "ab cd\n  efg");
    assert_eq!(lexer.next(), Token::Identifier(String::from("ab")));
    assert_eq!((lexer.line(), lexer.column()), (1, 2));
    lexer.next();
    assert_eq!((lexer.line(), lexer.column()), (1, 5));
    lexer.next();
    assert_eq!((lexer.line(), lexer.column()), (2, 5));
    lexer.reset();
    assert_eq!((lexer.line(), lexer.column()), (1, 0));
}

#[test]
fn skip_line_stops_at_next_line() {
    let mut lexer = Lexer::tokenization("main", "a b\nc d");
    lexer.skip_line();
    assert_eq!(lexer.next(), Token::Identifier(String::from("c")));
}

#[test]
fn next_identifier_reads_names() {
    let mut lexer = Lexer::tokenization("main", "name 3");
    assert_eq!(lexer.next_identifier(), Some(String::from("name")));
    assert_eq!(lexer.next_identifier(), None);
}

#[test]
fn source_lines() {
    let lexer = Lexer::tokenization("prog.exo", "first\nsecond line\n\nlast");
    assert_eq!(lexer.get_source_line(1), Some("first"));
    assert_eq!(lexer.get_source_line(2), Some("second line"));
    assert_eq!(lexer.get_source_line(3), Some(""));
    assert_eq!(lexer.get_source_line(4), Some("last"));
    assert_eq!(lexer.get_source_line(5), None);
    assert_eq!(lexer.get_source_line(0), None);
    assert_eq!(lexer.filename(), "prog.exo");
    assert_eq!(lexer.source(), "first\nsecond line\n\nlast");
}

#[test]
fn unknown_characters_are_skipped() {
    let mut lexer = Lexer::tokenization("main", "a $ ^ | b");
    assert_eq!(lexer.next(), Token::Identifier(String::from("a")));
    assert_eq!(lexer.next(), Token::Identifier(String::from("b")));
    assert_eq!(lexer.next(), Token::EOF);
}

#[test]
fn non_ascii_names_are_kept_in_strings() {
    assert_eq!(single("\"héllo\""), Token::Literal(Literal::String(String::from("héllo"))));
}

#[test]
fn end_of_input_passes_trailing_line_breaks() {
    let mut lexer = Lexer::tokenization("main", "x\n\n");
    assert_eq!(lexer.next(), Token::Identifier(String::from("x")));
    assert_eq!(lexer.line(), 1);
    assert_eq!(lexer.next(), Token::EOF);
    assert_eq!(lexer.line(), 3);
    assert_eq!(lexer.column(), 0);
    assert_eq!(lexer.next(), Token::EOF);
    assert_eq!(lexer.line(), 3);
}

#[test]
fn end_of_input_passes_trailing_blanks() {
    let mut lexer = Lexer::tokenization("main", "x  ");
    lexer.next();
    assert_eq!(lexer.column(), 1);
    assert_eq!(lexer.next(), Token::EOF);
    assert_eq!(lexer.column(), 3);
}

#[test]
fn back_after_end_of_input() {
    let mut lexer = Lexer::tokenization("main", "a b \n");
    lexer.next();
    lexer.next();
    assert_eq!(lexer.next(), Token::EOF);
    lexer.back();
    assert_eq!(lexer.next(), Token::Identifier(String::from("b")));
}

#[test]
fn back_over_a_line_break_restores_column() {
    let mut lexer = Lexer::tokenization("main", "a\nb");
    lexer.next();
    lexer.next();
    assert_eq!(lexer.line(), 2);
    lexer.back();
    assert_eq!((lexer.line(), lexer.column()), (1, 1));
    assert_eq!(lexer.next(), Token::Identifier(String::from("b")));
}
