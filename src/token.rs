//! The lexical alphabet: keywords, operators, primitive types, literals and tokens,
//! each with a mathematical view in which text is a `Seq<char>`.
use vstd::prelude::*;
use crate::text::push_char;

verus! {

/// The reserved words of the language.
#[derive(Debug, Clone, Copy, PartialEq, Eq, Structural)]
pub enum Keywords {
    Let,
    If,
    Else,
    Func,
    Return,
    While,
}

/// The operators; each has one canonical spelling.
#[allow(non_camel_case_types)]
#[derive(Debug, Clone, Copy, PartialEq, Eq, Structural)]
pub enum Operator {
    ADD,
    SUB,
    MUL,
    DIV,
    MOD,
    EQUAL,
    LT,
    GT,
    AND,
    NOTEQ,
    OR,
    ADDRESSING,
    NOT,
    ARROW,
    NAVIGATION,
    ASSIGNMENT,
}

/// Primitive types, plus `Object` for a user-defined name; `Void` stands for "not annotated".
#[derive(Debug, Clone)]
pub enum Type {
    Void,
    I8,
    I16,
    I32,
    I64,
    U8,
    U16,
    U32,
    U64,
    F32,
    F64,
    Boolean,
    Char,
    String,
    Object(String),
}

/// A literal value. `Float` and `Double` keep the literal's text as written.
#[derive(Debug, Clone)]
pub enum Literal {
    Default,
    Char(char),
    Integer(i32),
    Long(i64),
    Float(String),
    Double(String),
    String(String),
    Boolean(bool),
    Var(String),
}

/// One classified piece of source text.
#[derive(Debug, Clone)]
pub enum Token {
    Identifier(String),
    Literal(Literal),
    Keyword(Keywords),
    Type(Type),
    Dot,
    Comma,
    Colon,
    Semicolon,
    AtSign,
    LParen,
    RParen,
    LBrace,
    RBrace,
    Operator(Operator),
    Line,
    Space,
    Error,
    EOF,
}

pub ghost enum TypeV {
    Void,
    I8,
    I16,
    I32,
    I64,
    U8,
    U16,
    U32,
    U64,
    F32,
    F64,
    Boolean,
    Char,
    String,
    Object(Seq<char>),
}

pub ghost enum LiteralV {
    Default,
    Char(char),
    Integer(i32),
    Long(i64),
    Float(Seq<char>),
    Double(Seq<char>),
    String(Seq<char>),
    Boolean(bool),
    Var(Seq<char>),
}

pub ghost enum TokenV {
    Identifier(Seq<char>),
    Literal(LiteralV),
    Keyword(Keywords),
    Type(TypeV),
    Dot,
    Comma,
    Colon,
    Semicolon,
    AtSign,
    LParen,
    RParen,
    LBrace,
    RBrace,
    Operator(Operator),
    Line,
    Space,
    Error,
    EOF,
}

impl View for Type {
    type V = TypeV;

    open spec fn view(&self) -> TypeV {
        match self {
            Type::Void => TypeV::Void,
            Type::I8 => TypeV::I8,
            Type::I16 => TypeV::I16,
            Type::I32 => TypeV::I32,
            Type::I64 => TypeV::I64,
            Type::U8 => TypeV::U8,
            Type::U16 => TypeV::U16,
            Type::U32 => TypeV::U32,
            Type::U64 => TypeV::U64,
            Type::F32 => TypeV::F32,
            Type::F64 => TypeV::F64,
            Type::Boolean => TypeV::Boolean,
            Type::Char => TypeV::Char,
            Type::String => TypeV::String,
            Type::Object(n) => TypeV::Object(n@),
        }
    }
}

impl View for Literal {
    type V = LiteralV;

    open spec fn view(&self) -> LiteralV {
        match self {
            Literal::Default => LiteralV::Default,
            Literal::Char(c) => LiteralV::Char(*c),
            Literal::Integer(v) => LiteralV::Integer(*v),
            Literal::Long(v) => LiteralV::Long(*v),
            Literal::Float(t) => LiteralV::Float(t@),
            Literal::Double(t) => LiteralV::Double(t@),
            Literal::String(t) => LiteralV::String(t@),
            Literal::Boolean(b) => LiteralV::Boolean(*b),
            Literal::Var(n) => LiteralV::Var(n@),
        }
    }
}

impl View for Token {
    type V = TokenV;

    open spec fn view(&self) -> TokenV {
        match self {
            Token::Identifier(n) => TokenV::Identifier(n@),
            Token::Literal(l) => TokenV::Literal(l@),
            Token::Keyword(k) => TokenV::Keyword(*k),
            Token::Type(t) => TokenV::Type(t@),
            Token::Dot => TokenV::Dot,
            Token::Comma => TokenV::Comma,
            Token::Colon => TokenV::Colon,
            Token::Semicolon => TokenV::Semicolon,
            Token::AtSign => TokenV::AtSign,
            Token::LParen => TokenV::LParen,
            Token::RParen => TokenV::RParen,
            Token::LBrace => TokenV::LBrace,
            Token::RBrace => TokenV::RBrace,
            Token::Operator(o) => TokenV::Operator(*o),
            Token::Line => TokenV::Line,
            Token::Space => TokenV::Space,
            Token::Error => TokenV::Error,
            Token::EOF => TokenV::EOF,
        }
    }
}

impl Type {
    /// Whether this is the "not annotated" type.
    pub fn is_any(&self) -> (r: bool)
        ensures
            r == (self@ == TypeV::Void),
    {
        match self {
            Type::Void => true,
            _ => false,
        }
    }

    /// A copy of this type.
    pub fn duplicate(&self) -> (r: Type)
        ensures
            r@ == self@,
    {
        match self {
            Type::Void => Type::Void,
            Type::I8 => Type::I8,
            Type::I16 => Type::I16,
            Type::I32 => Type::I32,
            Type::I64 => Type::I64,
            Type::U8 => Type::U8,
            Type::U16 => Type::U16,
            Type::U32 => Type::U32,
            Type::U64 => Type::U64,
            Type::F32 => Type::F32,
            Type::F64 => Type::F64,
            Type::Boolean => Type::Boolean,
            Type::Char => Type::Char,
            Type::String => Type::String,
            Type::Object(n) => Type::Object(n.clone()),
        }
    }
}

impl Literal {
    /// A copy of this literal.
    pub fn duplicate(&self) -> (r: Literal)
        ensures
            r@ == self@,
    {
        match self {
            Literal::Default => Literal::Default,
            Literal::Char(c) => Literal::Char(*c),
            Literal::Integer(v) => Literal::Integer(*v),
            Literal::Long(v) => Literal::Long(*v),
            Literal::Float(t) => Literal::Float(t.clone()),
            Literal::Double(t) => Literal::Double(t.clone()),
            Literal::String(t) => Literal::String(t.clone()),
            Literal::Boolean(b) => Literal::Boolean(*b),
            Literal::Var(n) => Literal::Var(n.clone()),
        }
    }
}

impl Token {
    /// A copy of this token.
    pub fn duplicate(&self) -> (r: Token)
        ensures
            r@ == self@,
    {
        match self {
            Token::Identifier(n) => Token::Identifier(n.clone()),
            Token::Literal(l) => Token::Literal(l.duplicate()),
            Token::Keyword(k) => Token::Keyword(*k),
            Token::Type(t) => Token::Type(t.duplicate()),
            Token::Dot => Token::Dot,
            Token::Comma => Token::Comma,
            Token::Colon => Token::Colon,
            Token::Semicolon => Token::Semicolon,
            Token::AtSign => Token::AtSign,
            Token::LParen => Token::LParen,
            Token::RParen => Token::RParen,
            Token::LBrace => Token::LBrace,
            Token::RBrace => Token::RBrace,
            Token::Operator(o) => Token::Operator(*o),
            Token::Line => Token::Line,
            Token::Space => Token::Space,
            Token::Error => Token::Error,
            Token::EOF => Token::EOF,
        }
    }

    /// Whether the cursor steps over this token without handing it out.
    pub open spec fn is_trivia(self) -> bool {
        self is Line || self is Space || self is Error
    }
}

pub open spec fn operator_spelling(o: Operator) -> Seq<char> {
    match o {
        Operator::ADD => "+"@,
        Operator::SUB => "-"@,
        Operator::MUL => "*"@,
        Operator::DIV => "/"@,
        Operator::MOD => "%"@,
        Operator::EQUAL => "=="@,
        Operator::LT => "<"@,
        Operator::GT => ">"@,
        Operator::AND => "&&"@,
        Operator::NOTEQ => "!="@,
        Operator::OR => "||"@,
        Operator::ADDRESSING => "&"@,
        Operator::NOT => "!"@,
        Operator::ARROW => "->"@,
        Operator::NAVIGATION => "::"@,
        Operator::ASSIGNMENT => "="@,
    }
}

impl Operator {
    /// The canonical spelling.
    pub fn spelling(&self) -> (r: &'static str)
        ensures
            r@ == operator_spelling(*self),
    {
        match self {
            Operator::ADD => "+",
            Operator::SUB => "-",
            Operator::MUL => "*",
            Operator::DIV => "/",
            Operator::MOD => "%",
            Operator::EQUAL => "==",
            Operator::LT => "<",
            Operator::GT => ">",
            Operator::AND => "&&",
            Operator::NOTEQ => "!=",
            Operator::OR => "||",
            Operator::ADDRESSING => "&",
            Operator::NOT => "!",
            Operator::ARROW => "->",
            Operator::NAVIGATION => "::",
            Operator::ASSIGNMENT => "=",
        }
    }
}

impl Keywords {
    /// The reserved word as written.
    pub fn spelling(&self) -> (r: &'static str)
        ensures
            r@ == crate::grammar::keyword_spelling(*self),
    {
        proof {
            reveal_strlit("let");
            reveal_strlit("if");
            reveal_strlit("else");
            reveal_strlit("func");
            reveal_strlit("return");
            reveal_strlit("while");
            assert("let"@ =~= crate::grammar::keyword_spelling(Keywords::Let));
            assert("if"@ =~= crate::grammar::keyword_spelling(Keywords::If));
            assert("else"@ =~= crate::grammar::keyword_spelling(Keywords::Else));
            assert("func"@ =~= crate::grammar::keyword_spelling(Keywords::Func));
            assert("return"@ =~= crate::grammar::keyword_spelling(Keywords::Return));
            assert("while"@ =~= crate::grammar::keyword_spelling(Keywords::While));
        }
        match self {
            Keywords::Let => "let",
            Keywords::If => "if",
            Keywords::Else => "else",
            Keywords::Func => "func",
            Keywords::Return => "return",
            Keywords::While => "while",
        }
    }
}

/// How a type is written in source and messages (`Any` for the unannotated type).
pub open spec fn type_text(t: TypeV) -> Seq<char> {
    match t {
        TypeV::Void => "Any"@,
        TypeV::I8 => "i8"@,
        TypeV::I16 => "i16"@,
        TypeV::I32 => "i32"@,
        TypeV::I64 => "i64"@,
        TypeV::U8 => "u8"@,
        TypeV::U16 => "u16"@,
        TypeV::U32 => "u32"@,
        TypeV::U64 => "u64"@,
        TypeV::F32 => "f32"@,
        TypeV::F64 => "f64"@,
        TypeV::Boolean => "bool"@,
        TypeV::Char => "char"@,
        TypeV::String => "string"@,
        TypeV::Object(n) => n,
    }
}

impl Type {
    /// The type as written in source (`Any` for the unannotated type).
    pub fn name(&self) -> (r: String)
        ensures
            r@ == type_text(self@),
    {
        match self {
            Type::Void => String::from_str("Any"),
            Type::I8 => String::from_str("i8"),
            Type::I16 => String::from_str("i16"),
            Type::I32 => String::from_str("i32"),
            Type::I64 => String::from_str("i64"),
            Type::U8 => String::from_str("u8"),
            Type::U16 => String::from_str("u16"),
            Type::U32 => String::from_str("u32"),
            Type::U64 => String::from_str("u64"),
            Type::F32 => String::from_str("f32"),
            Type::F64 => String::from_str("f64"),
            Type::Boolean => String::from_str("bool"),
            Type::Char => String::from_str("char"),
            Type::String => String::from_str("string"),
            Type::Object(n) => n.clone(),
        }
    }
}

pub open spec fn digit_char(d: nat) -> char {
    if d == 0 { '0' } else if d == 1 { '1' } else if d == 2 { '2' } else if d == 3 { '3' } else if d == 4 {
        '4'
    } else if d == 5 { '5' } else if d == 6 { '6' } else if d == 7 { '7' } else if d == 8 { '8' } else { '9' }
}

/// The decimal digits of `n`, without leading zeros.
pub open spec fn digits_text(n: nat) -> Seq<char>
    decreases n,
{
    if n < 10 { seq![digit_char(n)] } else { digits_text(n / 10).push(digit_char(n % 10)) }
}

/// `v` in decimal, with a leading `-` when negative.
pub open spec fn decimal(v: int) -> Seq<char> {
    if v < 0 { seq!['-'] + digits_text((-v) as nat) } else { digits_text(v as nat) }
}

/// How a literal is shown in messages.
pub open spec fn literal_text(l: LiteralV) -> Seq<char> {
    match l {
        LiteralV::Default => "??"@,
        LiteralV::Char(c) => seq![c],
        LiteralV::Integer(v) => decimal(v as int),
        LiteralV::Long(v) => decimal(v as int),
        LiteralV::Float(t) => t,
        LiteralV::Double(t) => t,
        LiteralV::String(t) => t,
        LiteralV::Boolean(b) => if b { "true"@ } else { "false"@ },
        LiteralV::Var(n) => n,
    }
}

/// How a token is shown in messages.
pub open spec fn token_text(t: TokenV) -> Seq<char> {
    match t {
        TokenV::Identifier(n) => n,
        TokenV::Literal(l) => literal_text(l),
        TokenV::Keyword(k) => crate::grammar::keyword_spelling(k),
        TokenV::Type(ty) => type_text(ty),
        TokenV::Dot => "."@,
        TokenV::Comma => ","@,
        TokenV::Colon => ":"@,
        TokenV::Semicolon => ";"@,
        TokenV::AtSign => "@"@,
        TokenV::LParen => "("@,
        TokenV::RParen => ")"@,
        TokenV::LBrace => "{"@,
        TokenV::RBrace => "}"@,
        TokenV::Operator(o) => operator_spelling(o),
        TokenV::Line => "\\n"@,
        TokenV::Space => " "@,
        TokenV::Error => Seq::empty(),
        TokenV::EOF => "end of file"@,
    }
}

fn digit_char_exec(d: u64) -> (c: char)
    requires
        d < 10,
    ensures
        c == digit_char(d as nat),
{
    if d == 0 { '0' } else if d == 1 { '1' } else if d == 2 { '2' } else if d == 3 { '3' } else if d == 4 {
        '4'
    } else if d == 5 { '5' } else if d == 6 { '6' } else if d == 7 { '7' } else if d == 8 { '8' } else { '9' }
}

fn digits_string(n: u64) -> (r: String)
    ensures
        r@ == digits_text(n as nat),
    decreases n,
{
    if n < 10 {
        let mut r = String::new();
        push_char(&mut r, digit_char_exec(n));
        r
    } else {
        let mut r = digits_string(n / 10);
        push_char(&mut r, digit_char_exec(n % 10));
        r
    }
}

/// `v` in decimal.
fn decimal_string(v: i64) -> (r: String)
    ensures
        r@ == decimal(v as int),
{
    if v < 0 {
        let m: u64 = (-(v as i128)) as u64;
        let mut r = String::new();
        push_char(&mut r, '-');
        let d = digits_string(m);
        r.append(d.as_str());
        assert(r@ =~= seq!['-'] + digits_text((-(v as int)) as nat));
        r
    } else {
        digits_string(v as u64)
    }
}

impl Literal {
    /// The literal as shown in messages.
    pub fn text(&self) -> (r: String)
        ensures
            r@ == literal_text(self@),
    {
        match self {
            Literal::Default => String::from_str("??"),
            Literal::Char(c) => {
                let mut r = String::new();
                push_char(&mut r, *c);
                assert(r@ =~= seq![*c]);
                r
            },
            Literal::Integer(v) => decimal_string(*v as i64),
            Literal::Long(v) => decimal_string(*v),
            Literal::Float(t) => t.clone(),
            Literal::Double(t) => t.clone(),
            Literal::String(t) => t.clone(),
            Literal::Boolean(b) => if *b { String::from_str("true") } else { String::from_str("false") },
            Literal::Var(n) => n.clone(),
        }
    }
}

impl Token {
    /// The token as shown in messages.
    pub fn text(&self) -> (r: String)
        ensures
            r@ == token_text(self@),
    {
        match self {
            Token::Identifier(n) => n.clone(),
            Token::Literal(l) => l.text(),
            Token::Keyword(k) => String::from_str(k.spelling()),
            Token::Type(t) => t.name(),
            Token::Dot => String::from_str("."),
            Token::Comma => String::from_str(","),
            Token::Colon => String::from_str(":"),
            Token::Semicolon => String::from_str(";"),
            Token::AtSign => String::from_str("@"),
            Token::LParen => String::from_str("("),
            Token::RParen => String::from_str(")"),
            Token::LBrace => String::from_str("{"),
            Token::RBrace => String::from_str("}"),
            Token::Operator(o) => String::from_str(o.spelling()),
            Token::Line => String::from_str("\\n"),
            Token::Space => String::from_str(" "),
            Token::Error => String::new(),
            Token::EOF => String::from_str("end of file"),
        }
    }
}

impl PartialEq for Type {
    fn eq(&self, o: &Type) -> (r: bool) {
        match (self, o) {
            (Type::Object(a), Type::Object(b)) => *a == *b,
            (Type::Object(_), _) => false,
            (_, Type::Object(_)) => false,
            (Type::Void, Type::Void) => true,
            (Type::I8, Type::I8) => true,
            (Type::I16, Type::I16) => true,
            (Type::I32, Type::I32) => true,
            (Type::I64, Type::I64) => true,
            (Type::U8, Type::U8) => true,
            (Type::U16, Type::U16) => true,
            (Type::U32, Type::U32) => true,
            (Type::U64, Type::U64) => true,
            (Type::F32, Type::F32) => true,
            (Type::F64, Type::F64) => true,
            (Type::Boolean, Type::Boolean) => true,
            (Type::Char, Type::Char) => true,
            (Type::String, Type::String) => true,
            _ => false,
        }
    }
}

impl vstd::std_specs::cmp::PartialEqSpecImpl for Type {
    open spec fn obeys_eq_spec() -> bool {
        true
    }

    open spec fn eq_spec(&self, o: &Type) -> bool {
        self@ == o@
    }
}

impl PartialEq for Literal {
    fn eq(&self, o: &Literal) -> (r: bool) {
        match (self, o) {
            (Literal::Default, Literal::Default) => true,
            (Literal::Char(a), Literal::Char(b)) => *a == *b,
            (Literal::Integer(a), Literal::Integer(b)) => *a == *b,
            (Literal::Long(a), Literal::Long(b)) => *a == *b,
            (Literal::Float(a), Literal::Float(b)) => *a == *b,
            (Literal::Double(a), Literal::Double(b)) => *a == *b,
            (Literal::String(a), Literal::String(b)) => *a == *b,
            (Literal::Boolean(a), Literal::Boolean(b)) => *a == *b,
            (Literal::Var(a), Literal::Var(b)) => *a == *b,
            _ => false,
        }
    }
}

impl vstd::std_specs::cmp::PartialEqSpecImpl for Literal {
    open spec fn obeys_eq_spec() -> bool {
        true
    }

    open spec fn eq_spec(&self, o: &Literal) -> bool {
        self@ == o@
    }
}

impl PartialEq for Token {
    fn eq(&self, o: &Token) -> (r: bool) {
        match (self, o) {
            (Token::Identifier(a), Token::Identifier(b)) => *a == *b,
            (Token::Literal(a), Token::Literal(b)) => a.eq(b),
            (Token::Keyword(a), Token::Keyword(b)) => *a == *b,
            (Token::Type(a), Token::Type(b)) => a.eq(b),
            (Token::Operator(a), Token::Operator(b)) => *a == *b,
            (Token::Dot, Token::Dot) => true,
            (Token::Comma, Token::Comma) => true,
            (Token::Colon, Token::Colon) => true,
            (Token::Semicolon, Token::Semicolon) => true,
            (Token::AtSign, Token::AtSign) => true,
            (Token::LParen, Token::LParen) => true,
            (Token::RParen, Token::RParen) => true,
            (Token::LBrace, Token::LBrace) => true,
            (Token::RBrace, Token::RBrace) => true,
            (Token::Line, Token::Line) => true,
            (Token::Space, Token::Space) => true,
            (Token::Error, Token::Error) => true,
            (Token::EOF, Token::EOF) => true,
            _ => false,
        }
    }
}

impl vstd::std_specs::cmp::PartialEqSpecImpl for Token {
    open spec fn obeys_eq_spec() -> bool {
        true
    }

    open spec fn eq_spec(&self, o: &Token) -> bool {
        self@ == o@
    }
}

} // verus!
