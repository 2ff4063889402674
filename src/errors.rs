//! Error codes of the syntax and semantic stages, and the diagnostics that carry them.
use vstd::prelude::*;

verus! {

/// What went wrong while parsing.
#[allow(non_camel_case_types)]
#[derive(Debug, Clone, Copy, PartialEq, Eq, Structural)]
pub enum SyntaxErrors {
    SYNTAX_EXPECTED_NAME,
    SYNTAX_EXPECTED_TOKEN,
    SYNTAX_UNEXPECTED_TOKEN,
    SYNTAX_EXPECTED_TYPE,
    SYNTAX_MISSING_TYPE,
    SYNTAX_EXPECTED_EXPRS,
    SYNTAX_EXPECTED_VALUE,
}

pub open spec fn syntax_code(e: SyntaxErrors) -> Seq<char> {
    match e {
        SyntaxErrors::SYNTAX_EXPECTED_NAME => "E0100"@,
        SyntaxErrors::SYNTAX_EXPECTED_TOKEN => "E0101"@,
        SyntaxErrors::SYNTAX_EXPECTED_TYPE => "E0102"@,
        SyntaxErrors::SYNTAX_UNEXPECTED_TOKEN => "E0103"@,
        SyntaxErrors::SYNTAX_MISSING_TYPE => "E0104"@,
        SyntaxErrors::SYNTAX_EXPECTED_EXPRS => "E0105"@,
        SyntaxErrors::SYNTAX_EXPECTED_VALUE => "E0106"@,
    }
}

impl SyntaxErrors {
    /// The stable code printed with the diagnostic.
    pub fn code(&self) -> (r: &'static str)
        ensures
            r@ == syntax_code(*self),
    {
        match self {
            SyntaxErrors::SYNTAX_EXPECTED_NAME => "E0100",
            SyntaxErrors::SYNTAX_EXPECTED_TOKEN => "E0101",
            SyntaxErrors::SYNTAX_EXPECTED_TYPE => "E0102",
            SyntaxErrors::SYNTAX_UNEXPECTED_TOKEN => "E0103",
            SyntaxErrors::SYNTAX_MISSING_TYPE => "E0104",
            SyntaxErrors::SYNTAX_EXPECTED_EXPRS => "E0105",
            SyntaxErrors::SYNTAX_EXPECTED_VALUE => "E0106",
        }
    }
}

/// What went wrong during semantic analysis (and the older statuses of the toolchain).
#[allow(non_camel_case_types)]
#[derive(Debug, Clone, Copy, PartialEq, Eq, Structural)]
pub enum ErrorCode {
    STATUS_SEGMENT_FAILED,
    STATUS_FAILED_TYPING,
    STATUS_TYPE_UNKNOWN,
    STATUS_HEAP_CORRUPTION,
    STATUS_CONSTRUCTOR_NOT_FOUND,
    STATUS_SYNTAX_ERROR,
    STATUS_FUNCTION_PROTO_ERROR,
    STATUS_VARIABLE_ERROR,
    STATUS_PARAMETRE_TYPE,
    STATUS_NOT_DECLARED_VARIABLE,
    STATUS_MISMATCHED_TYPES,
    STATUS_MISSING_VALUE,
}

pub open spec fn status_code(e: ErrorCode) -> i32 {
    match e {
        ErrorCode::STATUS_SEGMENT_FAILED => 1000,
        ErrorCode::STATUS_FAILED_TYPING => 1001,
        ErrorCode::STATUS_TYPE_UNKNOWN => 1002,
        ErrorCode::STATUS_HEAP_CORRUPTION => 1003,
        ErrorCode::STATUS_CONSTRUCTOR_NOT_FOUND => 1004,
        ErrorCode::STATUS_SYNTAX_ERROR => 1005,
        ErrorCode::STATUS_FUNCTION_PROTO_ERROR => 1006,
        ErrorCode::STATUS_VARIABLE_ERROR => 1007,
        ErrorCode::STATUS_PARAMETRE_TYPE => 1008,
        ErrorCode::STATUS_NOT_DECLARED_VARIABLE => 1009,
        ErrorCode::STATUS_MISMATCHED_TYPES => 1010,
        ErrorCode::STATUS_MISSING_VALUE => 1011,
    }
}

impl ErrorCode {
    /// The numeric status, printed after `E0`.
    pub fn code(&self) -> (r: i32)
        ensures
            r == status_code(*self),
    {
        match self {
            ErrorCode::STATUS_SEGMENT_FAILED => 1000,
            ErrorCode::STATUS_FAILED_TYPING => 1001,
            ErrorCode::STATUS_TYPE_UNKNOWN => 1002,
            ErrorCode::STATUS_HEAP_CORRUPTION => 1003,
            ErrorCode::STATUS_CONSTRUCTOR_NOT_FOUND => 1004,
            ErrorCode::STATUS_SYNTAX_ERROR => 1005,
            ErrorCode::STATUS_FUNCTION_PROTO_ERROR => 1006,
            ErrorCode::STATUS_VARIABLE_ERROR => 1007,
            ErrorCode::STATUS_PARAMETRE_TYPE => 1008,
            ErrorCode::STATUS_NOT_DECLARED_VARIABLE => 1009,
            ErrorCode::STATUS_MISMATCHED_TYPES => 1010,
            ErrorCode::STATUS_MISSING_VALUE => 1011,
        }
    }
}

/// A syntax error: its code, where the cursor stood, and a note for the reader.
#[derive(Debug, Clone)]
pub struct Diagnostic {
    pub code: SyntaxErrors,
    pub line: usize,
    pub column: usize,
    pub note: String,
}

/// A semantic error: its status, the line of the statement, and a note for the reader.
#[derive(Debug, Clone)]
pub struct SemanticError {
    pub status: ErrorCode,
    pub line: usize,
    pub note: String,
}

} // verus!
