use vstd::prelude::*;
use crate::lexer::TokenType;

verus! {

/// Why lexical analysis failed.
#[derive(Debug, Clone, PartialEq, Eq, Structural)]
pub enum LexErrorKind {
    /// A run of operator characters matched no known operator spelling.
    UnknownOperator,
    /// A string literal was opened but no closing quote follows before
    /// the end of the source text.
    UnterminatedString,
    /// A digit run does not fit the 32-bit integer parse.
    NumberTooLarge,
}

/// Why parsing failed.
#[derive(Debug, Clone, PartialEq, Eq, Structural)]
pub enum ParseErrorKind {
    /// A structural expectation was violated: the parser demanded one
    /// token kind and found another.
    UnexpectedToken { expected: TokenType, found: TokenType },
    /// A declared type name other than `number`, `string` or `unit`.
    InvalidTypeName,
    /// A statement starting with a bare name that is not a call and is
    /// not followed by `=`.
    InvalidAssignment,
    /// A `var` statement without the `name : type =` shape.
    InvalidVarDefinition,
    /// A token that can begin no primary expression.
    InvalidPrimary,
}

/// A structured translation failure. The pipeline fails fast on the first
/// problem and never emits partial output; the hosting tool decides how to
/// report the failure.
#[derive(Debug, Clone, PartialEq, Eq, Structural)]
pub enum TranslateError {
    /// Lexical analysis failed; the span is the source range at fault.
    Lex { kind: LexErrorKind, start: usize, end: usize },
    /// Parsing failed; the span is the source range of the offending token.
    Parse { kind: ParseErrorKind, start: usize, end: usize },
    /// Code generation reached a constructor expression, whose lowering
    /// is deliberately unsupported.
    UnsupportedFeature,
}

/// The description each failure carries: one fixed text per kind.
pub open spec fn message_text(e: TranslateError) -> Seq<char> {
    match e {
        TranslateError::Lex { kind: LexErrorKind::UnknownOperator, .. } =>
            "unrecognized operator combination"@,
        TranslateError::Lex { kind: LexErrorKind::UnterminatedString, .. } =>
            "unterminated string literal"@,
        TranslateError::Lex { kind: LexErrorKind::NumberTooLarge, .. } =>
            "number literal does not fit a 32-bit integer"@,
        TranslateError::Parse { kind: ParseErrorKind::UnexpectedToken { .. }, .. } =>
            "unexpected token"@,
        TranslateError::Parse { kind: ParseErrorKind::InvalidTypeName, .. } =>
            "invalid declared type name"@,
        TranslateError::Parse { kind: ParseErrorKind::InvalidAssignment, .. } =>
            "invalid assignment"@,
        TranslateError::Parse { kind: ParseErrorKind::InvalidVarDefinition, .. } =>
            "invalid variable definition"@,
        TranslateError::Parse { kind: ParseErrorKind::InvalidPrimary, .. } =>
            "invalid primary expression"@,
        TranslateError::UnsupportedFeature => "constructor expressions are not supported"@,
    }
}

impl TranslateError {
    /// A short human-readable description of the failure: exactly the
    /// text its kind maps to, never empty.
    pub fn message(&self) -> (r: &'static str)
        ensures
            r@ == message_text(*self),
            r@.len() > 0,
    {
        proof {
            reveal_strlit("unrecognized operator combination");
            reveal_strlit("unterminated string literal");
            reveal_strlit("number literal does not fit a 32-bit integer");
            reveal_strlit("unexpected token");
            reveal_strlit("invalid declared type name");
            reveal_strlit("invalid assignment");
            reveal_strlit("invalid variable definition");
            reveal_strlit("invalid primary expression");
            reveal_strlit("constructor expressions are not supported");
        }
        match self {
            TranslateError::Lex { kind: LexErrorKind::UnknownOperator, .. } => {
                "unrecognized operator combination"
            },
            TranslateError::Lex { kind: LexErrorKind::UnterminatedString, .. } => {
                "unterminated string literal"
            },
            TranslateError::Lex { kind: LexErrorKind::NumberTooLarge, .. } => {
                "number literal does not fit a 32-bit integer"
            },
            TranslateError::Parse { kind: ParseErrorKind::UnexpectedToken { .. }, .. } => {
                "unexpected token"
            },
            TranslateError::Parse { kind: ParseErrorKind::InvalidTypeName, .. } => {
                "invalid declared type name"
            },
            TranslateError::Parse { kind: ParseErrorKind::InvalidAssignment, .. } => {
                "invalid assignment"
            },
            TranslateError::Parse { kind: ParseErrorKind::InvalidVarDefinition, .. } => {
                "invalid variable definition"
            },
            TranslateError::Parse { kind: ParseErrorKind::InvalidPrimary, .. } => {
                "invalid primary expression"
            },
            TranslateError::UnsupportedFeature => "constructor expressions are not supported",
        }
    }
}

} // verus!
