//! Structured translation errors. The first fault encountered aborts the
//! whole translation; the caller decides what to do with the error. The
//! taxonomy follows the three failure classes: lexical (illegal characters
//! and ill-formed literals), syntactic (token mismatches), and semantic
//! (undeclared variables, label misuse).

use vstd::prelude::*;
use crate::token::TokenType;

verus! {

/// The mathematical value of a translation error, with lexeme payloads as
/// character sequences.
pub ghost enum ErrView {
    /// A character that starts no token.
    UnknownChar(char),
    /// `!` not followed by `=`; the payload is the character that followed.
    ExclamationWithoutEq(char),
    /// A control character, backslash, or `%` inside a string literal, or a
    /// literal left unterminated.
    IllegalStringChar,
    /// A decimal point not followed by a digit.
    IllegalNumberChar,
    /// The current token did not match the one the grammar demands.
    Expected { expected: TokenType, got: TokenType },
    /// A condition held no comparison operator; the payload is the lexeme at
    /// which one was expected.
    ExpectedComparisonOperator(Seq<char>),
    /// No statement starts with this token.
    InvalidStatement(TokenType),
    /// No primary expression starts with this lexeme.
    UnexpectedPrimary(Seq<char>),
    /// An identifier was used in an expression before any `LET` or `INPUT`
    /// declared it.
    UndeclaredVariable(Seq<char>),
    /// A `LABEL` name was declared twice.
    DuplicateLabel(Seq<char>),
    /// A `GOTO` target that no `LABEL` declares; reported only after the
    /// whole program has been parsed.
    UndeclaredLabel(Seq<char>),
}

/// A translation error as returned to callers.
#[derive(Debug, PartialEq)]
pub enum CompileError {
    UnknownChar(char),
    ExclamationWithoutEq(char),
    IllegalStringChar,
    IllegalNumberChar,
    Expected { expected: TokenType, got: TokenType },
    ExpectedComparisonOperator(String),
    InvalidStatement(TokenType),
    UnexpectedPrimary(String),
    UndeclaredVariable(String),
    DuplicateLabel(String),
    UndeclaredLabel(String),
}

impl View for CompileError {
    type V = ErrView;

    open spec fn view(&self) -> ErrView {
        match self {
            CompileError::UnknownChar(c) => ErrView::UnknownChar(*c),
            CompileError::ExclamationWithoutEq(c) => ErrView::ExclamationWithoutEq(*c),
            CompileError::IllegalStringChar => ErrView::IllegalStringChar,
            CompileError::IllegalNumberChar => ErrView::IllegalNumberChar,
            CompileError::Expected { expected, got } => ErrView::Expected {
                expected: *expected,
                got: *got,
            },
            CompileError::ExpectedComparisonOperator(s) => ErrView::ExpectedComparisonOperator(
                s@,
            ),
            CompileError::InvalidStatement(k) => ErrView::InvalidStatement(*k),
            CompileError::UnexpectedPrimary(s) => ErrView::UnexpectedPrimary(s@),
            CompileError::UndeclaredVariable(s) => ErrView::UndeclaredVariable(s@),
            CompileError::DuplicateLabel(s) => ErrView::DuplicateLabel(s@),
            CompileError::UndeclaredLabel(s) => ErrView::UndeclaredLabel(s@),
        }
    }
}

} // verus!
