//! The makefile front end: a lossless lexer, a structural parser whose trees
//! re-serialize to the text they were read from, and a macro preprocessor.

pub mod lex;
pub mod parse;
pub mod preprocessor;

pub use parse::{Makefile, Rule, VariableDefinition};

use vstd::prelude::*;

verus! {

/// Every kind of token and composite node of the makefile grammar.
///
/// `IMPORT` marks the keyword of a file-inclusion line.
#[derive(Debug, Clone, Copy, PartialEq, Eq, Structural)]
#[allow(non_camel_case_types)]
pub enum SyntaxKind {
    // Simple single-char tokens
    SINGLE_QUOTE,
    DOUBLE_QUOTE,
    WHITESPACE,
    BACKSLASH,
    QUESTION,
    AT_SIGN,
    NEWLINE,
    PERCENT,
    EQUALS,
    DOLLAR,
    LPAREN,
    RPAREN,
    LBRACE,
    RBRACE,
    COLON,
    CARET,
    COMMA,
    LESS,
    PLUS,
    STAR,
    // Multi-char tokens
    IDENTIFIER,
    EXPORT,
    IMPORT,
    OPERATOR,
    COMMENT,
    INDENT,
    ERROR,
    TEXT,
    // Composite nodes
    ROOT,
    RULE,
    PREREQUISITES,
    RECIPE,
    VARIABLE,
    EXPR,
    MACRO,
    MACRO_OP,
}

} // verus!
