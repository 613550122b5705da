//! The core of a tree-walking interpreter for a small, dynamically typed
//! scripting language: a scanner, a recursive-descent parser with error
//! recovery, a printer of expressions in prefix form, and an interpreter with
//! lexically scoped environments.
//!
//! The library neither reads nor writes, and it does no arithmetic on
//! numbers: it holds a number as a decimal numeral. Diagnostics are returned
//! as lines of text, and the interpreter advances step by step, handing to
//! its host what is to be written and what is to be computed.

use vstd::prelude::*;

pub mod ast_printer;
pub mod environment;
pub mod evaluation;
pub mod execution;
pub mod expr;
pub mod grouping;
pub mod interpreter;
pub mod negation;
pub mod parser;
pub mod progress;
pub mod roundtrip;
pub mod scanner;
pub mod stmt;
pub mod text;
pub mod token;

use crate::text::{decimal_text, push_decimal};
use crate::token::{Token, TokenKind, TokenView};

verus! {

/// The diagnostic line for `message` at `line`.
pub open spec fn report_text(line: usize, message: Seq<char>) -> Seq<char> {
    "[line "@ + decimal_text(line as nat) + "] Error: "@ + message
}

/// The diagnostic line for `message` at `token`: it names the end of the
/// input for the end-of-input token, and the token's lexeme for any other.
pub open spec fn error_text(token: TokenView, message: Seq<char>) -> Seq<char> {
    if token.kind == TokenKind::EOF {
        "[line "@ + decimal_text(token.line as nat) + "] Error at end "@ + message
    } else {
        "[line "@ + decimal_text(token.line as nat) + "] Error at '"@ + token.lexeme + "': "@
            + message
    }
}

/// Formats a diagnostic that belongs to a line of the source.
pub fn report(line: usize, message: &str) -> (r: String)
    ensures
        r@ == report_text(line, message@),
{
    let mut out = String::from_str("[line ");
    push_decimal(&mut out, line);
    out.append("] Error: ");
    out.append(message);
    out
}

/// Formats a diagnostic that belongs to a token of the source.
pub fn error(token: Token, message: &str) -> (r: String)
    ensures
        r@ == error_text(token@, message@),
{
    let mut out = String::from_str("[line ");
    push_decimal(&mut out, token.line);
    if token.kind == TokenKind::EOF {
        out.append("] Error at end ");
    } else {
        out.append("] Error at '");
        out.append(token.lexeme.as_str());
        out.append("': ");
    }
    out.append(message);
    out
}

} // verus!
