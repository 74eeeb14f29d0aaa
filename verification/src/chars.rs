//! Character classes: the tests by which the scanner tells characters apart.

use vstd::prelude::*;
use crate::token::TokenKind;

verus! {

/// `c` is an ASCII letter, `a` to `z` or `A` to `Z`.
pub open spec fn spec_is_letter(c: char) -> bool {
    ('a' <= c <= 'z') || ('A' <= c <= 'Z')
}

/// `c` is an ASCII digit, `0` to `9`.
pub open spec fn spec_is_digit(c: char) -> bool {
    '0' <= c <= '9'
}

/// `c` is an ASCII letter or an ASCII digit.
pub open spec fn spec_is_alphanumeric(c: char) -> bool {
    spec_is_letter(c) || spec_is_digit(c)
}

/// `c` is one of the two string delimiters, `"` and `'`.
pub open spec fn spec_is_quote(c: char) -> bool {
    c == '"' || c == '\''
}

/// `c` ends an identifier: `=`, a space or `(`.
pub open spec fn spec_is_boundary(c: char) -> bool {
    c == '=' || c == ' ' || c == '('
}

/// The kind of the single-character token that `c` stands for, if any: one of
/// the operators `= ; : + - * /` or of the structural characters `{ } ( )`.
pub open spec fn spec_symbol_kind(c: char) -> Option<TokenKind> {
    if c == '=' {
        Some(TokenKind::Assign)
    } else if c == ';' {
        Some(TokenKind::Semicolon)
    } else if c == ':' {
        Some(TokenKind::Colon)
    } else if c == '+' {
        Some(TokenKind::Plus)
    } else if c == '-' {
        Some(TokenKind::Minus)
    } else if c == '*' {
        Some(TokenKind::Multiply)
    } else if c == '/' {
        Some(TokenKind::Divide)
    } else if c == '{' {
        Some(TokenKind::FunctionScopeStart)
    } else if c == '}' {
        Some(TokenKind::FunctionScopeEnd)
    } else if c == '(' {
        Some(TokenKind::ParenLeft)
    } else if c == ')' {
        Some(TokenKind::ParenRight)
    } else {
        None
    }
}

/// Tests whether `c` is an ASCII letter.
#[verifier::when_used_as_spec(spec_is_letter)]
pub fn is_letter(c: char) -> (b: bool)
    ensures
        b == spec_is_letter(c),
{
    ('a' <= c && c <= 'z') || ('A' <= c && c <= 'Z')
}

/// Tests whether `c` is an ASCII digit.
#[verifier::when_used_as_spec(spec_is_digit)]
pub fn is_digit(c: char) -> (b: bool)
    ensures
        b == spec_is_digit(c),
{
    '0' <= c && c <= '9'
}

/// Tests whether `c` is an ASCII letter or digit.
#[verifier::when_used_as_spec(spec_is_alphanumeric)]
pub fn is_alphanumeric(c: char) -> (b: bool)
    ensures
        b == spec_is_alphanumeric(c),
{
    is_letter(c) || is_digit(c)
}

/// Tests whether `c` is a string delimiter.
#[verifier::when_used_as_spec(spec_is_quote)]
pub fn is_quote(c: char) -> (b: bool)
    ensures
        b == spec_is_quote(c),
{
    c == '"' || c == '\''
}

/// Tests whether `c` ends an identifier.
#[verifier::when_used_as_spec(spec_is_boundary)]
pub fn is_boundary(c: char) -> (b: bool)
    ensures
        b == spec_is_boundary(c),
{
    c == '=' || c == ' ' || c == '('
}

/// Finds the kind of the single-character token that `c` stands for.
#[verifier::when_used_as_spec(spec_symbol_kind)]
pub fn symbol_kind(c: char) -> (kind: Option<TokenKind>)
    ensures
        kind == spec_symbol_kind(c),
{
    match c {
        '=' => Some(TokenKind::Assign),
        ';' => Some(TokenKind::Semicolon),
        ':' => Some(TokenKind::Colon),
        '+' => Some(TokenKind::Plus),
        '-' => Some(TokenKind::Minus),
        '*' => Some(TokenKind::Multiply),
        '/' => Some(TokenKind::Divide),
        '{' => Some(TokenKind::FunctionScopeStart),
        '}' => Some(TokenKind::FunctionScopeEnd),
        '(' => Some(TokenKind::ParenLeft),
        ')' => Some(TokenKind::ParenRight),
        _ => None,
    }
}

} // verus!
