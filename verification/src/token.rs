//! Tokens: the kinds the scanner can emit and the text each one carries.

use vstd::prelude::*;

verus! {

/// The lexical category of a token.
#[derive(Clone, Copy, Debug, PartialEq, Eq, Hash, Structural)]
pub enum TokenKind {
    /// The characters between two quote marks.
    StringLiteral,
    /// A run of decimal digits.
    NumberLiteral,
    /// The reserved word `string`.
    StringTypeKeyword,
    /// The reserved word `int`.
    IntTypeKeyword,
    /// The reserved word `funktion`.
    FunctionKeyword,
    /// An identifier that is not a reserved word.
    VariableName,
    /// `{`
    FunctionScopeStart,
    /// `}`
    FunctionScopeEnd,
    /// `(`
    ParenLeft,
    /// `)`
    ParenRight,
    /// `=`
    Assign,
    /// `+`
    Plus,
    /// `-`
    Minus,
    /// `*`
    Multiply,
    /// `/`
    Divide,
    /// `:`
    Colon,
    /// `;`
    Semicolon,
    /// A delimiter of a string literal; its text is the opening delimiter.
    QuoteMark,
    /// The terminator that ends every token sequence.
    EndOfInput,
}

/// A token: a kind paired with the text of its lexeme.
#[derive(Clone, Debug, PartialEq, Eq, Hash)]
pub struct Token {
    pub kind: TokenKind,
    pub text: String,
}

/// The mathematical value of a [`Token`]: its kind and its text as a sequence
/// of characters.
pub ghost struct TokenView {
    pub kind: TokenKind,
    pub text: Seq<char>,
}

impl View for Token {
    type V = TokenView;

    open spec fn view(&self) -> TokenView {
        TokenView { kind: self.kind, text: self.text@ }
    }
}

impl TokenView {
    /// The token of kind `kind` whose text is the single character `c`.
    pub open spec fn of_char(kind: TokenKind, c: char) -> TokenView {
        TokenView { kind, text: seq![c] }
    }

    /// The terminator: kind `EndOfInput`, empty text.
    pub open spec fn end_of_input() -> TokenView {
        TokenView { kind: TokenKind::EndOfInput, text: Seq::empty() }
    }
}

/// The values of a sequence of tokens, in order.
pub open spec fn token_views(tokens: Seq<Token>) -> Seq<TokenView> {
    tokens.map_values(|t: Token| t@)
}

/// Appends one character to a `String`.
///
/// Specifies `String::push` of the standard library: the string's characters
/// afterwards are its characters before, followed by `ch`.
pub assume_specification[ String::push ](s: &mut String, ch: char)
    ensures
        final(s)@ == old(s)@.push(ch),
;

impl Token {
    /// Builds a token from a kind and its text.
    pub fn new(kind: TokenKind, text: String) -> (token: Token)
        ensures
            token@ == (TokenView { kind, text: text@ }),
    {
        Token { kind, text }
    }

    /// Builds the token of kind `kind` whose text is the single character `c`.
    pub fn of_char(kind: TokenKind, c: char) -> (token: Token)
        ensures
            token@ == TokenView::of_char(kind, c),
    {
        let mut text = String::new();
        text.push(c);
        Token { kind, text }
    }

    /// Builds the terminator token.
    pub fn end_of_input() -> (token: Token)
        ensures
            token@ == TokenView::end_of_input(),
    {
        Token { kind: TokenKind::EndOfInput, text: String::new() }
    }
}

} // verus!
