//! The lexical grammar: what each scan produces, as functions of the input.
//!
//! Every function here works on the input as a sequence of characters and on
//! cursor positions as integers. A scan starts at a position, appends tokens
//! and leaves the cursor at a later position; [`Scan`] holds both results.

use vstd::prelude::*;
use crate::chars::{is_alphanumeric, is_boundary, is_digit, is_letter, is_quote, symbol_kind};
use crate::token::{TokenKind, TokenView};

verus! {

/// The outcome of one scan: the tokens it appends and where it leaves the
/// cursor.
pub ghost struct Scan {
    pub tokens: Seq<TokenView>,
    pub cursor: int,
}

/// The character at `pos`, or `None` where `pos` lies outside `input`.
pub open spec fn peek(input: Seq<char>, pos: int) -> Option<char> {
    if 0 <= pos < input.len() {
        Some(input[pos])
    } else {
        None
    }
}

/// The keyword that `word` spells, if it is one of the reserved words
/// `string`, `int` and `funktion`.
pub open spec fn reserved_kind(word: Seq<char>) -> Option<TokenKind> {
    if word == "string"@ {
        Some(TokenKind::StringTypeKeyword)
    } else if word == "int"@ {
        Some(TokenKind::IntTypeKeyword)
    } else if word == "funktion"@ {
        Some(TokenKind::FunctionKeyword)
    } else {
        None
    }
}

/// Where an identifier scan stands, given the lexeme built so far and the next
/// unconsumed character.
#[derive(Clone, Copy, Debug, PartialEq, Eq, Structural)]
pub enum WordState {
    /// The lexeme is a reserved word: its keyword token is emitted.
    MatchedKeyword(TokenKind),
    /// The next character is `=`, a space or `(`: the lexeme is emitted as a
    /// variable name.
    AtBoundary,
    /// The next character is alphanumeric and joins the lexeme.
    Accumulating,
    /// The input is exhausted or the next character can neither join nor end
    /// the lexeme: the lexeme is dropped.
    DeadEnd,
}

/// The state of an identifier scan. A reserved word wins over everything else,
/// whatever follows it; then the next character decides.
pub open spec fn word_state(lexeme: Seq<char>, next: Option<char>) -> WordState {
    match reserved_kind(lexeme) {
        Some(kind) => WordState::MatchedKeyword(kind),
        None => match next {
            Some(c) => if is_boundary(c) {
                WordState::AtBoundary
            } else if is_alphanumeric(c) {
                WordState::Accumulating
            } else {
                WordState::DeadEnd
            },
            None => WordState::DeadEnd,
        },
    }
}

/// The lexeme of an identifier scan that began with `first` and has taken the
/// characters of `input` from `start` up to `cur`.
pub open spec fn word_lexeme(first: char, input: Seq<char>, start: int, cur: int) -> Seq<char> {
    seq![first] + input.subrange(start, cur)
}

/// Where an identifier scan stops: the first position from `cur` on at which
/// the scan is no longer accumulating.
pub open spec fn word_end(first: char, input: Seq<char>, start: int, cur: int) -> int
    decreases input.len() - cur,
{
    if 0 <= start <= cur < input.len() && word_state(
        word_lexeme(first, input, start, cur),
        peek(input, cur),
    ) is Accumulating {
        word_end(first, input, start, cur + 1)
    } else {
        cur
    }
}

/// The identifier and keyword scan, begun with the consumed character `first`
/// and the cursor at `pos`. The cursor stops before the character that ended
/// the scan; one token is appended for a keyword or a variable name, none at a
/// dead end.
pub open spec fn scan_word(first: char, input: Seq<char>, pos: int) -> Scan {
    let end = word_end(first, input, pos, pos);
    let lexeme = word_lexeme(first, input, pos, end);
    Scan {
        tokens: match word_state(lexeme, peek(input, end)) {
            WordState::MatchedKeyword(kind) => seq![TokenView { kind, text: lexeme }],
            WordState::AtBoundary => seq![TokenView { kind: TokenKind::VariableName, text: lexeme }],
            _ => Seq::empty(),
        },
        cursor: end,
    }
}

/// The first position from `cur` on that holds a string delimiter, or the end
/// of the input where none follows.
pub open spec fn quote_index(input: Seq<char>, cur: int) -> int
    decreases input.len() - cur,
{
    if 0 <= cur < input.len() && !is_quote(input[cur]) {
        quote_index(input, cur + 1)
    } else {
        cur
    }
}

/// The string scan, begun with the consumed opening delimiter `quote` and the
/// cursor at `pos`. A quote mark with the opening delimiter is always
/// appended. Where a closing delimiter follows, the characters before it
/// become a string literal, a second quote mark with the opening delimiter is
/// appended and the cursor moves past the closing delimiter; where none
/// follows, the rest of the input is consumed and nothing more is appended.
pub open spec fn scan_string(quote: char, input: Seq<char>, pos: int) -> Scan {
    let close = quote_index(input, pos);
    let mark = TokenView::of_char(TokenKind::QuoteMark, quote);
    if 0 <= close < input.len() {
        Scan {
            tokens: seq![
                mark,
                TokenView { kind: TokenKind::StringLiteral, text: input.subrange(pos, close) },
                mark,
            ],
            cursor: close + 1,
        }
    } else {
        Scan { tokens: seq![mark], cursor: close }
    }
}

/// The end of the run of digits that begins at `cur`: the first position from
/// `cur` on that holds no digit, or the end of the input.
pub open spec fn digits_end(input: Seq<char>, cur: int) -> int
    decreases input.len() - cur,
{
    if 0 <= cur < input.len() && is_digit(input[cur]) {
        digits_end(input, cur + 1)
    } else {
        cur
    }
}

/// The integer scan, begun with the consumed digit `first` and the cursor at
/// `pos`. It takes every digit that follows and appends one number literal;
/// the cursor stops before the first character that is no digit.
pub open spec fn scan_number(first: char, input: Seq<char>, pos: int) -> Scan {
    let end = digits_end(input, pos);
    Scan {
        tokens: seq![
            TokenView { kind: TokenKind::NumberLiteral, text: seq![first] + input.subrange(pos, end) },
        ],
        cursor: end,
    }
}

/// The tokens of the single character `c`: one token where `c` is an operator
/// or a structural character, none otherwise.
pub open spec fn scan_symbol(c: char) -> Seq<TokenView> {
    match symbol_kind(c) {
        Some(kind) => seq![TokenView::of_char(kind, c)],
        None => Seq::empty(),
    }
}

/// One round of the dispatch loop at `pos`, a position inside `input`: the
/// character there is consumed and decides which scan runs.
pub open spec fn scan_step(input: Seq<char>, pos: int) -> Scan
    recommends
        0 <= pos < input.len(),
{
    let c = input[pos];
    if c == ' ' {
        Scan { tokens: Seq::empty(), cursor: pos + 1 }
    } else if is_letter(c) {
        scan_word(c, input, pos + 1)
    } else if is_quote(c) {
        scan_string(c, input, pos + 1)
    } else if is_digit(c) {
        scan_number(c, input, pos + 1)
    } else {
        Scan { tokens: scan_symbol(c), cursor: pos + 1 }
    }
}

/// Everything the dispatch loop appends from `pos` to the end of the input,
/// the terminator included.
pub open spec fn scan_all(input: Seq<char>, pos: int) -> Seq<TokenView>
    decreases input.len() - pos,
    via scan_all_decreases
{
    if 0 <= pos < input.len() {
        let step = scan_step(input, pos);
        step.tokens + scan_all(input, step.cursor)
    } else {
        seq![TokenView::end_of_input()]
    }
}

#[via_fn]
proof fn scan_all_decreases(input: Seq<char>, pos: int) {
    if 0 <= pos < input.len() {
        lemma_scan_step_advances(input, pos);
    }
}

/// The token sequence of a whole input.
pub open spec fn lex(input: Seq<char>) -> Seq<TokenView> {
    scan_all(input, 0)
}

/// The text of `token` is what its kind allows: digits for a number, no
/// delimiter inside a string literal, the reserved word itself for a keyword,
/// a letter followed by alphanumeric characters that spell no reserved word
/// for a variable name, the one character for an operator, a structural
/// character or a quote mark, and nothing for the terminator.
pub open spec fn well_formed(token: TokenView) -> bool {
    let text = token.text;
    match token.kind {
        TokenKind::StringLiteral => forall|i: int| 0 <= i < text.len() ==> !is_quote(text[i]),
        TokenKind::NumberLiteral => text.len() >= 1 && forall|i: int|
            0 <= i < text.len() ==> is_digit(text[i]),
        TokenKind::StringTypeKeyword
        | TokenKind::IntTypeKeyword
        | TokenKind::FunctionKeyword => reserved_kind(text) == Some(token.kind),
        TokenKind::VariableName => {
            &&& text.len() >= 1
            &&& is_letter(text[0])
            &&& forall|i: int| 0 <= i < text.len() ==> is_alphanumeric(text[i])
            &&& reserved_kind(text) is None
        },
        TokenKind::QuoteMark => text.len() == 1 && is_quote(text[0]),
        TokenKind::EndOfInput => text.len() == 0,
        _ => text.len() == 1 && symbol_kind(text[0]) == Some(token.kind),
    }
}

/// An identifier scan stops at or after `cur` and inside the input.
pub proof fn lemma_word_end_bounds(first: char, input: Seq<char>, start: int, cur: int)
    requires
        0 <= start <= cur <= input.len(),
    ensures
        cur <= word_end(first, input, start, cur) <= input.len(),
    decreases input.len() - cur,
{
    if cur < input.len() && word_state(word_lexeme(first, input, start, cur), peek(input, cur))
        is Accumulating {
        lemma_word_end_bounds(first, input, start, cur + 1);
    }
}

/// The search for a closing delimiter stops at or after `cur` and at the end
/// of the input at the latest.
pub proof fn lemma_quote_index_bounds(input: Seq<char>, cur: int)
    requires
        0 <= cur <= input.len(),
    ensures
        cur <= quote_index(input, cur) <= input.len(),
    decreases input.len() - cur,
{
    if cur < input.len() && !is_quote(input[cur]) {
        lemma_quote_index_bounds(input, cur + 1);
    }
}

/// A run of digits ends at or after `cur` and inside the input.
pub proof fn lemma_digits_end_bounds(input: Seq<char>, cur: int)
    requires
        0 <= cur <= input.len(),
    ensures
        cur <= digits_end(input, cur) <= input.len(),
    decreases input.len() - cur,
{
    if cur < input.len() && is_digit(input[cur]) {
        lemma_digits_end_bounds(input, cur + 1);
    }
}

/// Each round of the dispatch loop consumes at least one character and never
/// runs past the end of the input.
pub proof fn lemma_scan_step_advances(input: Seq<char>, pos: int)
    requires
        0 <= pos < input.len(),
    ensures
        pos < scan_step(input, pos).cursor <= input.len(),
{
    let c = input[pos];
    lemma_word_end_bounds(c, input, pos + 1, pos + 1);
    lemma_quote_index_bounds(input, pos + 1);
    lemma_digits_end_bounds(input, pos + 1);
}

} // verus!
