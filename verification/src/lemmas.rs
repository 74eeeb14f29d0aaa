//! Facts about the grammar that hold for every input.

use vstd::prelude::*;
use crate::chars::{is_alphanumeric, is_boundary, is_digit, is_letter, is_quote, symbol_kind};
use crate::grammar::{
    digits_end, lemma_digits_end_bounds, lemma_quote_index_bounds, lemma_scan_step_advances,
    lemma_word_end_bounds, lex, peek, quote_index, reserved_kind, scan_all, scan_step,
    well_formed, word_end, word_lexeme, word_state, Scan,
};
use crate::lexer::LexerView;
use crate::token::{TokenKind, TokenView};

verus! {

/// The run of digits from `cur` holds digits only, and it is maximal: it ends
/// at the end of the input or before a character that is no digit.
pub proof fn lemma_digits_end_is_first_non_digit(input: Seq<char>, cur: int)
    requires
        0 <= cur <= input.len(),
    ensures
        forall|i: int| cur <= i < digits_end(input, cur) ==> is_digit(#[trigger] input[i]),
        peek(input, digits_end(input, cur)) matches Some(c) ==> !is_digit(c),
    decreases input.len() - cur,
{
    if cur < input.len() && is_digit(input[cur]) {
        lemma_digits_end_is_first_non_digit(input, cur + 1);
    }
}

/// A position that bounds a run of digits by the two properties of its end is
/// the end of that run.
pub proof fn lemma_digits_end_unique(input: Seq<char>, cur: int, end: int)
    requires
        0 <= cur <= end <= input.len(),
        forall|i: int| cur <= i < end ==> is_digit(#[trigger] input[i]),
        peek(input, end) matches Some(c) ==> !is_digit(c),
    ensures
        digits_end(input, cur) == end,
    decreases end - cur,
{
    if cur < end {
        assert(is_digit(input[cur]));
        lemma_digits_end_unique(input, cur + 1, end);
    }
}

/// No string delimiter stands between `cur` and the position that the search
/// for one returns, and that position holds a delimiter unless it is the end
/// of the input.
pub proof fn lemma_quote_index_is_first_quote(input: Seq<char>, cur: int)
    requires
        0 <= cur <= input.len(),
    ensures
        forall|i: int| cur <= i < quote_index(input, cur) ==> !is_quote(#[trigger] input[i]),
        peek(input, quote_index(input, cur)) matches Some(c) ==> is_quote(c),
    decreases input.len() - cur,
{
    if cur < input.len() && !is_quote(input[cur]) {
        lemma_quote_index_is_first_quote(input, cur + 1);
    }
}

/// A position before which no delimiter stands, and which holds one or is the
/// end of the input, is what the search for a delimiter returns.
pub proof fn lemma_quote_index_unique(input: Seq<char>, cur: int, close: int)
    requires
        0 <= cur <= close <= input.len(),
        forall|i: int| cur <= i < close ==> !is_quote(#[trigger] input[i]),
        peek(input, close) matches Some(c) ==> is_quote(c),
    ensures
        quote_index(input, cur) == close,
    decreases close - cur,
{
    if cur < close {
        assert(!is_quote(input[cur]));
        lemma_quote_index_unique(input, cur + 1, close);
    }
}

/// Between `cur` and the end of an identifier scan every character is
/// alphanumeric and no lexeme on the way is a reserved word; at the end the
/// scan is no longer accumulating.
pub proof fn lemma_word_end_is_first_stop(first: char, input: Seq<char>, start: int, cur: int)
    requires
        0 <= start <= cur <= input.len(),
    ensures
        forall|i: int|
            cur <= i < word_end(first, input, start, cur) ==> is_alphanumeric(#[trigger] input[i]),
        forall|i: int|
            cur <= i < word_end(first, input, start, cur) ==> reserved_kind(
                #[trigger] word_lexeme(first, input, start, i),
            ) is None,
        !(word_state(
            word_lexeme(first, input, start, word_end(first, input, start, cur)),
            peek(input, word_end(first, input, start, cur)),
        ) is Accumulating),
    decreases input.len() - cur,
{
    if cur < input.len() && word_state(word_lexeme(first, input, start, cur), peek(input, cur))
        is Accumulating {
        lemma_word_end_is_first_stop(first, input, start, cur + 1);
    }
}

/// From any position of an input that holds only spaces from there on, the
/// dispatch loop appends the terminator and nothing else.
pub proof fn lemma_spaces_scan_to_terminator(input: Seq<char>, pos: int)
    requires
        0 <= pos <= input.len(),
        forall|i: int| pos <= i < input.len() ==> input[i] == ' ',
    ensures
        scan_all(input, pos) == seq![TokenView::end_of_input()],
    decreases input.len() - pos,
{
    if pos < input.len() {
        lemma_spaces_scan_to_terminator(input, pos + 1);
        assert(Seq::<TokenView>::empty() + scan_all(input, pos + 1) =~= scan_all(input, pos + 1));
    }
}

/// An input that consists of spaces only, the empty input among them, has
/// exactly one token: the terminator.
pub proof fn lemma_only_spaces(input: Seq<char>)
    requires
        forall|i: int| 0 <= i < input.len() ==> input[i] == ' ',
    ensures
        lex(input) == seq![TokenView::end_of_input()],
{
    lemma_spaces_scan_to_terminator(input, 0);
}

/// No round of the dispatch loop appends a terminator.
pub proof fn lemma_scan_step_has_no_terminator(input: Seq<char>, pos: int)
    requires
        0 <= pos < input.len(),
    ensures
        forall|i: int|
            0 <= i < scan_step(input, pos).tokens.len() ==> (#[trigger] scan_step(
                input,
                pos,
            ).tokens[i]).kind != TokenKind::EndOfInput,
{
}

/// What the dispatch loop appends from any position ends with the terminator,
/// and the terminator occurs nowhere before the end.
pub proof fn lemma_scan_all_ends_with_single_terminator(input: Seq<char>, pos: int)
    ensures
        scan_all(input, pos).len() >= 1,
        scan_all(input, pos).last() == TokenView::end_of_input(),
        forall|i: int|
            0 <= i < scan_all(input, pos).len() - 1 ==> (#[trigger] scan_all(input, pos)[i]).kind
                != TokenKind::EndOfInput,
    decreases input.len() - pos,
{
    if 0 <= pos < input.len() {
        let step = scan_step(input, pos);
        lemma_scan_step_advances(input, pos);
        lemma_scan_step_has_no_terminator(input, pos);
        lemma_scan_all_ends_with_single_terminator(input, step.cursor);
    }
}

/// For every input, the last token is the terminator and no other token is
/// one.
pub proof fn lemma_terminator_last_and_single(input: Seq<char>)
    ensures
        lex(input).len() >= 1,
        lex(input).last() == TokenView::end_of_input(),
        forall|i: int|
            0 <= i < lex(input).len() - 1 ==> (#[trigger] lex(input)[i]).kind
                != TokenKind::EndOfInput,
{
    lemma_scan_all_ends_with_single_terminator(input, 0);
}

/// Two fresh scanners over the same input, each run to the end, hold the same
/// tokens.
pub proof fn lemma_same_input_same_tokens(first: LexerView, second: LexerView, input: Seq<char>)
    requires
        first == LexerView::fresh(input),
        second == LexerView::fresh(input),
    ensures
        first.finished().tokens == second.finished().tokens,
        first.finished().tokens == lex(input),
{
    assert(Seq::<TokenView>::empty() + lex(input) =~= lex(input));
}

/// A run of `n` digits that the dispatch loop meets at `pos`, and that ends at
/// the end of the input or before a character that is no digit, becomes one
/// number literal: its text is the run, so it has length `n` and holds digits
/// only, and the cursor stops right after the run.
pub proof fn lemma_digit_run_is_one_number(input: Seq<char>, pos: int, n: int)
    requires
        0 <= pos,
        1 <= n,
        pos + n <= input.len(),
        forall|i: int| pos <= i < pos + n ==> is_digit(#[trigger] input[i]),
        peek(input, pos + n) matches Some(c) ==> !is_digit(c),
    ensures
        scan_step(input, pos) == (Scan {
            tokens: seq![
                TokenView { kind: TokenKind::NumberLiteral, text: input.subrange(pos, pos + n) },
            ],
            cursor: pos + n,
        }),
        input.subrange(pos, pos + n).len() == n,
        forall|i: int| 0 <= i < n ==> is_digit(#[trigger] input.subrange(pos, pos + n)[i]),
{
    assert(is_digit(input[pos]));
    lemma_digits_end_unique(input, pos + 1, pos + n);
    assert(seq![input[pos]] + input.subrange(pos + 1, pos + n) =~= input.subrange(pos, pos + n));
}

/// An input of one or more digits and nothing else has two tokens: the number
/// with all of its digits, and the terminator.
pub proof fn lemma_only_digits(input: Seq<char>)
    requires
        input.len() >= 1,
        forall|i: int| 0 <= i < input.len() ==> is_digit(#[trigger] input[i]),
    ensures
        lex(input) == seq![
            TokenView { kind: TokenKind::NumberLiteral, text: input },
            TokenView::end_of_input(),
        ],
{
    lemma_digit_run_is_one_number(input, 0, input.len() as int);
    assert(input.subrange(0, input.len() as int) =~= input);
    assert(scan_all(input, input.len() as int) == seq![TokenView::end_of_input()]);
    assert(scan_step(input, 0).tokens + scan_all(input, input.len() as int) =~= seq![
        TokenView { kind: TokenKind::NumberLiteral, text: input },
        TokenView::end_of_input(),
    ]);
}

/// A string that is opened at `pos` and never closed leaves a single quote
/// mark, with the opening delimiter: the rest of the input is consumed and
/// only the terminator follows.
pub proof fn lemma_unterminated_string(input: Seq<char>, pos: int)
    requires
        0 <= pos < input.len(),
        is_quote(input[pos]),
        forall|i: int| pos < i < input.len() ==> !is_quote(#[trigger] input[i]),
    ensures
        scan_step(input, pos) == (Scan {
            tokens: seq![TokenView::of_char(TokenKind::QuoteMark, input[pos])],
            cursor: input.len() as int,
        }),
        scan_all(input, pos) == seq![
            TokenView::of_char(TokenKind::QuoteMark, input[pos]),
            TokenView::end_of_input(),
        ],
{
    lemma_quote_index_unique(input, pos + 1, input.len() as int);
    assert(scan_all(input, input.len() as int) == seq![TokenView::end_of_input()]);
    assert(scan_step(input, pos).tokens + scan_all(input, input.len() as int) =~= seq![
        TokenView::of_char(TokenKind::QuoteMark, input[pos]),
        TokenView::end_of_input(),
    ]);
}

/// The character classes of the dispatch loop do not overlap: a character is
/// a space, a letter, a string delimiter, a digit, or an operator or
/// structural character, or none of them, but never two at once.
pub proof fn lemma_classes_are_disjoint(c: char)
    ensures
        c == ' ' ==> !is_letter(c) && !is_quote(c) && !is_digit(c) && symbol_kind(c) is None,
        is_letter(c) ==> !is_quote(c) && !is_digit(c) && symbol_kind(c) is None,
        is_quote(c) ==> !is_digit(c) && symbol_kind(c) is None,
        is_digit(c) ==> symbol_kind(c) is None,
        is_boundary(c) ==> !is_alphanumeric(c),
{
}

/// Every token that one round of the dispatch loop appends is well formed.
pub proof fn lemma_scan_step_is_well_formed(input: Seq<char>, pos: int)
    requires
        0 <= pos < input.len(),
    ensures
        forall|i: int|
            0 <= i < scan_step(input, pos).tokens.len() ==> well_formed(
                #[trigger] scan_step(input, pos).tokens[i],
            ),
{
    let c = input[pos];
    let step = scan_step(input, pos);
    if c == ' ' {
    } else if is_letter(c) {
        let end = word_end(c, input, pos + 1, pos + 1);
        let lexeme = word_lexeme(c, input, pos + 1, end);
        lemma_word_end_bounds(c, input, pos + 1, pos + 1);
        lemma_word_end_is_first_stop(c, input, pos + 1, pos + 1);
        assert forall|i: int| 0 <= i < lexeme.len() implies is_alphanumeric(lexeme[i]) by {
            if i > 0 {
                assert(lexeme[i] == input[pos + i]);
            }
        }
    } else if is_quote(c) {
        lemma_quote_index_bounds(input, pos + 1);
        lemma_quote_index_is_first_quote(input, pos + 1);
    } else if is_digit(c) {
        let end = digits_end(input, pos + 1);
        let text = seq![c] + input.subrange(pos + 1, end);
        lemma_digits_end_bounds(input, pos + 1);
        lemma_digits_end_is_first_non_digit(input, pos + 1);
        assert forall|i: int| 0 <= i < text.len() implies is_digit(text[i]) by {
            if i > 0 {
                assert(text[i] == input[pos + i]);
            }
        }
    } else {
    }
}

/// Every token that the dispatch loop appends from `pos` on is well formed.
pub proof fn lemma_scan_all_is_well_formed(input: Seq<char>, pos: int)
    ensures
        forall|i: int|
            0 <= i < scan_all(input, pos).len() ==> well_formed(#[trigger] scan_all(input, pos)[i]),
    decreases input.len() - pos,
{
    if 0 <= pos < input.len() {
        let step = scan_step(input, pos);
        lemma_scan_step_advances(input, pos);
        lemma_scan_step_is_well_formed(input, pos);
        lemma_scan_all_is_well_formed(input, step.cursor);
        assert forall|i: int| 0 <= i < scan_all(input, pos).len() implies well_formed(
            #[trigger] scan_all(input, pos)[i],
        ) by {
            if i < step.tokens.len() {
                assert(scan_all(input, pos)[i] == step.tokens[i]);
            } else {
                assert(scan_all(input, pos)[i] == scan_all(input, step.cursor)[i
                    - step.tokens.len()]);
            }
        }
    }
}

/// Every token of every input is well formed.
pub proof fn lemma_lexed_tokens_are_well_formed(input: Seq<char>)
    ensures
        forall|i: int| 0 <= i < lex(input).len() ==> well_formed(#[trigger] lex(input)[i]),
{
    lemma_scan_all_is_well_formed(input, 0);
}

} // verus!
