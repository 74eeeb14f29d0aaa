//! The executable scanner.

use vstd::prelude::*;
use crate::chars::{is_alphanumeric, is_boundary, is_digit, is_letter, is_quote, symbol_kind};
use crate::grammar::{
    digits_end, lemma_scan_step_advances, lex, peek, quote_index, reserved_kind, scan_all,
    scan_number, scan_step, scan_string, scan_symbol, scan_word, word_end, word_lexeme,
    word_state, Scan, WordState,
};
use crate::token::{token_views, Token, TokenKind, TokenView};

verus! {

/// The input of a scanner and the offset of its next unconsumed character,
/// which never lies beyond the end of the input.
struct Source {
    chars: Vec<char>,
    index: usize,
}

/// A scanner over one unit of input: the characters, a cursor into them and
/// the tokens appended so far.
pub struct Lexer {
    source: Source,
    tokens: Vec<Token>,
}

/// The mathematical value of a [`Lexer`].
pub ghost struct LexerView {
    /// The characters of the input; no method changes them.
    pub input: Seq<char>,
    /// The offset of the next unconsumed character.
    pub cursor: int,
    /// The tokens appended so far, in lexical order.
    pub tokens: Seq<TokenView>,
}

impl LexerView {
    /// The state of a scanner that has consumed nothing of `input` yet.
    pub open spec fn fresh(input: Seq<char>) -> LexerView {
        LexerView { input, cursor: 0, tokens: Seq::empty() }
    }

    /// The cursor lies inside the input or at its end.
    pub open spec fn in_bounds(self) -> bool {
        0 <= self.cursor <= self.input.len()
    }

    /// The state after a scan: its tokens are appended and the cursor stands
    /// where the scan left it.
    pub open spec fn after(self, scan: Scan) -> LexerView {
        LexerView { input: self.input, cursor: scan.cursor, tokens: self.tokens + scan.tokens }
    }

    /// The state after the dispatch loop has run to the end of the input and
    /// appended the terminator.
    pub open spec fn finished(self) -> LexerView {
        LexerView {
            input: self.input,
            cursor: self.input.len() as int,
            tokens: self.tokens + scan_all(self.input, self.cursor),
        }
    }
}

/// Tells whether `lexeme` is a reserved word, and which keyword it spells.
pub fn reserved_word(lexeme: &String) -> (kind: Option<TokenKind>)
    ensures
        kind == reserved_kind(lexeme@),
{
    if *lexeme == String::from_str("string") {
        Some(TokenKind::StringTypeKeyword)
    } else if *lexeme == String::from_str("int") {
        Some(TokenKind::IntTypeKeyword)
    } else if *lexeme == String::from_str("funktion") {
        Some(TokenKind::FunctionKeyword)
    } else {
        None
    }
}

/// Decides how an identifier scan goes on from the lexeme built so far and
/// the next unconsumed character.
pub fn next_word_state(lexeme: &String, next: Option<char>) -> (state: WordState)
    ensures
        state == word_state(lexeme@, next),
{
    match reserved_word(lexeme) {
        Some(kind) => WordState::MatchedKeyword(kind),
        None => match next {
            Some(c) => if is_boundary(c) {
                WordState::AtBoundary
            } else if is_alphanumeric(c) {
                WordState::Accumulating
            } else {
                WordState::DeadEnd
            },
            None => WordState::DeadEnd,
        },
    }
}

impl Source {
    #[verifier::type_invariant]
    spec fn index_in_bounds(self) -> bool {
        self.index <= self.chars.len()
    }

    /// Returns the character at the index and moves the index past it, or
    /// returns `None` at the end of the input.
    fn advance(&mut self) -> (c: Option<char>)
        ensures
            c == peek(old(self).chars@, old(self).index as int),
            final(self).chars == old(self).chars,
            final(self).index == old(self).index + (if c is Some { 1int } else { 0int }),
            final(self).index <= final(self).chars.len(),
    {
        proof {
            use_type_invariant(&*self);
        }
        if self.index >= self.chars.len() {
            None
        } else {
            let c = self.chars[self.index];
            self.index += 1;
            Some(c)
        }
    }

    /// Returns the character at the index, or `None` at the end of the input.
    fn current(&self) -> (c: Option<&char>)
        ensures
            match c {
                Some(r) => peek(self.chars@, self.index as int) == Some(*r),
                None => peek(self.chars@, self.index as int) is None,
            },
            self.index <= self.chars.len(),
    {
        proof {
            use_type_invariant(self);
        }
        if self.index < self.chars.len() {
            Some(&self.chars[self.index])
        } else {
            None
        }
    }
}

impl View for Lexer {
    type V = LexerView;

    closed spec fn view(&self) -> LexerView {
        LexerView {
            input: self.source.chars@,
            cursor: self.source.index as int,
            tokens: token_views(self.tokens@),
        }
    }
}

impl Lexer {
    /// Creates a scanner at the start of `input`, with no tokens.
    pub fn new(input: Vec<char>) -> (lexer: Lexer)
        ensures
            lexer@ == LexerView::fresh(input@),
    {
        let lexer = Lexer { source: Source { chars: input, index: 0 }, tokens: Vec::new() };
        assert(token_views(lexer.tokens@) =~= Seq::empty());
        lexer
    }

    /// Consumes the next character: returns the character at the cursor and
    /// advances by one, or returns `None` at the end of the input and changes
    /// nothing.
    pub fn next_char(&mut self) -> (c: Option<char>)
        ensures
            c == peek(old(self)@.input, old(self)@.cursor),
            final(self)@.input == old(self)@.input,
            final(self)@.tokens == old(self)@.tokens,
            final(self)@.cursor == old(self)@.cursor + (if c is Some { 1int } else { 0int }),
            final(self)@.in_bounds(),
    {
        self.source.advance()
    }

    /// Looks at the next character without consuming it.
    pub fn get_char(&self) -> (c: Option<&char>)
        ensures
            match c {
                Some(r) => peek(self@.input, self@.cursor) == Some(*r),
                None => peek(self@.input, self@.cursor) is None,
            },
            self@.in_bounds(),
    {
        self.source.current()
    }

    /// Appends `token` to the output.
    fn emit(&mut self, token: Token)
        ensures
            final(self)@ == old(self)@.after(
                Scan { tokens: seq![token@], cursor: old(self)@.cursor },
            ),
            final(self)@.in_bounds(),
    {
        proof {
            use_type_invariant(&self.source);
        }
        self.tokens.push(token);
        assert(token_views(self.tokens@) =~= token_views(old(self).tokens@) + seq![token@]);
    }

    /// Scans an integer literal whose first digit, `first_char`, has been
    /// consumed: takes every digit that follows and appends one
    /// `NumberLiteral` with all of them.
    pub fn lex_integer(&mut self, first_char: char)
        ensures
            final(self)@ == old(self)@.after(
                scan_number(first_char, old(self)@.input, old(self)@.cursor),
            ),
            old(self)@.cursor <= final(self)@.cursor,
            final(self)@.in_bounds(),
    {
        proof {
            use_type_invariant(&self.source);
        }
        let ghost before = self@;
        let mut text = String::new();
        text.push(first_char);
        loop
            invariant
                self@.input == before.input,
                self@.tokens == before.tokens,
                before.cursor <= self@.cursor,
                before.in_bounds(),
                text@ == seq![first_char] + before.input.subrange(before.cursor, self@.cursor),
                digits_end(before.input, self@.cursor) == digits_end(before.input, before.cursor),
            ensures
                self@.in_bounds(),
                self@.cursor == digits_end(before.input, before.cursor),
            decreases before.input.len() - self@.cursor,
        {
            match self.get_char() {
                Some(next) if is_digit(*next) => {
                    let c = *next;
                    let ghost cur = self@.cursor;
                    text.push(c);
                    self.next_char();
                    assert(before.input.subrange(before.cursor, cur + 1)
                        =~= before.input.subrange(before.cursor, cur).push(c));
                },
                _ => {
                    break ;
                },
            }
        }
        self.emit(Token::new(TokenKind::NumberLiteral, text));
    }

    /// Appends the token of the single character `c` where `c` is an operator
    /// or a structural character, and nothing otherwise. The cursor stays.
    pub fn lex_operator(&mut self, c: char)
        ensures
            final(self)@ == old(self)@.after(
                Scan { tokens: scan_symbol(c), cursor: old(self)@.cursor },
            ),
            final(self)@.in_bounds(),
    {
        proof {
            use_type_invariant(&self.source);
        }
        match symbol_kind(c) {
            Some(kind) => {
                self.emit(Token::of_char(kind, c));
            },
            None => {
                assert(self@.tokens + Seq::<TokenView>::empty() =~= self@.tokens);
            },
        }
    }

    /// Scans a string whose opening delimiter, `first_char`, has been
    /// consumed. Appends a `QuoteMark`; then, where a closing delimiter
    /// follows, a `StringLiteral` with the characters before it and a second
    /// `QuoteMark`, and consumes the closing delimiter. Where none follows,
    /// the rest of the input is consumed and nothing more is appended.
    pub fn lex_string(&mut self, first_char: char)
        ensures
            final(self)@ == old(self)@.after(
                scan_string(first_char, old(self)@.input, old(self)@.cursor),
            ),
            old(self)@.cursor <= final(self)@.cursor,
            final(self)@.in_bounds(),
    {
        proof {
            use_type_invariant(&self.source);
        }
        let ghost before = self@;
        let mut text = String::new();
        self.emit(Token::of_char(TokenKind::QuoteMark, first_char));
        loop
            invariant_except_break
                self@.input == before.input,
                self@.tokens == before.tokens.push(
                    TokenView::of_char(TokenKind::QuoteMark, first_char),
                ),
                self@.in_bounds(),
                text@ == before.input.subrange(before.cursor, self@.cursor),
                quote_index(before.input, self@.cursor) == quote_index(
                    before.input,
                    before.cursor,
                ),
            invariant
                before.in_bounds(),
                before.cursor <= self@.cursor,
            ensures
                self@ == before.after(scan_string(first_char, before.input, before.cursor)),
                self@.in_bounds(),
            decreases before.input.len() - self@.cursor,
        {
            match self.next_char() {
                Some(c) => {
                    if is_quote(c) {
                        self.emit(Token::new(TokenKind::StringLiteral, text));
                        self.emit(Token::of_char(TokenKind::QuoteMark, first_char));
                        assert(self@.tokens =~= before.tokens + scan_string(
                            first_char,
                            before.input,
                            before.cursor,
                        ).tokens);
                        break ;
                    }
                    let ghost cur = self@.cursor - 1;
                    text.push(c);
                    assert(before.input.subrange(before.cursor, cur + 1)
                        =~= before.input.subrange(before.cursor, cur).push(c));
                },
                None => {
                    assert(self@.tokens =~= before.tokens + scan_string(
                        first_char,
                        before.input,
                        before.cursor,
                    ).tokens);
                    break ;
                },
            }
        }
    }

    /// Scans an identifier or a keyword whose first letter, `first_char`, has
    /// been consumed. Alphanumeric characters join the lexeme until it is a
    /// reserved word, which appends its keyword token, or until `=`, a space
    /// or `(` follows, which appends a `VariableName`. At any other character
    /// and at the end of the input the lexeme is dropped. The character that
    /// ends the scan is not consumed.
    pub fn lex_keyword(&mut self, first_char: char)
        ensures
            final(self)@ == old(self)@.after(
                scan_word(first_char, old(self)@.input, old(self)@.cursor),
            ),
            old(self)@.cursor <= final(self)@.cursor,
            final(self)@.in_bounds(),
    {
        proof {
            use_type_invariant(&self.source);
        }
        let ghost before = self@;
        let mut lexeme = String::new();
        lexeme.push(first_char);
        assert(before.input.subrange(before.cursor, before.cursor) =~= Seq::<char>::empty());
        loop
            invariant_except_break
                self@.tokens == before.tokens,
                lexeme@ == word_lexeme(first_char, before.input, before.cursor, self@.cursor),
                word_end(first_char, before.input, before.cursor, self@.cursor) == word_end(
                    first_char,
                    before.input,
                    before.cursor,
                    before.cursor,
                ),
            invariant
                before.in_bounds(),
                self@.input == before.input,
                before.cursor <= self@.cursor,
                self@.in_bounds(),
            ensures
                self@ == before.after(scan_word(first_char, before.input, before.cursor)),
            decreases before.input.len() - self@.cursor,
        {
            let next = match self.get_char() {
                Some(c) => Some(*c),
                None => None,
            };
            match next_word_state(&lexeme, next) {
                WordState::MatchedKeyword(kind) => {
                    self.emit(Token::new(kind, lexeme));
                    break ;
                },
                WordState::AtBoundary => {
                    self.emit(Token::new(TokenKind::VariableName, lexeme));
                    break ;
                },
                WordState::Accumulating => {
                    let ghost cur = self@.cursor;
                    let c = next.unwrap();
                    lexeme.push(c);
                    self.next_char();
                    assert(before.input.subrange(before.cursor, cur + 1)
                        =~= before.input.subrange(before.cursor, cur).push(c));
                    assert(lexeme@ =~= word_lexeme(
                        first_char,
                        before.input,
                        before.cursor,
                        cur + 1,
                    ));
                },
                WordState::DeadEnd => {
                    assert(self@.tokens + Seq::<TokenView>::empty() =~= self@.tokens);
                    break ;
                },
            }
        }
    }

    /// Scans from the cursor to the end of the input and appends the
    /// terminator. Each round consumes one character and, by its class, skips
    /// it or runs the scan that it begins.
    pub fn tokenize_chars(&mut self)
        ensures
            final(self)@ == old(self)@.finished(),
            old(self)@.cursor <= final(self)@.cursor,
            final(self)@.in_bounds(),
    {
        proof {
            use_type_invariant(&self.source);
        }
        let ghost before = self@;
        loop
            invariant
                self@.input == before.input,
                self@.in_bounds(),
                self@.tokens + scan_all(before.input, self@.cursor) == before.tokens + scan_all(
                    before.input,
                    before.cursor,
                ),
            ensures
                self@.cursor == before.input.len(),
            decreases before.input.len() - self@.cursor,
        {
            let ghost round = self@;
            match self.next_char() {
                None => {
                    break ;
                },
                Some(c) => {
                    if c == ' ' {
                    } else if is_letter(c) {
                        self.lex_keyword(c);
                    } else if is_quote(c) {
                        self.lex_string(c);
                    } else if is_digit(c) {
                        self.lex_integer(c);
                    } else {
                        self.lex_operator(c);
                    }
                    proof {
                        let step = scan_step(before.input, round.cursor);
                        lemma_scan_step_advances(before.input, round.cursor);
                        assert(self@ == round.after(step)) by {
                            assert(round.tokens + Seq::<TokenView>::empty() =~= round.tokens);
                        }
                        assert((round.tokens + step.tokens) + scan_all(before.input, step.cursor)
                            =~= round.tokens + (step.tokens + scan_all(
                            before.input,
                            step.cursor,
                        )));
                    }
                },
            }
        }
        self.emit(Token::end_of_input());
        assert(self@.tokens =~= before.tokens + scan_all(before.input, before.cursor));
    }

    /// The tokens appended so far.
    pub fn tokens(&self) -> (tokens: &Vec<Token>)
        ensures
            token_views(tokens@) == self@.tokens,
    {
        &self.tokens
    }

    /// Gives up the scanner for its tokens.
    pub fn into_tokens(self) -> (tokens: Vec<Token>)
        ensures
            token_views(tokens@) == self@.tokens,
    {
        self.tokens
    }

    /// The offset of the next unconsumed character.
    pub fn position(&self) -> (index: usize)
        ensures
            index == self@.cursor,
            self@.in_bounds(),
    {
        proof {
            use_type_invariant(&self.source);
        }
        self.source.index
    }
}

/// Scans a whole input: its tokens in lexical order, ending with the
/// terminator.
pub fn tokenize(input: Vec<char>) -> (tokens: Vec<Token>)
    ensures
        token_views(tokens@) == lex(input@),
{
    let mut lexer = Lexer::new(input);
    lexer.tokenize_chars();
    assert(Seq::<TokenView>::empty() + lex(input@) =~= lex(input@));
    lexer.into_tokens()
}

} // verus!
