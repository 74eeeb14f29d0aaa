use script_lexer::{Lexer, Token, TokenKind};

fn lexer(source: &str) -> Lexer {
    Lexer::new(source.chars().collect())
}

fn tok(kind: TokenKind, text: &str) -> Token {
    Token { kind, text: text.to_string() }
}

#[test]
fn new_lexer_is_at_the_start_with_no_tokens() {
    let lx = lexer("int x");
    assert_eq!(lx.position(), 0);
    assert!(lx.tokens().is_empty());
    assert_eq!(lx.get_char(), Some(&'i'));
}

#[test]
fn next_char_returns_each_character_then_none() {
    let mut lx = lexer("a\u{e9}c");
    assert_eq!(lx.next_char(), Some('a'));
    assert_eq!(lx.position(), 1);
    assert_eq!(lx.next_char(), Some('\u{e9}'));
    assert_eq!(lx.position(), 2);
    assert_eq!(lx.next_char(), Some('c'));
    assert_eq!(lx.position(), 3);
    assert_eq!(lx.next_char(), None);
    assert_eq!(lx.position(), 3);
    assert_eq!(lx.next_char(), None);
    assert_eq!(lx.position(), 3);
    assert!(lx.tokens().is_empty());
}

#[test]
fn next_char_on_empty_input() {
    let mut lx = lexer("");
    assert_eq!(lx.get_char(), None);
    assert_eq!(lx.next_char(), None);
    assert_eq!(lx.position(), 0);
}

#[test]
fn get_char_does_not_consume() {
    let mut lx = lexer("xy");
    assert_eq!(lx.get_char(), Some(&'x'));
    assert_eq!(lx.get_char(), Some(&'x'));
    assert_eq!(lx.position(), 0);
    lx.next_char();
    assert_eq!(lx.get_char(), Some(&'y'));
    lx.next_char();
    assert_eq!(lx.get_char(), None);
}

#[test]
fn cursor_never_moves_backward() {
    let source = "funktion f(a) { string s = 'x'; int n = 12 }";
    let mut lx = lexer(source);
    let mut last = lx.position();
    while let Some(c) = lx.next_char() {
        match c {
            'a'..='z' | 'A'..='Z' => lx.lex_keyword(c),
            '"' | '\'' => lx.lex_string(c),
            '0'..='9' => lx.lex_integer(c),
            _ => lx.lex_operator(c),
        }
        assert!(lx.position() > last);
        assert!(lx.position() <= source.chars().count());
        last = lx.position();
    }
}

#[test]
fn lex_integer_takes_the_following_digits() {
    let mut lx = lexer("234+1");
    lx.lex_integer('1');
    assert_eq!(lx.tokens(), &vec![tok(TokenKind::NumberLiteral, "1234")]);
    assert_eq!(lx.position(), 3);
    assert_eq!(lx.get_char(), Some(&'+'));
}

#[test]
fn lex_integer_with_no_following_digit() {
    let mut lx = lexer(";");
    lx.lex_integer('7');
    assert_eq!(lx.tokens(), &vec![tok(TokenKind::NumberLiteral, "7")]);
    assert_eq!(lx.position(), 0);
}

#[test]
fn lex_integer_at_end_of_input() {
    let mut lx = lexer("99");
    lx.lex_integer('9');
    assert_eq!(lx.tokens(), &vec![tok(TokenKind::NumberLiteral, "999")]);
    assert_eq!(lx.position(), 2);
    let mut empty = lexer("");
    empty.lex_integer('0');
    assert_eq!(empty.tokens(), &vec![tok(TokenKind::NumberLiteral, "0")]);
    assert_eq!(empty.position(), 0);
}

#[test]
fn lex_string_with_closing_delimiter() {
    let mut lx = lexer("hi\";");
    lx.lex_string('"');
    assert_eq!(
        lx.tokens(),
        &vec![
            tok(TokenKind::QuoteMark, "\""),
            tok(TokenKind::StringLiteral, "hi"),
            tok(TokenKind::QuoteMark, "\""),
        ]
    );
    assert_eq!(lx.position(), 3);
    assert_eq!(lx.get_char(), Some(&';'));
}

#[test]
fn lex_string_closed_by_the_other_delimiter() {
    let mut lx = lexer("hi' x");
    lx.lex_string('"');
    assert_eq!(
        lx.tokens(),
        &vec![
            tok(TokenKind::QuoteMark, "\""),
            tok(TokenKind::StringLiteral, "hi"),
            tok(TokenKind::QuoteMark, "\""),
        ]
    );
    assert_eq!(lx.position(), 3);
}

#[test]
fn lex_string_without_closing_delimiter() {
    let mut lx = lexer("abc def");
    lx.lex_string('\'');
    assert_eq!(lx.tokens(), &vec![tok(TokenKind::QuoteMark, "'")]);
    assert_eq!(lx.position(), 7);
    assert_eq!(lx.get_char(), None);
}

#[test]
fn lex_string_at_end_of_input() {
    let mut lx = lexer("");
    lx.lex_string('"');
    assert_eq!(lx.tokens(), &vec![tok(TokenKind::QuoteMark, "\"")]);
    assert_eq!(lx.position(), 0);
}

#[test]
fn lex_keyword_emits_each_reserved_word() {
    let mut lx = lexer("tring s");
    lx.lex_keyword('s');
    assert_eq!(lx.tokens(), &vec![tok(TokenKind::StringTypeKeyword, "string")]);
    assert_eq!(lx.position(), 5);

    let mut lx = lexer("nt");
    lx.lex_keyword('i');
    assert_eq!(lx.tokens(), &vec![tok(TokenKind::IntTypeKeyword, "int")]);
    assert_eq!(lx.position(), 2);

    let mut lx = lexer("unktions");
    lx.lex_keyword('f');
    assert_eq!(lx.tokens(), &vec![tok(TokenKind::FunctionKeyword, "funktion")]);
    assert_eq!(lx.position(), 7);
    assert_eq!(lx.get_char(), Some(&'s'));
}

#[test]
fn lex_keyword_emits_a_variable_name_at_a_boundary() {
    for boundary in ['=', ' ', '('] {
        let source: String = format!("ount2{}", boundary);
        let mut lx = lexer(&source);
        lx.lex_keyword('c');
        assert_eq!(lx.tokens(), &vec![tok(TokenKind::VariableName, "count2")]);
        assert_eq!(lx.position(), 5);
        assert_eq!(lx.get_char(), Some(&boundary));
    }
}

#[test]
fn lex_keyword_with_boundary_right_away() {
    let mut lx = lexer("=1");
    lx.lex_keyword('x');
    assert_eq!(lx.tokens(), &vec![tok(TokenKind::VariableName, "x")]);
    assert_eq!(lx.position(), 0);
}

#[test]
fn lex_keyword_drops_the_lexeme_at_a_dead_end() {
    let mut lx = lexer("bc;");
    lx.lex_keyword('a');
    assert!(lx.tokens().is_empty());
    assert_eq!(lx.position(), 2);
    assert_eq!(lx.get_char(), Some(&';'));

    let mut lx = lexer("bc");
    lx.lex_keyword('a');
    assert!(lx.tokens().is_empty());
    assert_eq!(lx.position(), 2);

    let mut lx = lexer("");
    lx.lex_keyword('a');
    assert!(lx.tokens().is_empty());
    assert_eq!(lx.position(), 0);
}

#[test]
fn lex_operator_appends_one_token_and_keeps_the_cursor() {
    let mut lx = lexer("abc");
    lx.lex_operator('+');
    lx.lex_operator('{');
    lx.lex_operator(')');
    assert_eq!(
        lx.tokens(),
        &vec![
            tok(TokenKind::Plus, "+"),
            tok(TokenKind::FunctionScopeStart, "{"),
            tok(TokenKind::ParenRight, ")"),
        ]
    );
    assert_eq!(lx.position(), 0);
}

#[test]
fn lex_operator_ignores_other_characters() {
    let mut lx = lexer("abc");
    for c in ['a', '1', ' ', '"', '#', '\u{f7}'] {
        lx.lex_operator(c);
    }
    assert!(lx.tokens().is_empty());
    assert_eq!(lx.position(), 0);
}

#[test]
fn tokenize_chars_runs_to_the_end() {
    let mut lx = lexer("int x = 5;");
    lx.tokenize_chars();
    assert_eq!(lx.position(), 10);
    assert_eq!(lx.get_char(), None);
    assert_eq!(
        lx.tokens(),
        &vec![
            tok(TokenKind::IntTypeKeyword, "int"),
            tok(TokenKind::VariableName, "x"),
            tok(TokenKind::Assign, "="),
            tok(TokenKind::NumberLiteral, "5"),
            tok(TokenKind::Semicolon, ";"),
            tok(TokenKind::EndOfInput, ""),
        ]
    );
}

#[test]
fn tokenize_chars_goes_on_from_the_cursor() {
    let mut lx = lexer("ab = 1");
    assert_eq!(lx.next_char(), Some('a'));
    assert_eq!(lx.next_char(), Some('b'));
    lx.tokenize_chars();
    assert_eq!(
        lx.tokens(),
        &vec![
            tok(TokenKind::Assign, "="),
            tok(TokenKind::NumberLiteral, "1"),
            tok(TokenKind::EndOfInput, ""),
        ]
    );
}

#[test]
fn into_tokens_hands_out_the_tokens() {
    let mut lx = lexer("a=1");
    lx.tokenize_chars();
    let kinds: Vec<TokenKind> = lx.into_tokens().iter().map(|t| t.kind).collect();
    assert_eq!(
        kinds,
        vec![
            TokenKind::VariableName,
            TokenKind::Assign,
            TokenKind::NumberLiteral,
            TokenKind::EndOfInput,
        ]
    );
}
