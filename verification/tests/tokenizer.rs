use typy::tokenizer::{Token, tokenize, tokenize_str, try_tokenize_str};

fn name(text: &str) -> Token {
    Token::Name(text.to_string())
}

#[test]
fn empty_input_produces_eof() {
    assert_eq!(tokenize_str(""), vec![Token::Eof]);
}

#[test]
fn owned_string_entry_point_still_works() {
    assert_eq!(
        tokenize(String::from("1")),
        vec![Token::Number(1), Token::NewLine, Token::Eof]
    );
}

#[test]
fn tokenizes_number() {
    assert_eq!(
        tokenize_str("42"),
        vec![Token::Number(42), Token::NewLine, Token::Eof]
    );
}

#[test]
fn tokenizes_assignment() {
    assert_eq!(
        tokenize_str("x = 1"),
        vec![
            name("x"),
            Token::Assign,
            Token::Number(1),
            Token::NewLine,
            Token::Eof,
        ]
    );
}

#[test]
fn tokenizes_keywords() {
    assert_eq!(
        tokenize_str("if:"),
        vec![Token::If, Token::Colon, Token::NewLine, Token::Eof]
    );
}

#[test]
fn tokenizes_indent_and_dedent() {
    let input = "if:\n    x\n";

    assert_eq!(
        tokenize_str(input),
        vec![
            Token::If,
            Token::Colon,
            Token::NewLine,
            Token::Indent,
            name("x"),
            Token::NewLine,
            Token::Dedent,
            Token::Eof,
        ]
    );
}

#[test]
fn dedents_to_zero_on_unindented_line() {
    let input = "if:\n    x\ny\n";

    assert_eq!(
        tokenize_str(input),
        vec![
            Token::If,
            Token::Colon,
            Token::NewLine,
            Token::Indent,
            name("x"),
            Token::NewLine,
            Token::Dedent,
            name("y"),
            Token::NewLine,
            Token::Eof,
        ]
    );
}

#[test]
fn blank_lines_do_not_change_indentation() {
    let input = "if:\n\n    x\n";

    assert_eq!(
        tokenize_str(input),
        vec![
            Token::If,
            Token::Colon,
            Token::NewLine,
            Token::NewLine,
            Token::Indent,
            name("x"),
            Token::NewLine,
            Token::Dedent,
            Token::Eof,
        ]
    );
}

#[test]
fn simple_function_definition() {
    let input = "def add(a: int, b: int) -> int:\n    return a + b\n";

    assert_eq!(
        tokenize_str(input),
        vec![
            Token::Def,
            name("add"),
            Token::LParen,
            name("a"),
            Token::Colon,
            name("int"),
            Token::Comma,
            name("b"),
            Token::Colon,
            name("int"),
            Token::RParen,
            Token::RArrow,
            name("int"),
            Token::Colon,
            Token::NewLine,
            Token::Indent,
            Token::Return,
            name("a"),
            Token::Plus,
            name("b"),
            Token::NewLine,
            Token::Dedent,
            Token::Eof,
        ]
    );
}

#[test]
fn function_definition_without_args() {
    let input = "def get_1() -> int:\n    return 1\n";

    assert_eq!(
        tokenize_str(input),
        vec![
            Token::Def,
            name("get_1"),
            Token::LParen,
            Token::RParen,
            Token::RArrow,
            name("int"),
            Token::Colon,
            Token::NewLine,
            Token::Indent,
            Token::Return,
            Token::Number(1),
            Token::NewLine,
            Token::Dedent,
            Token::Eof,
        ]
    );
}

#[test]
fn function_call() {
    let input = "foo()";

    assert_eq!(
        tokenize_str(input),
        vec![
            name("foo"),
            Token::LParen,
            Token::RParen,
            Token::NewLine,
            Token::Eof,
        ]
    );
}

#[test]
fn function_call_with_args() {
    let input = "foo(a, b)";

    assert_eq!(
        tokenize_str(input),
        vec![
            name("foo"),
            Token::LParen,
            name("a"),
            Token::Comma,
            name("b"),
            Token::RParen,
            Token::NewLine,
            Token::Eof,
        ]
    );
}

#[test]
fn indentation_mismatch_is_reported() {
    let result = try_tokenize_str("if:\n        x\n    y\n");
    assert_eq!(
        result,
        Err("IndentationError: unindent does not match any outer indentation level".to_string())
    );
}

#[test]
fn unknown_token_is_reported() {
    assert_eq!(
        try_tokenize_str("@"),
        Err("SyntaxError: unknown token: @".to_string())
    );
}

#[test]
fn overflowing_integer_is_reported() {
    assert_eq!(
        try_tokenize_str("999999999999999999999999999999"),
        Err("SyntaxError: invalid integer literal: 999999999999999999999999999999".to_string())
    );
}

#[test]
fn largest_integer_literal_is_accepted() {
    assert_eq!(
        tokenize_str("9223372036854775807"),
        vec![Token::Number(i64::MAX), Token::NewLine, Token::Eof]
    );
    assert!(try_tokenize_str("9223372036854775808").is_err());
}

#[test]
fn lone_bang_is_an_unknown_token() {
    assert_eq!(
        try_tokenize_str("x ! y"),
        Err("SyntaxError: unknown token: !".to_string())
    );
}

#[test]
fn two_character_operators() {
    assert_eq!(
        tokenize_str("a <= b >= c == d != e -> f < g > h = i"),
        vec![
            name("a"),
            Token::LessEq,
            name("b"),
            Token::GreaterEq,
            name("c"),
            Token::Eq,
            name("d"),
            Token::NotEq,
            name("e"),
            Token::RArrow,
            name("f"),
            Token::Less,
            name("g"),
            Token::Greater,
            name("h"),
            Token::Assign,
            name("i"),
            Token::NewLine,
            Token::Eof,
        ]
    );
}

#[test]
fn unicode_letters_make_names() {
    assert_eq!(
        tokenize_str("été_1 = 2"),
        vec![name("été_1"), Token::Assign, Token::Number(2), Token::NewLine, Token::Eof]
    );
}

#[test]
fn tab_indents_four_columns() {
    // A tab and four spaces open the same level, so no dedent comes between.
    assert_eq!(
        tokenize_str("if:\n\tx\n    y\n"),
        vec![
            Token::If,
            Token::Colon,
            Token::NewLine,
            Token::Indent,
            name("x"),
            Token::NewLine,
            name("y"),
            Token::NewLine,
            Token::Dedent,
            Token::Eof,
        ]
    );
}

#[test]
fn open_levels_close_at_end_of_input() {
    let tokens = tokenize_str("if:\n    if:\n        x");
    let indents = tokens.iter().filter(|t| matches!(t, Token::Indent)).count();
    let dedents = tokens.iter().filter(|t| matches!(t, Token::Dedent)).count();
    assert_eq!(indents, 2);
    assert_eq!(dedents, 2);
    assert_eq!(tokens.last(), Some(&Token::Eof));
    assert_eq!(tokens.iter().filter(|t| matches!(t, Token::Eof)).count(), 1);
    assert_eq!(
        &tokens[tokens.len() - 4..],
        &[Token::NewLine, Token::Dedent, Token::Dedent, Token::Eof]
    );
}

#[test]
fn unicode_spaces_and_letters() {
    assert_eq!(
        try_tokenize_str("1\u{a0}+\u{3000}2"),
        Ok(vec![Token::Number(1), Token::Plus, Token::Number(2), Token::NewLine, Token::Eof])
    );
    assert_eq!(
        try_tokenize_str("\u{e9}t\u{e9}2"),
        Ok(vec![Token::Name("\u{e9}t\u{e9}2".to_string()), Token::NewLine, Token::Eof])
    );
    assert_eq!(try_tokenize_str("x\u{1}"), Err("SyntaxError: unknown token: \u{1}".to_string()));
}
