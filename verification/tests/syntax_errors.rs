use typy::parser::Parser;
use typy::tokenizer::tokenize_str;

fn parse_error(input: &str) -> String {
    Parser::new(tokenize_str(input)).parse().unwrap_err()
}

#[test]
fn unknown_type_is_quoted() {
    assert_eq!(parse_error("x: float\n"), "SyntaxError: unknown type \"float\"");
    assert_eq!(parse_error("x: \u{e9}t\u{e9}\n"), "SyntaxError: unknown type \"\u{e9}t\u{e9}\"");
}

#[test]
fn missing_token_is_named() {
    assert_eq!(parse_error("(1 + 2\n"), "SyntaxError: expected RParen, but got NewLine");
    assert_eq!(parse_error("if x\n    y\n"), "SyntaxError: expected Colon, but got NewLine");
}

#[test]
fn expected_expression_names_the_token() {
    assert_eq!(parse_error("x = \n"), "SyntaxError: expected expression but got NewLine");
    assert_eq!(parse_error("x = 1 + -\n"), "SyntaxError: expected expression but got Minus");
    assert_eq!(parse_error("if 1 2:\n    3\n"), "SyntaxError: expected Colon, but got Number(2)");
}

#[test]
fn missing_annotation_and_block() {
    assert_eq!(parse_error("x: = 1\n"), "SyntaxError: expected type annotation");
    assert_eq!(parse_error("if True:\nx\n"), "SyntaxError: expected Indent, but got Name(\"x\")");
}
