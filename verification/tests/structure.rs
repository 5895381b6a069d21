use forth::builtins::Operation;
use forth::parser::parse;
use forth::parser::Token;
use forth::structure::resolve_conditionals;
use forth::structure::resolve_definitions;

fn conditionals_of(source: &str) -> Result<Vec<Token>, &'static str> {
    resolve_conditionals(parse(source).unwrap()).map_err(|e| e.message())
}

#[test]
fn plain_conditional_keeps_if() {
    let result = conditionals_of("IF 1 THEN").unwrap();
    assert_eq!(
        result,
        vec![
            Token::Operand(Operation::If),
            Token::Number(1),
            Token::Operand(Operation::Then)
        ]
    );
}

#[test]
fn conditional_with_else_rewrites_if() {
    let result = conditionals_of("IF 1 ELSE 2 THEN").unwrap();
    assert_eq!(
        result,
        vec![
            Token::Operand(Operation::IfElse),
            Token::Number(1),
            Token::Operand(Operation::Else),
            Token::Number(2),
            Token::Operand(Operation::Then)
        ]
    );
}

#[test]
fn bare_else_fails() {
    assert_eq!(conditionals_of("ELSE"), Err("unexpected-else"));
}

#[test]
fn bare_then_fails() {
    assert_eq!(conditionals_of("THEN"), Err("unexpected-then"));
}

#[test]
fn unclosed_if_fails() {
    assert_eq!(conditionals_of("IF 1"), Err("unterminated-if"));
}

#[test]
fn second_else_fails() {
    assert_eq!(
        conditionals_of("IF 1 ELSE 2 ELSE 3 THEN"),
        Err("duplicate-else")
    );
}

#[test]
fn nested_conditionals_rewrite_the_right_if() {
    let result = conditionals_of("IF IF 1 THEN ELSE 2 THEN").unwrap();
    assert_eq!(
        result,
        vec![
            Token::Operand(Operation::IfElse),
            Token::Operand(Operation::If),
            Token::Number(1),
            Token::Operand(Operation::Then),
            Token::Operand(Operation::Else),
            Token::Number(2),
            Token::Operand(Operation::Then)
        ]
    );
}

fn definitions_of(source: &str) -> Result<Vec<Token>, &'static str> {
    resolve_definitions(parse(source).unwrap()).map_err(|e| e.message())
}

#[test]
fn definition_is_inlined_behind_a_marker() {
    let result = definitions_of(": NEGATE -1 * ;").unwrap();
    assert_eq!(
        result,
        vec![
            Token::Word("DEFINE_NEGATE".to_string()),
            Token::Number(-1),
            Token::Operand(Operation::Mul)
        ]
    );
}

#[test]
fn tokens_around_a_definition_pass_through() {
    let result = definitions_of("1 : TWO 2 ; 3").unwrap();
    assert_eq!(
        result,
        vec![
            Token::Number(1),
            Token::Word("DEFINE_TWO".to_string()),
            Token::Number(2),
            Token::Number(3)
        ]
    );
}

#[test]
fn nested_definition_fails() {
    assert_eq!(definitions_of(": A : B ;"), Err("nested-word-definition"));
}

#[test]
fn definition_end_outside_definition_fails() {
    assert_eq!(definitions_of(";"), Err("unexpected-definition-end"));
}

#[test]
fn number_in_name_position_fails() {
    assert_eq!(definitions_of(": 5 ;"), Err("invalid-word"));
    assert_eq!(definitions_of(": ;"), Err("invalid-word"));
}

#[test]
fn unclosed_definition_fails() {
    assert_eq!(definitions_of(": A 1"), Err("unterminated-word-definition"));
}

#[test]
fn string_literal_with_multiple_words() {
    let result = parse("\" Hello, World!\"").unwrap();
    assert_eq!(
        result,
        vec![Token::StringLit("Hello, World!".to_string())]
    );
}
