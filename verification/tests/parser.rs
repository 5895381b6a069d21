use forth::builtins::Operation;
use forth::parser::parse;
use forth::parser::parse_operation;
use forth::parser::Token;

#[test]
fn test_parse_number() {
    let result = parse("42").unwrap();
    assert_eq!(result, vec![Token::Number(42)]);
}

#[test]
fn test_parse_operator() {
    let result = parse("+").unwrap();
    assert_eq!(result, vec![Token::Operand(Operation::Add)]);
}

#[test]
fn test_parse_word() {
    let result = parse("FOO").unwrap();
    assert_eq!(result, vec![Token::Word("FOO".to_string())]);
}

#[test]
fn test_parse_definition() {
    let result = parse(": FOO ;").unwrap();
    assert_eq!(
        result,
        vec![
            Token::DefStart,
            Token::Word("FOO".to_string()),
            Token::DefEnd
        ]
    );
}

#[test]
fn test_parse_string_literal() {
    let result = parse(" \"Hello World\" ").unwrap();
    assert_eq!(result, vec![Token::StringLit("Hello World".to_string())]);
}

#[test]
fn parse_operation_resolves_every_primitive() {
    let table = [
        ("+", Operation::Add),
        ("-", Operation::Sub),
        ("*", Operation::Mul),
        ("/", Operation::Div),
        ("DUP", Operation::Dup),
        ("DROP", Operation::Drop),
        ("SWAP", Operation::Swap),
        ("OVER", Operation::Over),
        ("ROT", Operation::Rot),
        (".", Operation::Dot),
        ("EMIT", Operation::Emit),
        ("CR", Operation::Cr),
        ("=", Operation::Eq),
        ("<", Operation::Lt),
        (">", Operation::Gt),
        ("AND", Operation::And),
        ("OR", Operation::Or),
        ("NOT", Operation::Not),
        ("IF", Operation::If),
        ("ELSE", Operation::Else),
        ("THEN", Operation::Then),
    ];
    for (text, op) in table {
        assert_eq!(parse_operation(text), Token::Operand(op));
    }
    assert_eq!(
        parse_operation("NEGATE"),
        Token::Word("NEGATE".to_string())
    );
}

#[test]
fn words_are_uppercased() {
    let result = parse("dup foo").unwrap();
    assert_eq!(
        result,
        vec![
            Token::Operand(Operation::Dup),
            Token::Word("FOO".to_string())
        ]
    );
}

#[test]
fn negative_numbers_and_lone_minus() {
    let result = parse("-17 -").unwrap();
    assert_eq!(
        result,
        vec![Token::Number(-17), Token::Operand(Operation::Sub)]
    );
}

#[test]
fn number_out_of_range_is_invalid() {
    assert_eq!(parse("32768").map_err(|e| e.message()), Err("invalid-number"));
    assert_eq!(parse("-32769").map_err(|e| e.message()), Err("invalid-number"));
    assert_eq!(parse("32767").unwrap(), vec![Token::Number(32767)]);
    assert_eq!(parse("-32768").unwrap(), vec![Token::Number(-32768)]);
    assert_eq!(parse("00042").unwrap(), vec![Token::Number(42)]);
}

#[test]
fn unterminated_string_fails() {
    assert_eq!(
        parse("\"abc").map_err(|e| e.message()),
        Err("unterminated-string")
    );
    assert_eq!(
        parse("\"").map_err(|e| e.message()),
        Err("unterminated-string")
    );
}

#[test]
fn string_literal_single_word_strips_quotes() {
    let result = parse("\"abc\"").unwrap();
    assert_eq!(result, vec![Token::StringLit("abc".to_string())]);
    let empty = parse("\"\"").unwrap();
    assert_eq!(empty, vec![Token::StringLit(String::new())]);
}

#[test]
fn whitespace_is_collapsed_between_words() {
    let result = parse("  1 \t 2\n+ ").unwrap();
    assert_eq!(
        result,
        vec![
            Token::Number(1),
            Token::Number(2),
            Token::Operand(Operation::Add)
        ]
    );
}
