use forth::interpreter::Interpreter;
use forth::output::render_output;
use forth::output::OutputItem;

#[test]
fn test_interpreter_basic_operations() {
    let mut interpreter = Interpreter::new(Some(10));

    let result = interpreter.run("10 20 +");
    assert!(result.is_ok());
    assert_eq!(interpreter.get_stack_contents(), vec![30]);

    let result = interpreter.run("+");
    assert_eq!(result.map_err(|e| e.message()), Err("stack-underflow"));

    interpreter.run("3 4 *").unwrap();
    assert_eq!(interpreter.get_stack_contents(), vec![12]);
}

#[test]
fn test_stack_size_limits() {
    let mut interpreter = Interpreter::new(Some(2));

    assert!(interpreter.run("1 2").is_ok());

    let result = interpreter.run("3");
    assert_eq!(result.map_err(|e| e.message()), Err("stack-overflow"));
}

#[test]
fn end_to_end_addition() {
    let mut interpreter = Interpreter::new(None);
    interpreter.run("10 20 +").unwrap();
    assert_eq!(interpreter.get_stack_contents(), vec![30]);
}

#[test]
fn end_to_end_underflow_on_empty_stack() {
    let mut interpreter = Interpreter::new(None);
    let result = interpreter.run("+");
    assert_eq!(result.map_err(|e| e.message()), Err("stack-underflow"));
}

#[test]
fn end_to_end_overflow_with_prefilled_stack() {
    let mut interpreter = Interpreter::new(Some(2));
    interpreter.run("1 2").unwrap();
    let result = interpreter.run("3");
    assert_eq!(result.map_err(|e| e.message()), Err("stack-overflow"));
    assert_eq!(interpreter.get_stack_contents(), vec![1, 2]);
}

#[test]
fn operand_order_of_sub_and_div() {
    let mut interpreter = Interpreter::new(None);
    interpreter.run("7 2 -").unwrap();
    assert_eq!(interpreter.get_stack_contents(), vec![5]);
    interpreter.run("2 7 -").unwrap();
    assert_eq!(interpreter.get_stack_contents(), vec![-5]);
    interpreter.run("7 2 /").unwrap();
    assert_eq!(interpreter.get_stack_contents(), vec![3]);
    interpreter.run("-7 2 /").unwrap();
    assert_eq!(interpreter.get_stack_contents(), vec![-3]);
}

#[test]
fn operand_order_of_lt_and_gt() {
    let mut interpreter = Interpreter::new(None);
    interpreter.run("2 7 <").unwrap();
    assert_eq!(interpreter.get_stack_contents(), vec![1]);
    interpreter.run("7 2 <").unwrap();
    assert_eq!(interpreter.get_stack_contents(), vec![0]);
    interpreter.run("7 2 >").unwrap();
    assert_eq!(interpreter.get_stack_contents(), vec![1]);
    interpreter.run("2 7 >").unwrap();
    assert_eq!(interpreter.get_stack_contents(), vec![0]);
}

#[test]
fn division_by_zero_fails_for_any_dividend() {
    for program in ["7 0 /", "0 0 /", "-32768 0 /"] {
        let mut interpreter = Interpreter::new(None);
        let result = interpreter.run(program);
        assert_eq!(result.map_err(|e| e.message()), Err("division-by-zero"));
    }
}

#[test]
fn stack_shuffles() {
    let mut interpreter = Interpreter::new(None);
    interpreter.run("5 DUP").unwrap();
    assert_eq!(interpreter.get_stack_contents(), vec![5, 5]);
    interpreter.run("1 2 DROP").unwrap();
    assert_eq!(interpreter.get_stack_contents(), vec![1]);
    interpreter.run("1 2 SWAP").unwrap();
    assert_eq!(interpreter.get_stack_contents(), vec![2, 1]);
    interpreter.run("1 2 OVER").unwrap();
    assert_eq!(interpreter.get_stack_contents(), vec![1, 2, 1]);
    interpreter.run("1 2 3 ROT").unwrap();
    assert_eq!(interpreter.get_stack_contents(), vec![2, 3, 1]);
}

#[test]
fn boolean_operations() {
    let mut interpreter = Interpreter::new(None);
    interpreter.run("5 5 = 5 6 = 0 NOT 3 NOT 1 2 AND 0 2 AND 0 0 OR 0 9 OR").unwrap();
    assert_eq!(
        interpreter.get_stack_contents(),
        vec![1, 0, 1, 0, 1, 0, 0, 1]
    );
}

#[test]
fn output_is_collected_and_rendered() {
    let mut interpreter = Interpreter::new(None);
    interpreter.run("65 EMIT CR 7 . -123 .").unwrap();
    let out = interpreter.take_output();
    assert_eq!(
        out,
        vec![
            OutputItem::Character(65),
            OutputItem::Newline,
            OutputItem::Number(7),
            OutputItem::Number(-123)
        ]
    );
    assert_eq!(render_output(&out), "A\n7 -123 ");
    assert!(interpreter.take_output().is_empty());
}

#[test]
fn lowercase_source_is_case_insensitive() {
    let mut interpreter = Interpreter::new(None);
    interpreter.run("5 dup +").unwrap();
    assert_eq!(interpreter.get_stack_contents(), vec![10]);
}

#[test]
fn unresolved_word_is_unexpected_token() {
    let mut interpreter = Interpreter::new(None);
    let result = interpreter.run("FOO");
    assert_eq!(result.map_err(|e| e.message()), Err("unexpected-token"));
}

#[test]
fn conditional_marker_reaching_executor_is_a_defect() {
    let mut interpreter = Interpreter::new(None);
    let result = interpreter.run("1 IF 2 THEN");
    assert_eq!(
        result.map_err(|e| e.message()),
        Err("conditional-reached-execution")
    );
    assert_eq!(interpreter.get_stack_contents(), vec![1]);
}

#[test]
fn output_before_a_failure_stays_collected() {
    let mut interpreter = Interpreter::new(None);
    let result = interpreter.run("7 . +");
    assert_eq!(result.map_err(|e| e.message()), Err("stack-underflow"));
    assert_eq!(interpreter.take_output(), vec![OutputItem::Number(7)]);
}
