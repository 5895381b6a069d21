use forth::builtins::Operation;
use forth::output::OutputItem;
use forth::stack::Stack;

#[test]
fn test_add_operation() {
    let mut stack = Stack::default();
    let mut out: Vec<OutputItem> = Vec::new();
    stack.push(10).unwrap();
    stack.push(20).unwrap();

    Operation::Add.execute(&mut stack, &mut out).unwrap();

    assert_eq!(stack.pop().unwrap(), 30);
    assert!(stack.is_empty());
}

#[test]
fn test_add_with_underflow() {
    let mut stack = Stack::default();
    let mut out: Vec<OutputItem> = Vec::new();
    stack.push(5).unwrap();

    let result = Operation::Add.execute(&mut stack, &mut out);
    assert_eq!(result.map_err(|e| e.message()), Err("stack-underflow"));
}

#[test]
fn test_swap_operation() {
    let mut stack = Stack::default();
    let mut out: Vec<OutputItem> = Vec::new();
    stack.push(10).unwrap();
    stack.push(20).unwrap();

    Operation::Swap.execute(&mut stack, &mut out).unwrap();

    assert_eq!(stack.pop().unwrap(), 10);
    assert_eq!(stack.pop().unwrap(), 20);
    assert!(stack.is_empty());
}

#[test]
fn test_swap_with_insufficient_items() {
    let mut stack = Stack::default();
    let mut out: Vec<OutputItem> = Vec::new();
    stack.push(5).unwrap();

    let result = Operation::Swap.execute(&mut stack, &mut out);
    assert_eq!(result.map_err(|e| e.message()), Err("stack-underflow"));
}

#[test]
fn conditional_markers_never_execute() {
    let mut stack = Stack::default();
    let mut out: Vec<OutputItem> = Vec::new();
    stack.push(1).unwrap();
    for op in [Operation::If, Operation::Else, Operation::Then, Operation::IfElse] {
        let result = op.execute(&mut stack, &mut out);
        assert_eq!(
            result.map_err(|e| e.message()),
            Err("conditional-reached-execution")
        );
    }
    assert_eq!(stack.len(), 1);
    assert!(out.is_empty());
}

#[test]
fn dup_on_full_stack_overflows_unchanged() {
    let mut stack = Stack::new(1);
    let mut out: Vec<OutputItem> = Vec::new();
    stack.push(9).unwrap();
    let result = Operation::Dup.execute(&mut stack, &mut out);
    assert_eq!(result.map_err(|e| e.message()), Err("stack-overflow"));
    assert_eq!(stack.get_contents(), vec![9]);
}

#[test]
fn dot_emit_cr_record_output() {
    let mut stack = Stack::default();
    let mut out: Vec<OutputItem> = Vec::new();
    stack.push(65).unwrap();
    stack.push(-7).unwrap();
    Operation::Dot.execute(&mut stack, &mut out).unwrap();
    Operation::Emit.execute(&mut stack, &mut out).unwrap();
    Operation::Cr.execute(&mut stack, &mut out).unwrap();
    assert_eq!(
        out,
        vec![
            OutputItem::Number(-7),
            OutputItem::Character(65),
            OutputItem::Newline
        ]
    );
    assert!(stack.is_empty());
}

#[test]
fn arithmetic_wraps_on_overflow() {
    let mut stack = Stack::default();
    let mut out: Vec<OutputItem> = Vec::new();
    stack.push(32767).unwrap();
    stack.push(1).unwrap();
    Operation::Add.execute(&mut stack, &mut out).unwrap();
    assert_eq!(stack.pop(), Ok(-32768));

    stack.push(-32768).unwrap();
    stack.push(-1).unwrap();
    Operation::Div.execute(&mut stack, &mut out).unwrap();
    assert_eq!(stack.pop(), Ok(-32768));
}
