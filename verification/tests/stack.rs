use forth::stack::Stack;

#[test]
fn test_create_stack() {
    let stack = Stack::new(10);
    assert!(stack.is_empty());
}

#[test]
fn test_push() {
    let mut stack = Stack::new(10);
    assert!(stack.push(1).is_ok());
    assert!(!stack.is_empty());
}

#[test]
fn test_push_overflow() {
    let mut stack = Stack::new(2);
    assert!(stack.push(1).is_ok());
    assert!(stack.push(2).is_ok());
    assert_eq!(stack.push(3).map_err(|e| e.message()), Err("stack-overflow"));
}

#[test]
fn test_pop() {
    let mut stack = Stack::new(10);
    stack.push(1).unwrap();
    assert_eq!(stack.pop(), Ok(1));
    assert!(stack.is_empty());
}

#[test]
fn test_pop_underflow() {
    let mut stack = Stack::new(10);
    assert_eq!(stack.pop().map_err(|e| e.message()), Err("stack-underflow"));
}

#[test]
fn lifo_order() {
    let mut stack = Stack::new(8);
    stack.push(11).unwrap();
    stack.push(22).unwrap();
    stack.push(33).unwrap();
    assert_eq!(stack.pop(), Ok(33));
    assert_eq!(stack.pop(), Ok(22));
    assert_eq!(stack.pop(), Ok(11));
    assert!(stack.is_empty());
}

#[test]
fn push_on_full_leaves_stack_unchanged() {
    let mut stack = Stack::new(1);
    stack.push(7).unwrap();
    assert_eq!(stack.push(8).map_err(|e| e.message()), Err("stack-overflow"));
    assert_eq!(stack.len(), 1);
    assert_eq!(stack.pop(), Ok(7));
}

#[test]
fn get_contents_drains_in_order() {
    let mut stack = Stack::new(4);
    stack.push(1).unwrap();
    stack.push(2).unwrap();
    stack.push(3).unwrap();
    assert_eq!(stack.get_contents(), vec![1, 2, 3]);
    assert!(stack.is_empty());
    assert!(stack.get_contents().is_empty());
}

#[test]
fn default_capacity_holds_values() {
    let mut stack = Stack::default();
    assert!(stack.is_empty());
    assert!(stack.push(42).is_ok());
    assert_eq!(stack.len(), 1);
}
