use rust_eval::{calculate_factorial, fibonacci, safe_divide, Stack};

#[test]
fn test_fibonacci() {
    assert_eq!(fibonacci(0), 0);
    assert_eq!(fibonacci(1), 1);
    assert_eq!(fibonacci(5), 5);
    assert_eq!(fibonacci(10), 55);
}

#[test]
fn test_safe_divide() {
    assert_eq!(safe_divide(10, 2), Ok(5));
    assert!(safe_divide(10, 0).is_err());
}

#[test]
fn test_stack() {
    let mut stack = Stack::new();
    assert!(stack.is_empty());

    stack.push(1);
    stack.push(2);
    assert!(!stack.is_empty());

    assert_eq!(stack.pop(), Some(2));
    assert_eq!(stack.pop(), Some(1));
    assert_eq!(stack.pop(), None);
    assert!(stack.is_empty());
}

#[test]
fn test_factorial() {
    assert_eq!(calculate_factorial(0), 1);
    assert_eq!(calculate_factorial(1), 1);
    assert_eq!(calculate_factorial(5), 120);
}

#[test]
fn fibonacci_reaches_the_last_index_that_fits() {
    assert_eq!(fibonacci(2), 1);
    assert_eq!(fibonacci(93), 12200160415121876738);
    assert_eq!(rust_eval::samples::FIBONACCI_MAX_INDEX, 93);
}

#[test]
fn factorial_reaches_the_last_value_that_fits() {
    assert_eq!(calculate_factorial(12), 479001600);
}

#[test]
fn safe_divide_rounds_towards_zero() {
    assert_eq!(safe_divide(7, 2), Ok(3));
    assert_eq!(safe_divide(-7, 2), Ok(-3));
    assert_eq!(safe_divide(7, -2), Ok(-3));
    assert_eq!(safe_divide(-7, -2), Ok(3));
    assert_eq!(safe_divide(0, -5), Ok(0));
    assert_eq!(safe_divide(i32::MIN, 1), Ok(i32::MIN));
    assert_eq!(safe_divide(i32::MAX, -1), Ok(-i32::MAX));
}

#[test]
fn safe_divide_names_its_errors() {
    assert_eq!(safe_divide(10, 0), Err("Division by zero".to_string()));
    assert_eq!(safe_divide(i32::MIN, 0), Err("Division by zero".to_string()));
    assert_eq!(safe_divide(i32::MIN, -1), Err("Division overflow".to_string()));
}

#[test]
fn doubling_and_the_constant() {
    assert_eq!(rust_eval::calculate(5), 10);
    assert_eq!(rust_eval::calculate(-3), -6);
    assert_eq!(rust_eval::get_constant(), 42);
    assert_eq!(rust_eval::function_with_unused_param(21, 99), 42);
    assert_eq!(rust_eval::function_with_unused_param(21, -1), 42);
}

#[test]
fn stack_is_last_in_first_out() {
    let mut stack = Stack::new();
    for word in ["a", "b", "c"] {
        stack.push(word.to_string());
    }
    assert_eq!(stack.pop(), Some("c".to_string()));
    stack.push("d".to_string());
    assert_eq!(stack.pop(), Some("d".to_string()));
    assert_eq!(stack.pop(), Some("b".to_string()));
    assert!(!stack.is_empty());
    assert_eq!(stack.pop(), Some("a".to_string()));
    assert!(stack.is_empty());
    assert_eq!(stack.pop(), None);
}
