//! Registering definitions through the top-level wrapper.

use arrow::Arrow;
use arrow::LispError;

#[test]
fn test_variable_creation() {
    let test = "(let 'test 10)";
    let mut arrow = Arrow::default();
    arrow.add_function(test).unwrap();
}

#[test]
fn test_variable_access() {
    // The parentheses of this form do not balance, so registration fails
    // and the registry stays empty.
    let test = "(defun 'main [] (let 'test 10 (progn (print 'test)))";
    let mut arrow = Arrow::default();
    assert_eq!(arrow.add_function(test), Err(LispError::SyntaxError));
    assert_eq!(arrow.funcs.len(), 0);
}
