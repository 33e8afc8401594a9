//! The string convenience trait.

use arrow::string::Append;

#[test]
fn test_append() {
    let s = String::from("Hello ");
    let exp = String::from("Hello World");
    assert_eq!(s.append("World".to_string()), exp);
}
