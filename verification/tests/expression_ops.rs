//! The operations of the fixed dispatch table, driven one expression at a
//! time.

use arrow::actaeon::Host;
use arrow::expression::Expression;
use arrow::lisptype::LispType;
use arrow::LispError;

#[test]
fn test_create_defun() -> Result<(), LispError> {
    let fn_name = "defun";
    let args = vec![LispType::String("nt".to_string()), LispType::Number(22)];
    let expr = Expression::create(fn_name, args)?;
    assert_eq!(
        expr.run(&mut vec![LispType::Symbol("nt".to_string())], &mut Host::new())?
            .num(&vec![])?,
        22
    );
    Ok(())
}

#[test]
fn test_create_add() -> Result<(), LispError> {
    let name = "+";
    let args = vec![LispType::Number(33), LispType::Number(22)];
    let expr = Expression::create(name, args)?;
    assert_eq!(expr.run(&mut vec![], &mut Host::new())?.num(&vec![])?, 55);
    Ok(())
}

#[test]
fn test_create_multiply() -> Result<(), LispError> {
    let name = "*";
    let args = vec![LispType::Number(3), LispType::Number(2)];
    let expr = Expression::create(name, args)?;
    assert_eq!(expr.run(&mut vec![], &mut Host::new())?.num(&vec![])?, 6);
    Ok(())
}

#[test]
fn test_create_concat() -> Result<(), LispError> {
    let name = "concat";
    let args = vec![
        LispType::String("h ".to_string()),
        LispType::String("w".to_string()),
    ];
    let expr = Expression::create(name, args)?;
    assert_eq!(
        expr.run(&mut vec![], &mut Host::new())?.to_string(&vec![])?,
        "h w".to_string()
    );
    Ok(())
}

#[test]
fn test_create_equal() -> Result<(), LispError> {
    let name = "equal";
    let args = vec![
        LispType::String("w".to_string()),
        LispType::String("w".to_string()),
    ];
    let expr = Expression::create(name, args)?;
    assert!(expr.run(&mut vec![], &mut Host::new())?.bool()?);
    Ok(())
}

#[test]
fn test_create_print() -> Result<(), LispError> {
    let name = "print";
    let args = vec![LispType::String("hw".to_string())];
    let expr = Expression::create(name, args)?;
    assert!(!expr.run(&mut vec![], &mut Host::new())?.bool()?);
    Ok(())
}

#[test]
#[should_panic]
fn test_create_fail() {
    let name = "hello";
    let expr = Expression::create(name, vec![]).unwrap();
    assert!(!expr
        .run(&mut vec![], &mut Host::new())
        .unwrap()
        .bool()
        .unwrap());
}
