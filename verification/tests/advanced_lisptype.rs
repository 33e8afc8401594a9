//! Values built by hand and reduced by the evaluator.

use arrow::actaeon::Host;
use arrow::expression::Expression;
use arrow::lisptype::LispType;
use arrow::LispError;

#[test]
fn test_simple_example_f() -> Result<(), LispError> {
    let test = LispType::Number(12);
    let exp = 12;
    assert_eq!(test.run(&mut vec![], &mut Host::new())?.num(&vec![])?, exp);
    Ok(())
}

#[test]
fn test_simple_example_str() -> Result<(), LispError> {
    let test = LispType::String("Hello".to_string());
    let exp = "Hello".to_string();
    assert_eq!(
        test.run(&mut vec![], &mut Host::new())?.to_string(&vec![])?,
        exp
    );
    Ok(())
}

#[test]
fn test_advanced_example() -> Result<(), LispError> {
    let test = LispType::Expression(Expression::create(
        "+",
        vec![
            LispType::Expression(Expression::create(
                "+",
                vec![LispType::Number(12), LispType::Number(3)],
            )?),
            LispType::Number(22),
        ],
    )?);
    let exp = 37;
    assert_eq!(test.run(&mut vec![], &mut Host::new())?.num(&vec![])?, exp);
    Ok(())
}
