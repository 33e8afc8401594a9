//! End-to-end behaviour of the interpreter on source text.

use arrow::actaeon::Host;
use arrow::lisptype::LispType;
use arrow::tokenize::{ast, create_lisptypes, tokenize, Token};
use arrow::Arrow;
use arrow::LispError;

fn run_source(code: &str, host: &mut Host) -> Result<LispType, LispError> {
    let forest = ast(code)?;
    let types = create_lisptypes(forest)?;
    assert_eq!(types.len(), 1);
    types[0].run(&mut vec![], host)
}

#[test]
fn test_arithmetic_examples() {
    let mut host = Host::new();
    let r = run_source("(+ 2 3)", &mut host).unwrap();
    assert_eq!(r.num(&vec![]).unwrap(), 5);
    let r = run_source("(* 3 (+ 1 2))", &mut host).unwrap();
    assert_eq!(r.num(&vec![]).unwrap(), 9);
}

#[test]
fn test_tokenize_quoted_text() {
    let toks = tokenize("(concat \"H W\" 2)").unwrap();
    assert_eq!(
        toks,
        vec![
            Token::OpenParen,
            Token::Word("concat".to_string()),
            Token::Word("\"H W\"".to_string()),
            Token::Word("2".to_string()),
            Token::CloseParen,
        ]
    );
    // The quoted word classifies into the text it wraps, the digit into a
    // number.
    let text = LispType::new(&["\"H W\"".to_string()]).unwrap();
    assert_eq!(text.to_string(&vec![]).unwrap(), "H W");
    let num = LispType::new(&["2".to_string()]).unwrap();
    assert_eq!(num.num(&vec![]).unwrap(), 2);
}

#[test]
fn test_let_scope_and_release() {
    let mut host = Host::new();
    let r = run_source("(let 'x 2 (+ x 2))", &mut host).unwrap();
    assert_eq!(r.num(&vec![]).unwrap(), 4);
    // After the let returns, a bare reference to x is unbound.
    assert!(matches!(
        run_source("(+ x 2)", &mut host),
        Err(LispError::UnboundSymbol)
    ));
}

#[test]
fn test_literals_evaluate_to_themselves_twice() {
    let mut host = Host::new();
    let mut vars = vec![LispType::Atom(
        "x".to_string(),
        Box::new(LispType::Number(1)),
    )];

    let n = LispType::Number(5);
    let n1 = n.run(&mut vars, &mut host).unwrap();
    let n2 = n.run(&mut vars, &mut host).unwrap();
    assert_eq!(n.num(&vec![]).unwrap(), 5);
    assert_eq!(n1.num(&vec![]).unwrap(), 5);
    assert_eq!(n2.num(&vec![]).unwrap(), 5);

    let t = LispType::String("hi".to_string());
    let t1 = t.run(&mut vars, &mut host).unwrap();
    let t2 = t.run(&mut vars, &mut host).unwrap();
    assert_eq!(t.to_string(&vec![]).unwrap(), "hi");
    assert_eq!(t1.to_string(&vec![]).unwrap(), "hi");
    assert_eq!(t2.to_string(&vec![]).unwrap(), "hi");

    let b = LispType::Bool(true);
    let b1 = b.run(&mut vars, &mut host).unwrap();
    let b2 = b.run(&mut vars, &mut host).unwrap();
    assert!(b.bool().unwrap());
    assert!(b1.bool().unwrap());
    assert!(b2.bool().unwrap());

    // The environment came through untouched.
    assert_eq!(vars.len(), 1);
    assert_eq!(LispType::Symbol("x".to_string()).num(&vars).unwrap(), 1);
}

#[test]
fn test_invoke_missing_on_empty_registry() {
    let mut arrow = Arrow::default();
    let r = arrow.run("missing").unwrap();
    assert!(!r.bool().unwrap());
}

#[test]
fn test_print_writes_and_yields_false() {
    let mut host = Host::new();
    let r = run_source("(print \"hw\")", &mut host).unwrap();
    assert!(!r.bool().unwrap());
    assert_eq!(host.printed, vec!["hw".to_string()]);
}

#[test]
fn test_same_name_defuns_both_run_last_result_surfaces() {
    let mut arrow = Arrow::default();
    arrow.add_function("(defun 'f (print \"x\"))").unwrap();
    arrow.add_function("(defun 'f 7)").unwrap();
    let r = arrow.run("f").unwrap();
    assert_eq!(r.num(&vec![]).unwrap(), 7);
    // The first body's print fired exactly once.
    assert_eq!(arrow.host.printed, vec!["x".to_string()]);
}

#[test]
fn test_unbalanced_input_leaves_registry_unchanged() {
    let mut arrow = Arrow::default();
    assert_eq!(arrow.add_function("(+ 2"), Err(LispError::SyntaxError));
    assert_eq!(arrow.funcs.len(), 0);
    // The registry still works afterwards.
    arrow.add_function("(defun 'g 1)").unwrap();
    assert_eq!(arrow.funcs.len(), 1);
    assert_eq!(arrow.run("g").unwrap().num(&vec![]).unwrap(), 1);
}
