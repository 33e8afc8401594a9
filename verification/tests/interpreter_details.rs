//! Finer points: the error taxonomy, coercions, number notation, symbol
//! resolution order, and the transport operations.

use arrow::actaeon::{Actaeon, Host};
use arrow::expression::Expression;
use arrow::lisptype::LispType;
use arrow::tokenize::{ast, create_lisptypes};
use arrow::Arrow;
use arrow::LispError;

fn run_source(code: &str, host: &mut Host) -> Result<LispType, LispError> {
    let forest = ast(code)?;
    let types = create_lisptypes(forest)?;
    assert_eq!(types.len(), 1);
    types[0].run(&mut vec![], host)
}

#[test]
fn test_arity_error() {
    let mut host = Host::new();
    assert!(matches!(
        run_source("(+ 2)", &mut host),
        Err(LispError::ArityError)
    ));
    assert!(matches!(
        run_source("(let 'x 2)", &mut host),
        Err(LispError::ArityError)
    ));
    assert!(matches!(
        run_source("(progn)", &mut host),
        Err(LispError::ArityError)
    ));
}

#[test]
fn test_type_mismatch() {
    let mut host = Host::new();
    assert!(matches!(
        run_source("(+ \"a\" 2)", &mut host),
        Err(LispError::TypeMismatch)
    ));
    // Only a literal symbol can be bound by let.
    assert!(matches!(
        run_source("(let 3 2 1)", &mut host),
        Err(LispError::TypeMismatch)
    ));
}

#[test]
fn test_unknown_operation() {
    let mut arrow = Arrow::default();
    assert_eq!(
        arrow.add_function("(foo 1)"),
        Err(LispError::UnknownOperation)
    );
    assert_eq!(arrow.funcs.len(), 0);
}

#[test]
fn test_invalid_reduction() {
    let atom = LispType::Atom("x".to_string(), Box::new(LispType::Number(1)));
    assert!(matches!(
        atom.run(&mut vec![], &mut Host::new()),
        Err(LispError::InvalidReduction)
    ));
}

#[test]
fn test_unterminated_quote_is_syntax_error() {
    assert_eq!(ast("(print \"oops)"), Err(LispError::SyntaxError));
}

#[test]
fn test_node_without_name_is_syntax_error() {
    assert_eq!(ast("()"), Err(LispError::SyntaxError));
    assert_eq!(ast("((+ 1 2))"), Err(LispError::SyntaxError));
    assert_eq!(ast("stray"), Err(LispError::SyntaxError));
    assert_eq!(ast(")"), Err(LispError::SyntaxError));
}

#[test]
fn test_empty_input_parses_to_empty_forest() {
    assert_eq!(ast("").unwrap().len(), 0);
    assert_eq!(ast("  \t\n").unwrap().len(), 0);
}

#[test]
fn test_number_notation() {
    // A trailing point, or a point followed by zeros, still names the
    // integer; anything fractional stays a symbol.
    assert_eq!(
        LispType::new(&["12.".to_string()])
            .unwrap()
            .num(&vec![])
            .unwrap(),
        12
    );
    assert_eq!(
        LispType::new(&["12.00".to_string()])
            .unwrap()
            .num(&vec![])
            .unwrap(),
        12
    );
    assert_eq!(
        LispType::new(&["-4".to_string()])
            .unwrap()
            .num(&vec![])
            .unwrap(),
        -4
    );
    assert_eq!(
        LispType::new(&["2.5".to_string()])
            .unwrap()
            .to_string_from_symbol()
            .unwrap(),
        "2.5"
    );
    // One token at a time.
    assert!(matches!(
        LispType::new(&["1".to_string(), "2".to_string()]),
        Err(LispError::ArityError)
    ));
}

#[test]
fn test_number_rendering() {
    assert_eq!(
        LispType::Number(-3).to_string(&vec![]).unwrap(),
        "-3".to_string()
    );
    assert_eq!(
        LispType::Number(0).to_string(&vec![]).unwrap(),
        "0".to_string()
    );
    assert_eq!(
        LispType::Number(427).to_string(&vec![]).unwrap(),
        "427".to_string()
    );
}

#[test]
fn test_arithmetic_wraps() {
    let expr = Expression::create(
        "+",
        vec![LispType::Number(i64::MAX), LispType::Number(1)],
    )
    .unwrap();
    let r = expr.run(&mut vec![], &mut Host::new()).unwrap();
    assert_eq!(r.num(&vec![]).unwrap(), i64::MIN);
}

#[test]
fn test_subtract() {
    let mut host = Host::new();
    let r = run_source("(- 5 9)", &mut host).unwrap();
    assert_eq!(r.num(&vec![]).unwrap(), -4);
}

#[test]
fn test_equal_compares_text_rendering() {
    let mut host = Host::new();
    assert!(run_source("(equal 5 \"5\")", &mut host)
        .unwrap()
        .bool()
        .unwrap());
    assert!(!run_source("(equal 5 6)", &mut host).unwrap().bool().unwrap());
    assert!(run_source("(equal t \"t\")", &mut host)
        .unwrap()
        .bool()
        .unwrap());
}

#[test]
fn test_bool_coercion() {
    assert!(!LispType::Number(0).bool().unwrap());
    assert!(LispType::Number(1).bool().unwrap());
    assert_eq!(LispType::Number(2).bool(), Err(LispError::TypeMismatch));
    assert!(LispType::String("t".to_string()).bool().unwrap());
    assert!(!LispType::String("nil".to_string()).bool().unwrap());
    assert_eq!(
        LispType::String("x".to_string()).bool(),
        Err(LispError::TypeMismatch)
    );
}

#[test]
fn test_boolean_rendering() {
    let mut host = Host::new();
    assert_eq!(
        run_source("(concat t nil)", &mut host)
            .unwrap()
            .to_string(&vec![])
            .unwrap(),
        "tnil".to_string()
    );
}

#[test]
fn test_atom_rendering() {
    let atom = LispType::Atom("x".to_string(), Box::new(LispType::Number(1)));
    assert_eq!(atom.to_string(&vec![]).unwrap(), "( x 1 )".to_string());
}

#[test]
fn test_symbol_resolution_takes_first_match() {
    // Resolution scans from the earliest-pushed binding forward, so the
    // outermost binding wins over a later one reusing the name.
    let vars = vec![
        LispType::Atom("x".to_string(), Box::new(LispType::Number(1))),
        LispType::Atom("x".to_string(), Box::new(LispType::Number(2))),
    ];
    assert_eq!(LispType::Symbol("x".to_string()).num(&vars).unwrap(), 1);

    let mut host = Host::new();
    let r = run_source("(let 'x 1 (let 'x 2 (+ x 0)))", &mut host).unwrap();
    assert_eq!(r.num(&vec![]).unwrap(), 1);
}

#[test]
fn test_progn_runs_all_and_returns_last() {
    let mut host = Host::new();
    let r = run_source("(progn (print \"a\") (print \"b\") 3)", &mut host).unwrap();
    assert_eq!(r.num(&vec![]).unwrap(), 3);
    assert_eq!(host.printed, vec!["a".to_string(), "b".to_string()]);
}

#[test]
fn test_return_yields_operand() {
    let mut host = Host::new();
    let r = run_source("(return 5)", &mut host).unwrap();
    assert_eq!(r.num(&vec![]).unwrap(), 5);
}

#[test]
fn test_defun_without_candidate_is_no_match() {
    let mut host = Host::new();
    let r = run_source("(defun 'f 7)", &mut host).unwrap();
    assert!(!r.bool().unwrap());
}

#[test]
fn test_transport_connect() {
    let mut host = Host::new();
    let r = run_source("(actaeon-create \"remote.example\" \"chat\")", &mut host).unwrap();
    assert!(matches!(r, LispType::Actaeon(_)));
}

#[test]
fn test_transport_send_records_message() {
    let mut host = Host::new();
    let r = run_source(
        "(actaeon-send (actaeon-create \"r\" \"top\") \"ping\")",
        &mut host,
    )
    .unwrap();
    assert!(r.bool().unwrap());
    assert_eq!(host.sent, vec!["ping".to_string()]);
}

#[test]
fn test_transport_receive_takes_queued_message() {
    let mut host = Host::new();
    host.queue_message("pong".to_string());
    let r = run_source("(actaeon-receive (actaeon-create \"r\" \"top\"))", &mut host).unwrap();
    assert_eq!(r.to_string(&vec![]).unwrap(), "pong".to_string());
    assert_eq!(host.inbox.len(), 0);
}

#[test]
fn test_transport_receive_without_message_is_false() {
    let mut host = Host::new();
    let r = run_source("(actaeon-receive (actaeon-create \"r\" \"top\"))", &mut host).unwrap();
    assert!(!r.bool().unwrap());
}

#[test]
fn test_transport_send_needs_a_handle() {
    let mut host = Host::new();
    assert!(matches!(
        run_source("(actaeon-send 3 \"ping\")", &mut host),
        Err(LispError::TypeMismatch)
    ));
}

#[test]
fn test_handle_carries_connection_data() {
    let h = Actaeon::new("127.0.0.1", "remote.example", 4242, "chat");
    match h {
        LispType::Actaeon(a) => {
            assert_eq!(a.center, "127.0.0.1".to_string());
            assert_eq!(a.remote, "remote.example".to_string());
            assert_eq!(a.port, 4242);
            assert_eq!(a.topic, "chat".to_string());
        }
        _ => panic!("expected a transport handle"),
    }
}

#[test]
fn test_quoted_text_keeps_spaces_and_parens() {
    let mut host = Host::new();
    let r = run_source("(print \"a (b) c\")", &mut host).unwrap();
    assert!(!r.bool().unwrap());
    assert_eq!(host.printed, vec!["a (b) c".to_string()]);
}

#[test]
fn test_register_takes_first_form_only() {
    let forest = ast("(print 1) (print 2)").unwrap();
    assert_eq!(forest.len(), 2);

    let mut arrow = Arrow::default();
    arrow.add_function("(defun 'a 1) (defun 'b 2)").unwrap();
    assert_eq!(arrow.funcs.len(), 1);
    assert_eq!(arrow.run("a").unwrap().num(&vec![]).unwrap(), 1);
    // The second form was never registered.
    assert!(!arrow.run("b").unwrap().bool().unwrap());
}

#[test]
fn test_doc_example_calc() {
    let mut arrow = Arrow::default();
    arrow
        .add_function("(defun 'calc (+ 2 (* 2 3)))")
        .unwrap();
    assert_eq!(arrow.run("'calc").unwrap().num(&vec![]).unwrap(), 8);
    assert_eq!(arrow.run("calc").unwrap().num(&vec![]).unwrap(), 8);
}
