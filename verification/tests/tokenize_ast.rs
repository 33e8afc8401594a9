//! Tokenizing and parsing source text, and running what comes out.

use arrow::actaeon::Host;
use arrow::tokenize::{ast, create_lisptypes, ChildrenType, TokenContainer};

#[test]
fn test_create_lisptype() {
    let test = "(+ 2 3)";
    assert_eq!(
        create_lisptypes(ast(test).unwrap()).unwrap()[0]
            .run(&mut vec![], &mut Host::new())
            .unwrap()
            .num(&vec![])
            .unwrap(),
        5
    );
}

#[test]
fn test_create_lisptype_complex() {
    let test = "(+ (* 4 5) (* 3 (* 6 2)))";
    assert_eq!(
        create_lisptypes(ast(test).unwrap()).unwrap()[0]
            .run(&mut vec![], &mut Host::new())
            .unwrap()
            .num(&vec![])
            .unwrap(),
        56
    );
}

#[test]
fn test_create_ast_simple() {
    let test = "(mod 5 2)";
    let test_ast = TokenContainer {
        name: "mod".to_string(),
        children: vec![
            ChildrenType::Else("5".to_string()),
            ChildrenType::Else("2".to_string()),
        ],
    };
    assert_eq!(ast(test).unwrap()[0], test_ast);
}

#[test]
fn test_create_ast_complex() {
    let test = "(mod 5 (add 4 5))";
    let test_ast = TokenContainer {
        name: "mod".to_string(),
        children: vec![
            ChildrenType::Else("5".to_string()),
            ChildrenType::Container(TokenContainer {
                name: "add".to_string(),
                children: vec![
                    ChildrenType::Else("4".to_string()),
                    ChildrenType::Else("5".to_string()),
                ],
            }),
        ],
    };
    assert_eq!(ast(test).unwrap()[0], test_ast)
}
