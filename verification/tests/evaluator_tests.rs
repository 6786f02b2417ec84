use steel::ast::{Expr, Token};
use steel::env::Env;
use steel::evaluator::{check_length, eval_make_lambda, parse_list_of_identifiers};

fn ident(s: &str) -> Expr {
    Expr::Atom(Token::Identifier(s.to_string()))
}

#[test]
fn length_test() {
    let tokens = vec![
        Expr::Atom(Token::IntegerLiteral(1)),
        Expr::Atom(Token::IntegerLiteral(2)),
    ];
    assert!(check_length("Test", &tokens, 2).is_ok());
}

#[test]
fn mismatch_test() {
    let tokens = vec![
        Expr::Atom(Token::IntegerLiteral(1)),
        Expr::Atom(Token::IntegerLiteral(2)),
    ];
    assert!(check_length("Test", &tokens, 1).is_err());
}

#[test]
fn non_symbols_test() {
    let identifier = Expr::VectorVal(vec![
        Expr::Atom(Token::IntegerLiteral(1)),
        Expr::Atom(Token::IntegerLiteral(2)),
    ]);

    let res = parse_list_of_identifiers(&identifier);

    assert!(res.is_err());
}

#[test]
fn symbols_test() {
    let identifier = Expr::VectorVal(vec![ident("a"), ident("b")]);

    let res = parse_list_of_identifiers(&identifier);

    assert_eq!(res.unwrap(), vec!["a".to_string(), "b".to_string()]);
}

#[test]
fn malformed_test() {
    let identifier = ident("a");

    let res = parse_list_of_identifiers(&identifier);

    assert!(res.is_err());
}

#[test]
fn not_enough_args_test() {
    let list = vec![ident("a")];
    let default_env = Env::default_env();
    let res = eval_make_lambda(&list, &default_env, 0, 1000);
    assert!(res.is_err());
}

#[test]
fn not_list_val_test() {
    let list = vec![ident("a"), ident("b"), ident("c")];
    let default_env = Env::default_env();
    let res = eval_make_lambda(&list[1..], &default_env, 0, 1000);
    assert!(res.is_err());
}

#[test]
fn ok_test() {
    let list = vec![
        ident("a"),
        Expr::VectorVal(vec![ident("b")]),
        ident("c"),
    ];
    let default_env = Env::default_env();
    let res = eval_make_lambda(&list[1..], &default_env, 0, 1000);
    assert!(res.is_ok());
}
