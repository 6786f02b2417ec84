use steel::ast::{Expr, Token};
use steel::rewriter::FlattenBegin;

fn ident(s: &str) -> Expr {
    Expr::Atom(Token::Identifier(s.to_string()))
}

fn num(n: i64) -> Expr {
    Expr::Atom(Token::IntegerLiteral(n))
}

fn expr_eq(a: &Expr, b: &Expr) -> bool {
    match (a, b) {
        (Expr::Atom(Token::Identifier(x)), Expr::Atom(Token::Identifier(y))) => x == y,
        (Expr::Atom(Token::BooleanLiteral(x)), Expr::Atom(Token::BooleanLiteral(y))) => x == y,
        (Expr::Atom(Token::IntegerLiteral(x)), Expr::Atom(Token::IntegerLiteral(y))) => x == y,
        (Expr::Atom(Token::CharacterLiteral(x)), Expr::Atom(Token::CharacterLiteral(y))) => x == y,
        (Expr::Atom(Token::StringLiteral(x)), Expr::Atom(Token::StringLiteral(y))) => x == y,
        (Expr::VectorVal(xs), Expr::VectorVal(ys)) => {
            xs.len() == ys.len() && xs.iter().zip(ys.iter()).all(|(x, y)| expr_eq(x, y))
        }
        _ => false,
    }
}

#[test]
fn basic_flatten_one_level() {
    let expr = Expr::VectorVal(vec![
        ident("begin"),
        Expr::VectorVal(vec![
            ident("begin"),
            Expr::VectorVal(vec![ident("+"), ident("x"), num(10)]),
        ]),
        Expr::VectorVal(vec![ident("+"), ident("y"), num(20)]),
        Expr::VectorVal(vec![ident("+"), ident("z"), num(30)]),
    ]);

    let expected = Expr::VectorVal(vec![
        ident("begin"),
        Expr::VectorVal(vec![ident("+"), ident("x"), num(10)]),
        Expr::VectorVal(vec![ident("+"), ident("y"), num(20)]),
        Expr::VectorVal(vec![ident("+"), ident("z"), num(30)]),
    ]);

    assert!(expr_eq(&FlattenBegin::flatten(&expr), &expected));
}

#[test]
fn basic_flatten_multiple_levels() {
    let expr = Expr::VectorVal(vec![
        ident("begin"),
        Expr::VectorVal(vec![
            ident("begin"),
            Expr::VectorVal(vec![ident("+"), ident("x"), num(10)]),
        ]),
        Expr::VectorVal(vec![
            ident("begin"),
            Expr::VectorVal(vec![ident("+"), ident("y"), num(20)]),
        ]),
        Expr::VectorVal(vec![
            ident("begin"),
            Expr::VectorVal(vec![ident("+"), ident("z"), num(30)]),
        ]),
    ]);

    let expected = Expr::VectorVal(vec![
        ident("begin"),
        Expr::VectorVal(vec![ident("+"), ident("x"), num(10)]),
        Expr::VectorVal(vec![ident("+"), ident("y"), num(20)]),
        Expr::VectorVal(vec![ident("+"), ident("z"), num(30)]),
    ]);

    assert!(expr_eq(&FlattenBegin::flatten(&expr), &expected));
}

#[test]
fn flatten_is_idempotent_on_deep_nesting() {
    let expr = Expr::VectorVal(vec![
        ident("begin"),
        Expr::VectorVal(vec![
            ident("begin"),
            Expr::VectorVal(vec![ident("begin"), num(1)]),
            num(2),
        ]),
        num(3),
    ]);
    let once = FlattenBegin::flatten(&expr);
    let twice = FlattenBegin::flatten(&once);
    assert!(expr_eq(&once, &twice));
    let expected = Expr::VectorVal(vec![ident("begin"), num(1), num(2), num(3)]);
    assert!(expr_eq(&once, &expected));
}

#[test]
fn flatten_leaves_quoted_data_alone() {
    let expr = Expr::VectorVal(vec![
        ident("quote"),
        Expr::VectorVal(vec![ident("begin"), Expr::VectorVal(vec![ident("begin"), num(1)])]),
    ]);
    let once = FlattenBegin::flatten(&expr);
    assert!(expr_eq(&once, &expr));
}
