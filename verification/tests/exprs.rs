use dnd_tracker::error::ActionError;
use dnd_tracker::expr::{Expr, Op};
use dnd_tracker::scope::Scope;
use dnd_tracker::value::Value;

#[test]
fn test_expr_results() {
    let mut scope = Scope::new();
    let r: Expr = "(5 + 2)".parse().unwrap();
    assert_eq!(r.eval(&mut scope), Ok(Value::Num(7)));

    let r: Expr = "(5 +2 *2)".parse().unwrap();
    assert_eq!(r.eval(&mut scope), Ok(Value::Num(9)));
}

#[test]
fn operators_have_their_ranks_and_spellings() {
    assert_eq!(Op::Dot.rank(), 0);
    assert_eq!(Op::Add.rank(), 10);
    assert_eq!(Op::Sub.rank(), 9);
    assert_eq!(Op::Mul.rank(), 8);
    assert_eq!(Op::Div.rank(), 7);
    assert_eq!(Op::Greater.rank(), 6);
    assert_eq!(Op::Less.rank(), 5);
    assert_eq!(Op::Equal.rank(), 4);
    assert_eq!(Op::Equal.to_str(), "==");
    assert_eq!(Op::parse("=="), Some(Op::Equal));
    assert_eq!(Op::parse("+"), Some(Op::Add));
    assert_eq!(Op::parse("%"), None);
}

#[test]
fn add_left_joins_by_rank() {
    let e: Expr = "2 * 3".parse().unwrap();
    let joined = e.add_left(Expr::Num(1), Op::Add);
    assert_eq!(
        joined,
        Expr::Oper(
            Op::Add,
            Box::new(Expr::Num(1)),
            Box::new(Expr::Oper(
                Op::Mul,
                Box::new(Expr::Num(2)),
                Box::new(Expr::Num(3))
            ))
        )
    );
    let e: Expr = "2 + 3".parse().unwrap();
    let joined = e.add_left(Expr::Num(1), Op::Mul);
    assert_eq!(
        joined,
        Expr::Oper(
            Op::Add,
            Box::new(Expr::Oper(
                Op::Mul,
                Box::new(Expr::Num(1)),
                Box::new(Expr::Num(2))
            )),
            Box::new(Expr::Num(3))
        )
    );
}

#[test]
fn expression_text_round_trips() {
    let e: Expr = "a.b + [1,2] - f(3,\"x\")".parse().unwrap();
    let text = e.print();
    let again: Expr = text.parse().unwrap();
    assert_eq!(e, again);
    assert_eq!(Expr::neg(Expr::Num(4)).print(), "-4");
}

#[test]
fn division_by_zero_is_an_error() {
    let mut scope = Scope::new();
    let r: Expr = "7 / 0".parse().unwrap();
    assert_eq!(
        r.eval(&mut scope),
        Err(ActionError::new("Can't div by zero"))
    );
    let r: Expr = "-7 / 2".parse().unwrap();
    assert_eq!(r.eval(&mut scope), Ok(Value::Num(-3)));
}
