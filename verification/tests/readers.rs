use dnd_tracker::action::Action;
use dnd_tracker::expr::{Expr, Op};
use dnd_tracker::nomp::{l_break, p_expr, pp_action, MAX_NEST};
use dnd_tracker::parse::{file_worthy, parse, tokenize, ActionReader};
use dnd_tracker::prev_iter::{Backer, LineCounter, Prev, TokPrev};
use dnd_tracker::token::Token;
use dnd_tracker::value::Value;

#[test]
fn stepping_back_returns_the_last_token_again() {
    let mut tp = TokPrev::new("a + 1\nb");
    assert_eq!(tp.next(), Some(Token::Ident("a".to_string())));
    tp.back();
    assert_eq!(tp.next(), Some(Token::Ident("a".to_string())));
    assert_eq!(tp.next(), Some(Token::Add));
    assert_eq!(tp.line(), 0);
    tp.read_to_break();
    assert_eq!(tp.line(), 1);
    assert_eq!(tp.next(), Some(Token::Ident("b".to_string())));
    assert_eq!(tp.next(), None);
    tp.back();
    assert_eq!(tp.next(), None);
    let e = tp.err("bad");
    assert_eq!(e.line, 1);
    assert!(!e.eof);
    assert!(tp.eof().eof);
}

#[test]
fn generic_reader_steps_back_over_any_iterator() {
    let mut p = Prev::new(vec![1, 2, 3].into_iter());
    assert_eq!(p.next(), Some(1));
    assert_eq!(p.next(), Some(2));
    p.back();
    assert_eq!(p.next(), Some(2));
    assert_eq!(p.next(), Some(3));
    assert_eq!(p.next(), None);
    p.back();
    assert_eq!(p.next(), None);
}

#[test]
fn comments_make_no_tokens() {
    let l = tokenize("a = 1 # set \"a\nb");
    assert_eq!(
        l.toks,
        vec![
            Token::Ident("a".to_string()),
            Token::Equals,
            Token::Num(1),
            Token::Break,
            Token::Ident("b".to_string())
        ]
    );
    assert_eq!(l.lines, vec![0, 0, 0, 0, 1]);
}

#[test]
fn reader_goes_on_after_text_that_spells_no_statement() {
    let mut rd = ActionReader::new("x = 1\n) oops (\ny");
    let first = rd.next().unwrap().unwrap();
    assert_eq!(first.line, 0);
    assert_eq!(first.action, Action::Assign(Expr::Ident("x".to_string()), Expr::Num(1)));
    let second = rd.next().unwrap();
    match second {
        Err(e) => {
            assert_eq!(e.line, 1);
            assert!(!e.eof);
        }
        Ok(a) => panic!("unexpected {:?}", a),
    }
    let third = rd.next().unwrap().unwrap();
    assert_eq!(third.line, 2);
    assert_eq!(third.action, Action::Resolve(Expr::Ident("y".to_string())));
    assert!(rd.next().is_none());
    let la = rd.line_acc(Action::NoOp);
    assert_eq!(la.line, 2);
}

#[test]
fn grammar_functions_work_on_tokens() {
    let l = tokenize("a.b(1, x) + 2 ; :g.f() + $c");
    let (e, p) = p_expr(&l.toks, 0, MAX_NEST).unwrap();
    assert_eq!(
        e,
        Expr::Oper(
            Op::Add,
            Box::new(Expr::Call(
                Box::new(Expr::Oper(
                    Op::Dot,
                    Box::new(Expr::Ident("a".to_string())),
                    Box::new(Expr::Ident("b".to_string()))
                )),
                vec![Expr::Num(1), Expr::Ident("x".to_string())]
            )),
            Box::new(Expr::Num(2))
        )
    );
    assert!(l_break(&l.toks, p, false));
    assert!(!l_break(&l.toks, 0, false));
    let (a, q) = pp_action(&l.toks, p + 1, MAX_NEST).unwrap();
    assert_eq!(q, l.toks.len());
    assert_eq!(
        a,
        Action::Resolve(Expr::Oper(
            Op::Add,
            Box::new(Expr::Call(
                Box::new(Expr::Rooted(Box::new(Expr::Oper(
                    Op::Dot,
                    Box::new(Expr::Ident("g".to_string())),
                    Box::new(Expr::Ident("f".to_string()))
                )))),
                vec![]
            )),
            Box::new(Expr::Deref(Box::new(Expr::Ident("c".to_string()))))
        ))
    );
}

#[test]
fn only_statements_that_change_the_document_are_kept() {
    assert!(file_worthy(&parse("x = 1").unwrap()));
    assert!(file_worthy(&parse("hero:").unwrap()));
    assert!(file_worthy(&parse("x; +2 gold").unwrap()));
    assert!(!file_worthy(&parse("x").unwrap()));
    assert!(!file_worthy(&parse("x; return 2").unwrap()));
    assert!(!file_worthy(&parse("").unwrap()));
}

#[test]
fn numbers_compare_and_nothing_else_does() {
    assert!(Value::Num(1) < Value::Num(2));
    assert!(Value::Num(2) > Value::Num(1));
    assert!(Value::Num(2) <= Value::Num(2));
    assert_eq!(Value::str("a").partial_cmp(&Value::str("b")), None);
    assert_eq!(Value::Num(1).partial_cmp(&Value::Null), None);
    assert_eq!(Value::from(7usize), Value::Num(7));
    assert_eq!(Value::from(usize::MAX), Value::Num(isize::MAX));
}

#[test]
fn nesting_beyond_the_limit_is_an_error_and_no_crash() {
    let deep = format!("{}1{}", "(".repeat(5000), ")".repeat(5000));
    assert!(parse(&deep).is_err());
    let minus = format!("x = {}1", "-".repeat(5000));
    assert!(parse(&minus).is_err());
    let chain = format!("x = 1{}", " + 1".repeat(5000));
    assert!(parse(&chain).is_err());
    let fine = format!("{}1{}", "(".repeat(50), ")".repeat(50));
    assert_eq!(parse(&fine).unwrap().len(), 1);
    let chain = format!("x = 1{}", " + 1".repeat(100));
    assert_eq!(parse(&chain).unwrap().len(), 1);
    let l = tokenize("((1))");
    assert!(p_expr(&l.toks, 0, 2).is_none());
    assert!(p_expr(&l.toks, 0, 6).is_some());
}

#[test]
fn long_sequences_are_read_without_nesting() {
    let list = format!("x = [{}]", vec!["1"; 20000].join(","));
    let acts = parse(&list).unwrap();
    assert_eq!(acts.len(), 1);
    let lines = format!("f = func(){{ {} }}", vec!["a = 1"; 20000].join(";"));
    assert_eq!(parse(&lines).unwrap().len(), 1);
    let many = vec!["a = 1"; 20000].join("\n");
    assert_eq!(parse(&many).unwrap().len(), 20000);
}
