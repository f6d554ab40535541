use dnd_tracker::action::{AcReturn, Action};
use dnd_tracker::api_funcs::{
    d, die_face, fold, for_each, if_expr, link, link_values, load, roll, run_api_expr,
    run_api_func,
};
use dnd_tracker::error::{ActionError, LineError};
use dnd_tracker::expr::{Expr, Op};
use dnd_tracker::parse::parse;
use dnd_tracker::proto::{Proto, ProtoNode};
use dnd_tracker::scope::Scope;
use dnd_tracker::value::Value;

fn body(text: &str) -> Vec<Action> {
    parse(text).unwrap()
}

#[test]
fn built_in_functions_run_by_name() {
    let mut sc = Scope::new();
    let r = run_api_func("if", &mut sc, vec![Value::Bool(true), Value::Num(1), Value::Num(2)]);
    assert_eq!(r, Ok(Ok(Value::Num(1))));
    let r = run_api_func("nothing", &mut sc, vec![Value::Num(1)]);
    assert_eq!(r, Err(vec![Value::Num(1)]));
    let r = run_api_func("link", &mut sc, vec![Value::Num(1)]);
    assert_eq!(r, Ok(Err(ActionError::new("can only link on protos"))));
    let h = sc.push_mem(Value::Num(4));
    let r = run_api_func("link", &mut sc, vec![Value::Ref(h.clone_weak()), Value::Num(1)]);
    assert_eq!(r, Ok(Ok(Value::Ref(h.clone_weak()))));
    let r = run_api_func("Link", &mut sc, vec![Value::Num(1)]);
    assert_eq!(r, Err(vec![Value::Num(1)]));
    for name in ["d", "foreach", "fold", "load", "if", "link"] {
        assert!(run_api_func(name, &mut sc, vec![]).is_ok());
    }
    let r = run_api_expr("load", &mut sc, vec![Value::str("a.dnd")]);
    assert_eq!(r, Ok(Ok(Value::Null)));
    assert_eq!(sc.bases.len(), 1);
    let loads = sc.take_loads();
    assert_eq!(loads.len(), 1);
    assert_eq!(loads[0].name, "a.dnd");
    assert_eq!(loads[0].target, None);
}

#[test]
fn built_in_functions_run_directly() {
    let mut sc = Scope::new();
    assert_eq!(
        if_expr(&mut sc, vec![Value::Num(0), Value::Num(1), Value::Num(2)]),
        Ok(Value::Num(2))
    );
    assert_eq!(load(&mut sc, vec![]), Err(ActionError::new("load needs a file name")));
    assert_eq!(
        link(&mut sc, &Proto::one("nobody")),
        Err(ActionError::new("can only link on protos"))
    );
    sc.set(&Proto::one("x"), Value::Num(3)).unwrap();
    match link(&mut sc, &Proto::one("x")) {
        Ok(Value::Ref(h)) => {
            assert!(h.strong);
            assert_eq!(sc.gm.get(&h), Some(&Value::Num(3)));
            assert_eq!(sc.gm.count(&h), Some(2));
        }
        other => panic!("unexpected {:?}", other),
    }
    sc.rolls = vec![7, 9];
    let r = d(&mut sc, vec![Value::Num(1), Value::Num(1)]);
    assert_eq!(r, Ok(Value::Num(2)));
    assert!(sc.rolls.is_empty());
    assert_eq!(
        roll(&mut sc, vec![Value::Num(6)]),
        Err(ActionError::new("no dice at hand"))
    );
    // called by itself, the function draws what is missing
    let mut fresh = Scope::new();
    match d(&mut fresh, vec![Value::Num(6), Value::Num(6)]) {
        Ok(Value::Num(n)) => assert!(2 <= n && n <= 12),
        other => panic!("unexpected {:?}", other),
    }
    assert!(fresh.rolls.is_empty());
    // the last number drawn is rolled first: 10 % 6 + 1, then 3 % 4 + 1
    sc.rolls = vec![99, 3, 10];
    assert_eq!(d(&mut sc, vec![Value::Num(6), Value::Num(4)]), Ok(Value::Num(5 + 4)));
    assert_eq!(sc.rolls, vec![99]);
    assert_eq!(die_face(u64::MAX, 20), (u64::MAX % 20) as isize + 1);
    assert_eq!(die_face(0, 1), 1);
    assert_eq!(
        d(&mut sc, vec![Value::str("six")]),
        Err(ActionError::new("d needs num sides"))
    );
}

#[test]
fn fold_and_for_each_take_values() {
    let mut sc = Scope::new();
    let func = Value::FuncDef(vec!["v".to_string()], body("fold + v"));
    assert_eq!(
        fold(&mut sc, vec![Value::Num(10), Value::Num(4), func]),
        Ok(Value::Num(16))
    );
    let func = Value::FuncDef(vec![], body("k"));
    assert_eq!(for_each(&mut sc, vec![Value::Num(3), func]), Ok(Value::Num(2)));
    assert_eq!(
        for_each(&mut sc, vec![Value::Num(3)]),
        Err(ActionError::new("FoldEach requires at least 2 params"))
    );
    assert_eq!(
        fold(&mut sc, vec![Value::Num(3)]),
        Err(ActionError::new(
            "Fold requires 3 params : foldvar,iterble,func"
        ))
    );
    assert_eq!(
        for_each(&mut sc, vec![Value::Num(3), Value::Num(1)]),
        Err(ActionError::new("foreach needs a function"))
    );
    let func = Value::FuncDef(vec![], body("k"));
    assert_eq!(
        for_each(&mut sc, vec![Value::str("abc"), func]),
        Err(ActionError::new("Must be list for iterator right now"))
    );
    let func = Value::FuncDef(vec!["v".to_string()], body("v"));
    assert_eq!(sc.for_each(Value::Num(0), None, func), Ok(Value::Null));
    let func = Value::FuncDef(vec!["v".to_string()], body("v"));
    assert_eq!(
        sc.for_each(Value::Num(0), Some(Value::Num(9)), func),
        Ok(Value::Num(9))
    );
    assert_eq!(sc.bases.len(), 1);
}

#[test]
fn scope_runs_blocks_functions_and_expressions() {
    let mut sc = Scope::new();
    sc.set(&Proto::one("x"), Value::Num(1)).unwrap();
    let r = sc.on_wrap(&body("x = 5; x")).unwrap();
    assert_eq!(r.0, AcReturn::No);
    assert_eq!(r.1, Value::Num(5));
    assert_eq!(sc.get(&Proto::one("x")), Some(&Value::Num(1)));
    let r = sc.do_actions(&body("y = 2; return :y + 1; y = 9")).unwrap();
    assert_eq!(r.0, AcReturn::Func);
    assert_eq!(r.1, Value::Num(3));
    assert_eq!(sc.get(&Proto::one("y")), Some(&Value::Num(2)));
    let r = sc.do_actions(&body("y = 3")).unwrap();
    assert_eq!(r.0, AcReturn::No);
    assert_eq!(r.1, Value::Null);
    let r = sc.run_func(
        &vec!["a".to_string(), "b".to_string()],
        &body("return a * b"),
        vec![Value::Num(6), Value::Num(7)],
    );
    assert_eq!(r, Ok(Value::Num(42)));
    let e: Expr = "x + 1".parse().unwrap();
    assert_eq!(
        sc.call_expr(&e),
        Err(ActionError::new("Nothing at path"))
    );
    let e: Expr = ":x + 1".parse().unwrap();
    assert_eq!(sc.call_expr(&e), Ok(Value::Num(2)));
    assert_eq!(sc.bases.len(), 1);
    assert_eq!(sc.do_action(&Action::NoOp), Ok(Value::Null));
    assert_eq!(
        sc.do_action(&Action::RemItem(2, "gold".to_string())),
        Ok(Value::Null)
    );
    assert_eq!(sc.get(&Proto::one("gold")), Some(&Value::Num(-2)));
}

#[test]
fn expressions_evaluate_as_paths_and_statements() {
    let mut sc = Scope::new();
    let e: Expr = "a.(\"b\" + \"c\").3".parse().unwrap();
    let p = e.eval_path(&mut sc).unwrap();
    assert_eq!(
        p.v,
        vec![ProtoNode::str("a"), ProtoNode::str("bc"), ProtoNode::Num(3)]
    );
    let e: Expr = "$.x".parse().unwrap();
    let p = e.eval_path(&mut sc).unwrap();
    assert_eq!((p.dots, p.derefs, p.root), (1, 1, false));
    let e: Expr = ":x".parse().unwrap();
    assert!(e.eval_path(&mut sc).unwrap().root);
    let e: Expr = "a.[1]".parse().unwrap();
    assert_eq!(
        e.eval_path(&mut sc),
        Err(ActionError::new("Could not treat as proto"))
    );
    let e: Expr = "if true { return 4 } else { 5 }".parse().unwrap();
    let r = e.eval_action(&mut sc).unwrap();
    assert_eq!((r.0, r.1), (AcReturn::Func, Value::Num(4)));
    let e: Expr = "1 + 1".parse().unwrap();
    let r = e.eval_action(&mut sc).unwrap();
    assert_eq!((r.0, r.1), (AcReturn::No, Value::Num(2)));
    assert_eq!(
        Op::Mul.eval(&Expr::Num(3), &Expr::Num(4), &mut sc),
        Ok(Value::Num(12))
    );
    assert_eq!(
        Op::Dot.eval(&Expr::Num(3), &Expr::Num(4), &mut sc),
        Err(ActionError::new("Could not appy .= operation"))
    );
}

#[test]
fn scope_hands_out_its_arena() {
    let mut sc = Scope::new();
    let h = sc.push_mem(Value::Num(4));
    assert_eq!(sc.gm_mut().get(&h), Some(&Value::Num(4)));
    let root = sc.select_base(&Proto::new()).unwrap().clone_weak();
    let p = Proto::one("a").extend_new(Proto::one("b").pp());
    sc.set_from(root.clone_weak(), p.pp(), Value::Num(8)).unwrap();
    assert_eq!(sc.get(&p), Some(&Value::Num(8)));
    let (found, v) = sc.get_from(&root, p.pp()).unwrap();
    assert_eq!(v, &Value::Num(8));
    assert_eq!(sc.get_ref(&p), Some(found));
    let mut m = Value::map();
    let made = sc.get_or_make_child(&mut m, &ProtoNode::str("k")).unwrap();
    assert!(made.strong);
    assert_eq!(sc.gm.get(&made), Some(&Value::map()));
    let probe = made.clone_weak();
    m.give_child(ProtoNode::str("k"), made).unwrap();
    assert_eq!(sc.get_or_make_child(&mut m, &ProtoNode::str("k")), Ok(probe));
    assert!(sc.get_or_make_child(&mut Value::Null, &ProtoNode::str("k")).is_err());
}

#[test]
fn selections_replace_one_another() {
    let mut sc = Scope::new();
    sc.run_text("a = {n: 1}; b = {n: 2}").unwrap();
    sc.colon_select(&Proto::one("a")).unwrap();
    assert_eq!(sc.bases.len(), 2);
    assert_eq!(sc.get(&Proto::one("n").dot()), Some(&Value::Num(1)));
    sc.colon_select(&Proto::one("b")).unwrap();
    assert_eq!(sc.bases.len(), 2);
    assert_eq!(sc.get(&Proto::one("n").dot()), Some(&Value::Num(2)));
    assert_eq!(
        sc.select(&Proto::one("c")),
        Err(ActionError::new("Could not set path to non path"))
    );
    assert_eq!(sc.get(&Proto::one("c").rooted()), None);
    assert_eq!(sc.get(&Proto::one("n").rooted()), None);
    assert_eq!(sc.get(&Proto::one("a").rooted()).is_some(), true);
}

#[test]
fn line_errors_keep_their_parts() {
    let e = LineError::new("bad", 3).set_line(5);
    assert_eq!(e.line, 5);
    assert_eq!(e.mess, "bad");
    assert!(!e.eof);
    assert_eq!(e.to_text(), "Parse Error: line 5 :bad");
    let e = LineError::eof(2);
    assert!(e.eof);
    assert_eq!(e.mess, "UX - EOF");
    assert_eq!(ActionError::new("x").to_text(), "Action Error: x");
    assert_eq!(ActionError::new("x").message(), "x");
    assert_eq!(ActionError::ParseErr(LineError::new("m", 1)).to_text(), "Parse Error: line 1 :m");
}

#[test]
fn load_takes_a_target_that_is_an_indirection() {
    let mut sc = Scope::new();
    assert_eq!(
        load(&mut sc, vec![Value::str("a.dnd"), Value::Num(3)]),
        Err(ActionError::new("target should be proto"))
    );
    assert!(sc.loads.is_empty());
    assert_eq!(
        load(&mut sc, vec![Value::Num(3), Value::Num(3)]),
        Err(ActionError::new("filename should be string"))
    );
    assert!(sc.loads.is_empty());
    sc.run_text("hero = {hp: 1}").unwrap();
    let h = sc.get_ref(&Proto::one("hero")).unwrap();
    let target = Value::Ref(h.upgrade(&mut sc.gm).unwrap());
    assert_eq!(load(&mut sc, vec![Value::str("a.dnd"), target]), Ok(Value::Null));
    let loads = sc.take_loads();
    assert_eq!(loads.len(), 1);
    assert_eq!(loads[0].name, "a.dnd");
    assert_eq!(loads[0].target, Some(h.clone_weak()));
    // the statements of the file run in the target
    sc.enter(&h);
    sc.run_text("hp = 12; mp = 3").unwrap();
    sc.pop_frame();
    assert_eq!(sc.bases.len(), 1);
    assert_eq!(sc.run_text("hero.hp + hero.mp").unwrap(), vec!["15".to_string()]);
    assert_eq!(
        link_values(&mut sc, vec![Value::Num(1)]),
        Err(ActionError::new("can only link on protos"))
    );
}

#[test]
fn a_run_stops_behind_the_statement_that_asks_for_a_file() {
    let mut sc = Scope::new();
    let acts = parse("x = 1; x; load(\"a.dnd\"); x = 2; load(\"b.dnd\", link(x)); x").unwrap();
    let (lines, next) = sc.run_until_load(&acts, 0);
    assert_eq!(lines, vec!["1".to_string()]);
    assert_eq!(next, 3);
    assert_eq!(sc.take_loads()[0].name, "a.dnd");
    let (lines, next) = sc.run_until_load(&acts, next);
    assert!(lines.is_empty());
    assert_eq!(next, 5);
    let loads = sc.take_loads();
    assert_eq!(loads[0].name, "b.dnd");
    assert!(loads[0].target.is_some());
    let (lines, next) = sc.run_until_load(&acts, next);
    assert_eq!(lines, vec!["2".to_string()]);
    assert_eq!(next, 6);
    let (lines, next) = sc.run_until_load(&acts, 9);
    assert!(lines.is_empty());
    assert_eq!(next, 9);
}

#[test]
fn selecting_an_absent_path_makes_a_map_there() {
    let mut sc = Scope::new();
    let p = Proto::one("hero");
    assert_eq!(sc.colon_select(&p), Ok(Value::Null));
    assert_eq!(sc.get(&p), Some(&Value::map()));
    assert_eq!(sc.bases.len(), 2);
    sc.set(&Proto::one("hp").dot(), Value::Num(10)).unwrap();
    let hp = p.extend_new(Proto::one("hp").pp());
    assert_eq!(sc.get(&hp), Some(&Value::Num(10)));
    // a path that cannot be written to is not selected
    sc.set(&Proto::one("n"), Value::Num(1)).unwrap();
    let deep = Proto::one("n").extend_new(Proto::one("x").extend_new(Proto::one("y").pp()).pp());
    assert_eq!(
        sc.colon_select(&deep),
        Err(ActionError::new("Could not give Child"))
    );
    assert_eq!(sc.bases.len(), 2);
    // a written value is selected by the statement that writes it
    assert!(sc.run_text("pet = {legs: 4}:").unwrap().is_empty());
    assert_eq!(sc.run_text(".legs").unwrap(), vec!["4".to_string()]);
}
