use dnd_tracker::action::Action;
use dnd_tracker::error::ActionError;
use dnd_tracker::expr::Expr;
use dnd_tracker::machine::action_in;
use dnd_tracker::parse::parse;
use dnd_tracker::proto::Proto;
use dnd_tracker::scope::Scope;
use dnd_tracker::semantics::MAX_DEPTH;
use dnd_tracker::value::Value;

fn show(sc: &mut Scope, text: &str) -> Vec<String> {
    sc.run_text(text).unwrap()
}

#[test]
fn select_then_relative_writes_reach_the_selection() {
    let mut sc = Scope::new();
    assert!(show(&mut sc, "hero:").is_empty());
    assert!(show(&mut sc, ".hp = 10").is_empty());
    assert!(show(&mut sc, ".hp += 5").is_empty());
    assert_eq!(show(&mut sc, "hero.hp"), vec!["15".to_string()]);
    assert_eq!(sc.get(&Proto::one("hp")), None);
}

#[test]
fn subtracting_a_scalar_takes_it_out_of_a_list() {
    let mut sc = Scope::new();
    show(&mut sc, "items = [\"sword\",\"shield\"]");
    show(&mut sc, "items -= \"shield\"");
    assert_eq!(show(&mut sc, "items"), vec!["[\"sword\"]".to_string()]);
}

#[test]
fn fold_adds_up_a_list() {
    let mut sc = Scope::new();
    assert_eq!(
        show(&mut sc, "fold(0, [1,2,3], func(v){ fold + v })"),
        vec!["6".to_string()]
    );
}

#[test]
fn fold_with_key_and_value() {
    let mut sc = Scope::new();
    assert_eq!(
        show(&mut sc, "fold(0, [10,20,30], func(k, v){ fold + k * v })"),
        vec!["80".to_string()]
    );
    assert_eq!(
        show(&mut sc, "fold(1, 4, func(){ fold * (v + 1) })"),
        vec!["24".to_string()]
    );
}

#[test]
fn foreach_without_result_shows_nothing() {
    let mut sc = Scope::new();
    show(&mut sc, "total = 0");
    assert!(show(&mut sc, "foreach([1,2], func(v){ :total += v })").is_empty());
    assert_eq!(show(&mut sc, "total"), vec!["3".to_string()]);
}

#[test]
fn deref_of_an_undefined_name_fails() {
    let mut sc = Scope::new();
    assert_eq!(
        show(&mut sc, "x = $y"),
        vec!["Error Action Error: deref to nothing".to_string()]
    );
    assert_eq!(
        show(&mut sc, "$x"),
        vec!["Error Action Error: deref to nothing".to_string()]
    );
    assert_eq!(
        show(&mut sc, "x"),
        vec!["Error Action Error: Nothing at path".to_string()]
    );
}

#[test]
fn function_writes_stay_in_its_frame() {
    let mut sc = Scope::new();
    show(&mut sc, "x = 5");
    show(&mut sc, "f = func(x){ x = x + 1; return x }");
    assert_eq!(show(&mut sc, "f(1)"), vec!["2".to_string()]);
    assert_eq!(show(&mut sc, "x"), vec!["5".to_string()]);
    assert_eq!(sc.bases.len(), 1);
}

#[test]
fn extra_arguments_are_ignored_and_missing_ones_unbound() {
    let mut sc = Scope::new();
    show(&mut sc, "f = func(a, b){ return a }");
    assert_eq!(show(&mut sc, "f(1, 2, 3)"), vec!["1".to_string()]);
    show(&mut sc, "g = func(a, b){ return b }");
    assert_eq!(
        show(&mut sc, "g(1)"),
        vec!["Error Action Error: Nothing at path".to_string()]
    );
}

#[test]
fn calling_what_is_no_function_fails() {
    let mut sc = Scope::new();
    show(&mut sc, "n = 3");
    assert_eq!(
        show(&mut sc, "n(1)"),
        vec!["Error Action Error: not a function".to_string()]
    );
}

#[test]
fn stored_expression_is_evaluated_on_call() {
    let mut sc = Scope::new();
    show(&mut sc, "e = expr(2 * 21)");
    assert_eq!(show(&mut sc, "e()"), vec!["42".to_string()]);
}

#[test]
fn endless_recursion_is_cut_off() {
    let mut sc = Scope::new();
    show(&mut sc, "f = func(){ return :f() }");
    assert_eq!(
        show(&mut sc, "f()"),
        vec!["Error Action Error: recursion too deep".to_string()]
    );
    assert_eq!(sc.bases.len(), 1);
}

#[test]
fn conditions_run_one_block() {
    let mut sc = Scope::new();
    assert_eq!(
        show(&mut sc, "if 2 > 1 { \"yes\" } else { \"no\" }"),
        vec!["\"yes\"".to_string()]
    );
    assert_eq!(
        show(&mut sc, "if 2 < 1 { \"yes\" } else { \"no\" }"),
        vec!["\"no\"".to_string()]
    );
    assert_eq!(
        show(&mut sc, "if 3 { 1 }"),
        vec!["Error Action Error: If only works on bool expr".to_string()]
    );
    assert_eq!(show(&mut sc, "if(3, \"a\", \"b\")"), vec!["\"a\"".to_string()]);
    assert_eq!(show(&mut sc, "if(false, \"a\", \"b\")"), vec!["\"b\"".to_string()]);
    assert_eq!(
        show(&mut sc, "if(true, 1)"),
        vec!["Error Action Error: if requires 3 params".to_string()]
    );
}

#[test]
fn comparing_other_than_numbers_fails() {
    let mut sc = Scope::new();
    assert_eq!(
        show(&mut sc, "\"a\" < 3"),
        vec!["Error Action Error: Cannot compare Str and Num".to_string()]
    );
    assert_eq!(show(&mut sc, "\"a\" == \"a\""), vec!["true".to_string()]);
    assert_eq!(show(&mut sc, "\"a\" == 3"), vec!["false".to_string()]);
    assert_eq!(show(&mut sc, "1 + true"), vec![
        "Error Action Error: Cannot add Num and Bool".to_string()
    ]);
}

#[test]
fn subtracting_from_nothing_sets_the_negation() {
    let mut sc = Scope::new();
    show(&mut sc, "gold -= 5");
    assert_eq!(show(&mut sc, "gold"), vec!["-5".to_string()]);
    show(&mut sc, "silver += 7");
    assert_eq!(show(&mut sc, "silver"), vec!["7".to_string()]);
}

#[test]
fn counters_are_made_and_changed() {
    let mut sc = Scope::new();
    show(&mut sc, "+3 arrows");
    show(&mut sc, "-arrows");
    show(&mut sc, "+ arrows");
    show(&mut sc, "- 2 arrows");
    assert_eq!(show(&mut sc, "arrows"), vec!["1".to_string()]);
    show(&mut sc, "name = \"bob\"");
    assert_eq!(
        show(&mut sc, "+name"),
        vec!["Error Action Error: Can only add to number values".to_string()]
    );
}

#[test]
fn link_makes_an_alias_that_reads_follow() {
    let mut sc = Scope::new();
    show(&mut sc, "hero = {hp: 7}");
    show(&mut sc, "me = link(hero)");
    assert_eq!(show(&mut sc, "me.hp"), vec!["7".to_string()]);
    show(&mut sc, "me.hp = 9");
    assert_eq!(show(&mut sc, "hero.hp"), vec!["9".to_string()]);
    assert_eq!(show(&mut sc, "$me.hp"), vec!["9".to_string()]);
    assert_eq!(
        show(&mut sc, "link(nobody)"),
        vec!["Error Action Error: can only link on protos".to_string()]
    );
    assert_eq!(
        show(&mut sc, "$$hero.hp"),
        vec!["Error Action Error: deref beyond refs".to_string()]
    );
}

#[test]
fn rooted_paths_start_at_the_outermost_base() {
    let mut sc = Scope::new();
    show(&mut sc, "x = 1");
    show(&mut sc, "f = func(){ x = 2; return :x + x }");
    assert_eq!(show(&mut sc, "f()"), vec!["3".to_string()]);
}

#[test]
fn map_literals_and_printing() {
    let mut sc = Scope::new();
    show(&mut sc, "m = {b: 2, a: [1, true], c: \"s\"}");
    assert_eq!(
        show(&mut sc, "m"),
        vec!["\na:[1,true]\nb:2\nc:\"s\"".to_string()]
    );
    show(&mut sc, "m -= \"b\"");
    assert_eq!(show(&mut sc, "m"), vec!["\na:[1,true]\nc:\"s\"".to_string()]);
    show(&mut sc, "m.d.e = 1");
    assert_eq!(
        show(&mut sc, "m"),
        vec!["\na:[1,true]\nc:\"s\"\nd:\n e:1".to_string()]
    );
}

#[test]
fn load_is_noted_for_the_host() {
    let mut sc = Scope::new();
    assert!(show(&mut sc, "load(\"party.dnd\")").is_empty());
    let loads = sc.take_loads();
    assert_eq!(loads.len(), 1);
    assert_eq!(loads[0].name, "party.dnd");
    assert!(sc.take_loads().is_empty());
    assert_eq!(
        show(&mut sc, "load(\"party.dnd\", 3)"),
        vec!["Error Action Error: target should be proto".to_string()]
    );
    assert!(sc.take_loads().is_empty());
    assert_eq!(
        show(&mut sc, "load(3)"),
        vec!["Error Action Error: filename should be string".to_string()]
    );
}

#[test]
fn dice_stay_within_their_sides() {
    let mut sc = Scope::new();
    for _ in 0..50 {
        let lines = sc.handle_input("d(6)").unwrap();
        let n: isize = lines[0].parse().unwrap();
        assert!(1 <= n && n <= 6);
        let lines = sc.handle_input("d(6, 6, 6)").unwrap();
        let n: isize = lines[0].parse().unwrap();
        assert!(3 <= n && n <= 18);
    }
    assert_eq!(
        show(&mut sc, "d(0)"),
        vec!["Error Action Error: d needs num sides".to_string()]
    );
}

#[test]
fn dice_take_the_numbers_that_were_drawn() {
    let mut a = Scope::new();
    let roll20 = parse("d(20)").unwrap();
    let roll6 = parse("d(6)").unwrap();
    a.rolls = vec![5, 17];
    assert_eq!(action_in(&roll20[0], &mut a, MAX_DEPTH), Ok(Value::Num(18)));
    assert_eq!(action_in(&roll6[0], &mut a, MAX_DEPTH), Ok(Value::Num(6)));
    assert_eq!(
        action_in(&roll6[0], &mut a, MAX_DEPTH),
        Err(ActionError::new("no dice at hand"))
    );
    a.draw_dice(10);
    assert_eq!(a.rolls.len(), 10);
    a.draw_dice(4);
    assert_eq!(a.rolls.len(), 10);
    a.handle_input("x = 1").unwrap();
    assert_eq!(a.rolls.len(), dnd_tracker::scope::DICE_POOL);
}

#[test]
fn every_statement_of_a_text_has_dice_at_hand() {
    let mut sc = Scope::new();
    let text = vec!["d(6, 6, 6, 6)"; 2000].join("\n");
    let lines = sc.run_text(&text).unwrap();
    assert_eq!(lines.len(), 2000);
    for l in &lines {
        let n: isize = l.parse().unwrap();
        assert!(4 <= n && n <= 24);
    }
    assert_eq!(
        show(&mut sc, "fold(0, 3000, func(v){ fold + d(2) - 1 })").len(),
        1
    );
    let acts = parse("d(4); d(4)").unwrap();
    let mut fresh = Scope::new();
    let (lines, next) = fresh.run_until_load(&acts, 0);
    assert_eq!((lines.len(), next), (2, 2));
}

#[test]
fn unreadable_text_runs_nothing() {
    let mut sc = Scope::new();
    let r = sc.run_text("x = 1\ny = )");
    match r {
        Err(ActionError::ParseErr(e)) => {
            assert_eq!(e.line, 1);
            assert!(!e.eof);
        }
        other => panic!("unexpected {:?}", other),
    }
    assert_eq!(sc.get(&Proto::one("x")), None);
    let r = sc.run_text("f = func(x){ x = 1");
    match r {
        Err(ActionError::ParseErr(e)) => {
            assert_eq!(e.line, 0);
            assert!(e.eof);
        }
        other => panic!("unexpected {:?}", other),
    }
}

#[test]
fn statements_parse_to_their_actions() {
    let acts = parse("a.b = 3; # note\nhero:\n+2 arrows\nx = 1:\nreturn 4").unwrap();
    assert_eq!(acts.len(), 5);
    assert_eq!(
        acts[0],
        Action::Assign(
            Expr::Oper(
                dnd_tracker::expr::Op::Dot,
                Box::new(Expr::Ident("a".to_string())),
                Box::new(Expr::Ident("b".to_string()))
            ),
            Expr::Num(3)
        )
    );
    assert_eq!(acts[1], Action::Select(Expr::Ident("hero".to_string())));
    assert_eq!(acts[2], Action::AddItem(2, "arrows".to_string()));
    assert_eq!(
        acts[3],
        Action::SetSelect(Expr::Ident("x".to_string()), Expr::Num(1))
    );
    assert_eq!(acts[4], Action::Return(Expr::Num(4)));
}

#[test]
fn values_survive_through_the_public_operations() {
    let mut sc = Scope::new();
    sc.set(&Proto::one("a"), Value::Num(3)).unwrap();
    assert_eq!(sc.get(&Proto::one("a")), Some(&Value::Num(3)));
    let p = Proto::one("a").extend_new(Proto::one("b").pp());
    assert_eq!(
        sc.set(&p, Value::Num(1)),
        Err(ActionError::new("Not childable type"))
    );
    let q = p.extend_new(Proto::one("c").pp());
    assert_eq!(
        sc.set(&q, Value::Num(1)),
        Err(ActionError::new("Could not give Child"))
    );
    assert_eq!(
        sc.set(&Proto::new(), Value::Num(1)),
        Err(ActionError::new("empty path"))
    );
    let up = Proto::one("a").dot().dot();
    assert_eq!(sc.set(&up, Value::Num(1)), Err(ActionError::new("No base")));
}

#[test]
fn indirections_in_a_circle_are_reported() {
    let mut sc = Scope::new();
    let a = sc.push_mem(Value::Null);
    let b = sc.push_mem(Value::Ref(a.clone_weak()));
    match sc.gm_mut().get_mut(&a) {
        Some(v) => *v = Value::Ref(b.clone_weak()),
        None => panic!("the value is there"),
    }
    sc.set(&Proto::one("loop"), Value::Ref(a)).unwrap();
    assert_eq!(
        show(&mut sc, "loop"),
        vec!["Error Action Error: cyclic reference".to_string()]
    );
    assert_eq!(
        show(&mut sc, "loop.x = 1"),
        vec!["Error Action Error: cyclic reference".to_string()]
    );
    assert_eq!(
        show(&mut sc, "loop.x.y = 1"),
        vec!["Error Action Error: cyclic reference".to_string()]
    );
    assert_eq!(
        show(&mut sc, "$loop.x"),
        vec!["Error Action Error: cyclic reference".to_string()]
    );
    assert_eq!(
        sc.select(&Proto::one("loop")),
        Err(ActionError::new("cyclic reference"))
    );
    assert!(sc.endless(&b));
    // selecting by statement puts a map where the path led to nothing
    assert!(show(&mut sc, "loop:").is_empty());
    assert_eq!(sc.get(&Proto::one("loop")), Some(&Value::map()));
    sc.gm_mut().drop_ref(b);
}

#[test]
fn long_iterations_and_lists_do_not_nest() {
    let mut sc = Scope::new();
    assert_eq!(
        show(&mut sc, "fold(0, 200000, func(v){ fold + 1 })"),
        vec!["200000".to_string()]
    );
    let list = format!("big = [{}]", vec!["1"; 20000].join(","));
    show(&mut sc, &list);
    let shown = show(&mut sc, "big");
    assert_eq!(shown[0].len(), 2 * 20000 + 1);
    assert_eq!(
        show(&mut sc, "fold(0, big, func(v){ fold + v })"),
        vec!["20000".to_string()]
    );
    show(&mut sc, "big = 0");
    assert_eq!(sc.gm.drops.len() >= 20000, true);
}

#[test]
fn a_function_reaches_what_it_belongs_to_by_self() {
    let mut sc = Scope::new();
    show(&mut sc, "hero = {hp: 3}");
    show(&mut sc, "hero.heal = func(n){ self.hp += n; return self.hp }");
    assert_eq!(show(&mut sc, "hero.heal(4)"), vec!["7".to_string()]);
    assert_eq!(show(&mut sc, "hero.hp"), vec!["7".to_string()]);
    let hero = sc.get_ref(&Proto::one("hero")).unwrap();
    assert_eq!(sc.gm.count(&hero), Some(1));
    show(&mut sc, "top = func(){ return self.hero.hp }");
    assert_eq!(show(&mut sc, "top()"), vec!["7".to_string()]);
    assert_eq!(sc.bases.len(), 1);
}

#[test]
fn a_statement_run_by_itself_draws_its_dice() {
    let mut sc = Scope::new();
    let acts = parse("d(6)\nf = func(n){ return d(n) + d(n) }\nf(4)").unwrap();
    match sc.do_action(&acts[0]) {
        Ok(Value::Num(n)) => assert!(1 <= n && n <= 6),
        other => panic!("unexpected {:?}", other),
    }
    assert_eq!(sc.rolls.len(), dnd_tracker::scope::DICE_POOL - 1);
    assert!(sc.do_action(&acts[1]).is_ok());
    match sc.do_action(&acts[2]) {
        Ok(Value::Num(n)) => assert!(2 <= n && n <= 8),
        other => panic!("unexpected {:?}", other),
    }
    match dnd_tracker::parse::parse_expr_text("d(20)") {
        Some(e) => match e.eval(&mut sc) {
            Ok(Value::Num(n)) => assert!(1 <= n && n <= 20),
            other => panic!("unexpected {:?}", other),
        },
        None => panic!("no expression"),
    }
}
