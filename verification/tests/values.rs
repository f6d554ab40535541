use dnd_tracker::ecs_ish::GenManager;
use dnd_tracker::error::ActionError;
use dnd_tracker::proto::ProtoNode;
use dnd_tracker::tree::RefTree;
use dnd_tracker::value::Value;

fn list_of(gm: &mut GenManager, items: &[isize]) -> Value {
    Value::List(items.iter().map(|n| gm.push(Value::Num(*n))).collect())
}

fn numbers(gm: &GenManager, v: &Value) -> Vec<isize> {
    match v {
        Value::List(l) => l
            .iter()
            .map(|h| match gm.get(h) {
                Some(Value::Num(n)) => *n,
                other => panic!("no number: {:?}", other),
            })
            .collect(),
        other => panic!("no list: {:?}", other),
    }
}

#[test]
fn numbers_add_subtract_multiply_divide() {
    let mut gm = GenManager::new();
    assert_eq!(Value::Num(2).try_add(Value::Num(3), &mut gm), Ok(Value::Num(5)));
    assert_eq!(Value::Num(2).try_sub(Value::Num(3), &mut gm), Ok(Value::Num(-1)));
    assert_eq!(Value::Num(-2).try_mul(Value::Num(3), &mut gm), Ok(Value::Num(-6)));
    assert_eq!(Value::Num(7).try_div(Value::Num(2), &mut gm), Ok(Value::Num(3)));
    assert_eq!(Value::Num(-7).try_div(Value::Num(2), &mut gm), Ok(Value::Num(-3)));
    assert_eq!(Value::Num(7).try_div(Value::Num(-2), &mut gm), Ok(Value::Num(-3)));
    assert_eq!(Value::Num(-7).try_div(Value::Num(-2), &mut gm), Ok(Value::Num(3)));
    assert_eq!(Value::Num(4).try_neg(&mut gm), Ok(Value::Num(-4)));
    assert_eq!(
        Value::Num(1).try_div(Value::Num(0), &mut gm),
        Err(ActionError::new("Can't div by zero"))
    );
}

#[test]
fn overflow_is_an_error() {
    let mut gm = GenManager::new();
    let over = Err(ActionError::new("Number overflow"));
    assert_eq!(Value::Num(isize::MAX).try_add(Value::Num(1), &mut gm), over);
    assert_eq!(Value::Num(isize::MIN).try_sub(Value::Num(1), &mut gm), over);
    assert_eq!(Value::Num(isize::MAX).try_mul(Value::Num(2), &mut gm), over);
    assert_eq!(Value::Num(isize::MIN).try_div(Value::Num(-1), &mut gm), over);
    assert_eq!(Value::Num(isize::MIN).try_neg(&mut gm), over);
    assert_eq!(
        Value::Num(isize::MIN).try_div(Value::Num(1), &mut gm),
        Ok(Value::Num(isize::MIN))
    );
}

#[test]
fn booleans_join_by_or_and_and() {
    let mut gm = GenManager::new();
    assert_eq!(Value::Bool(false).try_add(Value::Bool(true), &mut gm), Ok(Value::Bool(true)));
    assert_eq!(Value::Bool(false).try_add(Value::Bool(false), &mut gm), Ok(Value::Bool(false)));
    assert_eq!(Value::Bool(true).try_mul(Value::Bool(false), &mut gm), Ok(Value::Bool(false)));
    assert_eq!(Value::Bool(true).try_mul(Value::Bool(true), &mut gm), Ok(Value::Bool(true)));
    assert_eq!(Value::Bool(true).try_neg(&mut gm), Ok(Value::Bool(false)));
}

#[test]
fn strings_concatenate_and_have_no_other_arithmetic() {
    let mut gm = GenManager::new();
    assert_eq!(Value::str("ab").try_add(Value::str("cd"), &mut gm), Ok(Value::str("abcd")));
    assert_eq!(
        Value::str("ab").try_sub(Value::str("b"), &mut gm),
        Err(ActionError::new("Cannot subtract Str and Str"))
    );
    assert_eq!(
        Value::str("ab").try_mul(Value::Num(2), &mut gm),
        Err(ActionError::new("Cannot multiply Str and Num"))
    );
    assert_eq!(
        Value::str("ab").try_div(Value::Num(2), &mut gm),
        Err(ActionError::new("Cannot divide Str and Num"))
    );
    assert_eq!(
        Value::str("ab").try_neg(&mut gm),
        Err(ActionError::new("Cannot negate Str"))
    );
    assert_eq!(
        Value::Null.try_add(Value::Null, &mut gm),
        Err(ActionError::new("Cannot add Null and Null"))
    );
}

#[test]
fn list_minus_list_takes_one_for_each() {
    let mut gm = GenManager::new();
    let a = list_of(&mut gm, &[1, 2, 3]);
    let b = list_of(&mut gm, &[2]);
    let r = a.try_sub(b, &mut gm).unwrap();
    assert_eq!(numbers(&gm, &r), vec![1, 3]);
    // the element taken out and the right list are released
    assert_eq!(gm.drops.len(), 2);

    let a = list_of(&mut gm, &[2, 1, 2, 2]);
    let b = list_of(&mut gm, &[2, 5, 2]);
    let r = a.try_sub(b, &mut gm).unwrap();
    assert_eq!(numbers(&gm, &r), vec![1, 2]);
}

#[test]
fn list_minus_scalar_takes_every_match() {
    let mut gm = GenManager::new();
    let a = list_of(&mut gm, &[2, 1, 2]);
    let r = a.try_sub(Value::Num(2), &mut gm).unwrap();
    assert_eq!(numbers(&gm, &r), vec![1]);
    assert_eq!(gm.drops.len(), 2);
    let r = r.try_sub(Value::str("x"), &mut gm).unwrap();
    assert_eq!(numbers(&gm, &r), vec![1]);
}

#[test]
fn list_plus_list_and_scalar() {
    let mut gm = GenManager::new();
    let a = list_of(&mut gm, &[1]);
    let b = list_of(&mut gm, &[2, 3]);
    let r = a.try_add(b, &mut gm).unwrap();
    assert_eq!(numbers(&gm, &r), vec![1, 2, 3]);
    let r = r.try_add(Value::Num(4), &mut gm).unwrap();
    assert_eq!(numbers(&gm, &r), vec![1, 2, 3, 4]);
    let before = gm.drops.len();
    let e = r.try_add(Value::map(), &mut gm);
    assert_eq!(e, Err(ActionError::new("Cannot add List and Map")));
    assert_eq!(gm.drops.len(), before + 4);
}

#[test]
fn right_map_wins_and_the_old_value_is_released() {
    let mut gm = GenManager::new();
    let inner = gm.push(Value::Num(1));
    let inner_probe = inner.clone_weak();
    let old = gm.push(Value::List(vec![inner]));
    let old_probe = old.clone_weak();
    let keep = gm.push(Value::Num(5));
    let new = gm.push(Value::Num(2));
    let new_probe = new.clone_weak();
    let mut left = RefTree::new();
    left.insert(ProtoNode::str("a"), old);
    left.insert(ProtoNode::str("k"), keep);
    let mut right = RefTree::new();
    right.insert(ProtoNode::str("a"), new);
    let r = Value::Tree(left).try_add(Value::Tree(right), &mut gm).unwrap();
    match &r {
        Value::Tree(t) => {
            assert_eq!(t.len(), 2);
            assert_eq!(t.get(&ProtoNode::str("a")), Some(&new_probe));
            assert_eq!(gm.get(t.get(&ProtoNode::str("a")).unwrap()), Some(&Value::Num(2)));
            assert_eq!(gm.get(t.get(&ProtoNode::str("k")).unwrap()), Some(&Value::Num(5)));
        }
        other => panic!("no map: {:?}", other),
    }
    assert_eq!(gm.get(&old_probe), None);
    assert_eq!(gm.get(&inner_probe), None);
    assert_eq!(gm.drops.len(), 2);
}

#[test]
fn shallow_copies_own_their_handles() {
    let mut gm = GenManager::new();
    let v = list_of(&mut gm, &[1, 2]);
    let w = v.clone_weak();
    match &w {
        Value::List(l) => assert!(l.iter().all(|h| !h.strong)),
        other => panic!("no list: {:?}", other),
    }
    let s = v.clone_shallow(&mut gm);
    match &s {
        Value::List(l) => {
            assert!(l.iter().all(|h| h.strong));
            assert_eq!(gm.count(&l[0]), Some(2));
        }
        other => panic!("no list: {:?}", other),
    }
    assert_eq!(v, s);
    gm.drop(v);
    assert_eq!(numbers(&gm, &s), vec![1, 2]);
    let handles = s.gen_drop();
    assert_eq!(handles.len(), 2);
}

#[test]
fn children_are_given_to_maps_only() {
    let mut gm = GenManager::new();
    let mut m = Value::map();
    let h = gm.push(Value::Num(1));
    let probe = h.clone_weak();
    assert_eq!(m.give_child(ProtoNode::str("a"), h), Ok(None));
    assert_eq!(m.child_ref(&ProtoNode::str("a")), Some(&probe));
    let h2 = gm.push(Value::Num(2));
    let r = m.try_give_child(&ProtoNode::str("a"), h2).unwrap();
    assert_eq!(r.0, false);
    assert_eq!(r.1, probe);
    let h3 = gm.push(Value::Num(3));
    let r = m.try_give_child(&ProtoNode::str("b"), h3).unwrap();
    assert_eq!(r.0, true);
    assert_eq!(gm.get(&r.1), Some(&Value::Num(3)));
    let mut n = Value::Num(1);
    let h4 = gm.push(Value::Num(4));
    assert_eq!(
        n.give_child(ProtoNode::str("a"), h4),
        Err(ActionError::new("Not childable type"))
    );
    let h5 = gm.push(Value::Num(5));
    assert!(n.try_give_child(&ProtoNode::str("a"), h5).is_err());
    let l = list_of(&mut gm, &[7, 8]);
    assert_eq!(gm.get(l.child_ref(&ProtoNode::Num(1)).unwrap()), Some(&Value::Num(8)));
    assert_eq!(l.child_ref(&ProtoNode::Num(2)), None);
    assert_eq!(l.child_ref(&ProtoNode::str("x")), None);
}

#[test]
fn values_print_as_text() {
    let mut gm = GenManager::new();
    assert_eq!(Value::Null.print(0, &gm), "NULL");
    assert_eq!(Value::Num(-12).print(0, &gm), "-12");
    assert_eq!(Value::Num(0).print(0, &gm), "0");
    assert_eq!(Value::Num(isize::MIN).print(0, &gm), isize::MIN.to_string());
    assert_eq!(Value::str("hi").print(0, &gm), "\"hi\"");
    let l = list_of(&mut gm, &[1, 2]);
    assert_eq!(l.print(0, &gm), "[1,2]");
    let h = gm.push(Value::Num(3));
    let stale = h.clone_ignore_gm();
    assert_eq!(Value::Ref(h.clone_weak()).print(0, &gm), "$3");
    gm.drop_ref(h);
    assert_eq!(Value::Ref(stale).print(0, &gm), "$Freeed Pointer Err");
    assert_eq!(Value::FuncDef(vec![], vec![]).print(0, &gm), "func[]");
    assert_eq!(
        Value::FuncDef(vec!["a\"b".to_string()], vec![]).print(0, &gm),
        "func[\"a\\\"b\"]"
    );
    assert_eq!(
        Value::FuncDef(vec!["a".to_string(), "b".to_string()], vec![]).print(0, &gm),
        "func[\"a\", \"b\"]"
    );
}

#[test]
fn function_values_show_their_parameter_names() {
    let mut out = String::from("x = ");
    dnd_tracker::print::write_func("[\"a\", \"b\"]", &mut out);
    assert_eq!(out, "x = func[\"a\", \"b\"]");
    let mut none = String::new();
    dnd_tracker::print::write_func("[]", &mut none);
    assert_eq!(none, "func[]");
}
