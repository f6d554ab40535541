use dnd_tracker::ecs_ish::GenManager;
use dnd_tracker::proto::{Proto, ProtoNode};
use dnd_tracker::tree::RefTree;
use dnd_tracker::value::Value;

#[test]
fn push_then_get_returns_the_value() {
    let mut gm = GenManager::new();
    let h = gm.push(Value::Num(7));
    assert_eq!(gm.get(&h), Some(&Value::Num(7)));
    assert_eq!(gm.count(&h), Some(1));
}

#[test]
fn released_handle_names_nothing() {
    let mut gm = GenManager::new();
    let h = gm.push(Value::Num(7));
    let stale = h.clone_weak();
    gm.drop_ref(h);
    assert!(gm.get(&stale).is_none());
    let h2 = gm.push(Value::Num(8));
    assert_eq!(h2.pos, stale.pos);
    assert_ne!(h2.gen, stale.gen);
    assert!(gm.get(&stale).is_none());
    assert_eq!(gm.get(&h2), Some(&Value::Num(8)));
}

#[test]
fn second_strong_handle_keeps_the_value() {
    let mut gm = GenManager::new();
    let h = gm.push(Value::str("kept"));
    let h2 = h.clone_strong(&mut gm).unwrap();
    assert_eq!(gm.count(&h2), Some(2));
    gm.drop_ref(h);
    assert_eq!(gm.get(&h2), Some(&Value::str("kept")));
    let probe = h2.clone_weak();
    gm.drop_ref(h2);
    assert_eq!(gm.get(&probe), None);
    assert!(probe.clone_strong(&mut gm).is_none());
    assert!(!gm.inc_rc(&probe));
}

#[test]
fn weak_handles_own_nothing() {
    let mut gm = GenManager::new();
    let h = gm.push(Value::Num(1));
    let w = h.clone_weak();
    assert!(!w.strong);
    gm.drop_ref(w.clone_ignore_gm());
    assert_eq!(gm.get(&h), Some(&Value::Num(1)));
    let w2 = w.clone(&mut gm);
    assert!(!w2.strong);
    assert_eq!(gm.count(&h), Some(1));
    let s2 = h.clone(&mut gm);
    assert!(s2.strong);
    assert_eq!(gm.count(&h), Some(2));
}

#[test]
fn dropping_a_list_releases_its_elements() {
    let mut gm = GenManager::new();
    let a = gm.push(Value::Num(1));
    let b = gm.push(Value::Num(2));
    let (wa, wb) = (a.clone_weak(), b.clone_weak());
    let inner = gm.push(Value::List(vec![a, b]));
    let winner = inner.clone_weak();
    let outer = gm.push(Value::List(vec![inner]));
    gm.drop_ref(outer);
    assert_eq!(gm.get(&wa), None);
    assert_eq!(gm.get(&wb), None);
    assert_eq!(gm.get(&winner), None);
    assert_eq!(gm.drops.len(), 4);
}

#[test]
fn stale_and_far_handles_never_panic() {
    let mut gm = GenManager::new();
    let h = gm.push(Value::Null);
    let far = dnd_tracker::ecs_ish::GenData { pos: 99, gen: 0, strong: true };
    assert_eq!(gm.get(&far), None);
    assert!(gm.get_mut(&far).is_none());
    assert!(!gm.inc_rc(&far));
    gm.drop_ref(far);
    assert_eq!(gm.get(&h), Some(&Value::Null));
    match gm.get_mut(&h) {
        Some(v) => *v = Value::Num(5),
        None => panic!("the value is there"),
    }
    assert_eq!(gm.get(&h), Some(&Value::Num(5)));
}

#[test]
fn tree_keeps_keys_in_order() {
    let mut gm = GenManager::new();
    let mut t = RefTree::new();
    let h1 = gm.push(Value::Num(1));
    let h2 = gm.push(Value::Num(2));
    let h3 = gm.push(Value::Num(3));
    let h4 = gm.push(Value::Num(4));
    assert!(t.insert(ProtoNode::str("b"), h1).is_none());
    assert!(t.insert(ProtoNode::Num(7), h2).is_none());
    assert!(t.insert(ProtoNode::str("a"), h3).is_none());
    assert!(t.insert(ProtoNode::Deref, h4).is_none());
    let keys: Vec<String> = t.entries.iter().map(|e| e.key.as_string()).collect();
    assert_eq!(keys, vec!["7", "a", "b", ""]);
    assert_eq!(t.get(&ProtoNode::str("a")).map(|h| h.pos), Some(2));
    let old = t.insert(ProtoNode::str("a"), dnd_tracker::ecs_ish::GenData { pos: 9, gen: 0, strong: false });
    assert_eq!(old.map(|h| h.pos), Some(2));
    assert_eq!(t.len(), 4);
    assert_eq!(t.remove(&ProtoNode::Num(7)).map(|h| h.pos), Some(1));
    assert!(t.remove(&ProtoNode::Num(7)).is_none());
    assert_eq!(t.len(), 3);
}

#[test]
fn paths_are_built_and_taken_apart() {
    let p = Proto::one("a").extend_new(Proto::num(3).pp());
    assert_eq!(p.v.len(), 2);
    assert_eq!(p.parent(), Proto::one("a"));
    assert_eq!(Proto::new().parent(), Proto::new());
    assert_eq!(Proto::one("a").as_api_func_name(), Some("a"));
    assert_eq!(p.as_api_func_name(), None);
    assert_eq!(Proto::num(1).as_api_func_name(), None);
    assert_eq!(Proto::one("a").dot().dots, 1);
    assert_eq!(Proto::one("a").with_deref(2).with_deref(1).derefs, 3);
    assert_eq!(Proto::one("a").with_deref(2).with_set_deref(1).derefs, 1);
    assert!(Proto::one("a").rooted().root);
    let mut pp = p.pp();
    assert_eq!(pp.remaining(), 2);
    assert_eq!(pp.parent().remaining(), 1);
    assert_eq!(pp.next(), Some(&ProtoNode::str("a")));
    assert_eq!(pp.next(), Some(&ProtoNode::Num(3)));
    assert_eq!(pp.next(), None);
    assert_eq!(pp.remaining(), 0);
    let mut q = Proto::new();
    q.push_val(Value::str("x")).unwrap();
    q.push_val(Value::Num(-4)).unwrap();
    assert!(q.push_val(Value::Null).is_err());
    assert_eq!(q, Proto::one("x").extend_new(Proto::num(4).pp()));
    assert_eq!(ProtoNode::Num(120).as_string(), "120");
    assert_eq!(ProtoNode::str("12").as_num(), Some(12));
    assert_eq!(ProtoNode::str("+12").as_num(), Some(12));
    assert_eq!(ProtoNode::str("1x").as_num(), None);
    assert_eq!(ProtoNode::str("").as_num(), None);
    assert_eq!(ProtoNode::str("99999999999999999999999").as_num(), None);
    assert_eq!(ProtoNode::Deref.as_num(), None);
    assert!(ProtoNode::Num(5).less(&ProtoNode::str("0")));
    assert!(ProtoNode::str("ab").less(&ProtoNode::str("b")));
    assert!(!ProtoNode::str("b").less(&ProtoNode::str("ab")));
    assert!(ProtoNode::str("a").less(&ProtoNode::str("ab")));
    assert!(ProtoNode::str("z").less(&ProtoNode::str("é")));
}

#[test]
fn weak_handles_are_never_counted() {
    let mut gm = GenManager::new();
    let h = gm.push(Value::Num(1));
    let w = h.clone_weak();
    assert_eq!((w.pos, w.gen, w.strong), (h.pos, h.gen, false));
    assert!(!gm.inc_rc(&w));
    assert_eq!(gm.count(&h), Some(1));
    assert!(w.clone_strong(&mut gm).is_none());
    assert_eq!(gm.count(&h), Some(1));
    gm.drop_ref(w.clone_weak());
    assert_eq!(gm.get(&h), Some(&Value::Num(1)));
    assert!(gm.inc_rc(&h));
    assert_eq!(gm.count(&h), Some(2));
    let s = h.clone_strong(&mut gm).unwrap();
    assert!(s.strong);
    assert_eq!(gm.count(&h), Some(3));
    // a weak handle becomes an owner only by the upgrade
    let u = w.upgrade(&mut gm).unwrap();
    assert!(u.strong);
    assert_eq!(gm.count(&h), Some(4));
    assert!(gm.upgrade(&w));
    assert_eq!(gm.count(&h), Some(5));
}
