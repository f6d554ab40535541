//! What a write leaves for later reads: the laws that tie the writing of
//! a path to its resolution.

use vstd::prelude::*;
use crate::ecs_ish::{ArenaView, GenData};
use crate::proto::{NodeView, ProtoView};
use crate::scope::{
    MAX_REF_HOPS, ScopeView, descend, follow, lemma_follow_lands, lemma_weak_start, place,
    select_base, step_into, walk, walk_to,
};
use crate::tree::{
    lemma_tree_get_none, lemma_tree_insert, tree_get, tree_insert, tree_sorted, tree_values,
};
use crate::value::{ValueView, weak};

verus! {

/// Whether the arena `b` holds all that resolution can see in `a`: every
/// value of `a` is there in `b` under the same handle, an indirection as it
/// was, and any other value with at least the children it had.
pub open spec fn extends(a: ArenaView, b: ArenaView) -> bool {
    forall|h: GenData| #[trigger]
        a.live(h) ==> {
            &&& b.live(h)
            &&& (a.get(h)->0 is Ref ==> b.get(h) == a.get(h))
            &&& (!(a.get(h)->0 is Ref) ==> !(b.get(h)->0 is Ref))
            &&& forall|k: NodeView| #[trigger]
                a.get(h)->0.child(k) is Some ==> b.get(h)->0.child(k) == a.get(h)->0.child(k)
        }
}

/// What `follow` reaches in an arena it reaches in every arena that extends
/// it.
pub proof fn lemma_extends_follow(a: ArenaView, b: ArenaView, h: GenData, hops: nat)
    requires
        extends(a, b),
        follow(a, h, hops) is Some,
    ensures
        follow(b, h, hops) == follow(a, h, hops),
    decreases hops,
{
    assert(a.live(h));
    if let Some(ValueView::Ref(t)) = a.get(h) {
        lemma_extends_follow(a, b, t, (hops - 1) as nat);
    }
}

/// What a walk finds in an arena it finds in every arena that extends it.
pub proof fn lemma_extends_walk_to(a: ArenaView, b: ArenaView, h: GenData, path: Seq<NodeView>)
    requires
        extends(a, b),
        walk_to(a, h, path) is Some,
    ensures
        walk_to(b, h, path) == walk_to(a, h, path),
    decreases path.len(),
{
    if path.len() > 0 {
        lemma_extends_follow(a, b, h, MAX_REF_HOPS as nat);
        lemma_follow_lands(a, h, MAX_REF_HOPS as nat);
        let c = follow(a, h, MAX_REF_HOPS as nat)->0;
        assert(a.live(c));
        let n = a.get(c)->0.child(path[0])->0;
        assert(a.get(c)->0.child(path[0]) is Some);
        lemma_extends_walk_to(a, b, n, path.drop_first());
    }
}

/// Extension is transitive.
pub proof fn lemma_extends_trans(a: ArenaView, b: ArenaView, c: ArenaView)
    requires
        extends(a, b),
        extends(b, c),
    ensures
        extends(a, c),
{
    assert forall|h: GenData| #[trigger] a.live(h) implies {
        &&& c.live(h)
        &&& (a.get(h)->0 is Ref ==> c.get(h) == a.get(h))
        &&& (!(a.get(h)->0 is Ref) ==> !(c.get(h)->0 is Ref))
        &&& forall|k: NodeView| #[trigger]
            a.get(h)->0.child(k) is Some ==> c.get(h)->0.child(k) == a.get(h)->0.child(k)
    } by {
        assert(b.live(h));
        assert forall|k: NodeView| #[trigger] a.get(h)->0.child(k) is Some implies c.get(
            h,
        )->0.child(k) == a.get(h)->0.child(k) by {
            assert(b.get(h)->0.child(k) is Some);
        }
    }
}

/// Storing a value extends the arena.
pub proof fn lemma_push_extends(a: ArenaView, v: ValueView)
    requires
        a.wf(),
        v.wf(),
        a.items.len() < usize::MAX,
    ensures
        extends(a, a.push(v)),
        a.push(v).wf(),
        a.push(v).items.len() <= a.items.len() + 1,
        a.push(v).get(a.push_handle()) == Some(v),
        !a.live(a.push_handle()),
{
    a.lemma_push_wf(v);
    assert forall|h: GenData| #[trigger] a.live(h) implies a.push(v).get(h) == a.get(h) by {
        a.lemma_push_keeps(v, h);
    }
}

/// Binding a key that a map did not have extends the arena.
pub proof fn lemma_bind_extends(a: ArenaView, c: GenData, k: NodeView, h: GenData)
    requires
        a.wf(),
        a.live(c),
        a.get(c)->0 is Tree,
        tree_get(a.get(c)->0->Tree_0, k) is None,
    ensures
        extends(
            a,
            a.with_value(c.pos as int, ValueView::Tree(tree_insert(a.get(c)->0->Tree_0, k, h))),
        ),
        a.with_value(
            c.pos as int,
            ValueView::Tree(tree_insert(a.get(c)->0->Tree_0, k, h)),
        ).wf(),
{
    let t = a.get(c)->0->Tree_0;
    let nv = ValueView::Tree(tree_insert(t, k, h));
    lemma_tree_insert(t, k, h);
    a.lemma_with_value_wf(c.pos as int, nv);
}

/// A walk over one segment follows the indirections at hand and picks the
/// child.
pub proof fn lemma_walk_one(g: ArenaView, h: GenData, k: NodeView)
    ensures
        walk_to(g, h, seq![k]) == match follow(g, h, MAX_REF_HOPS as nat) {
            None => None,
            Some(c) => match g.get(c)->0.child(k) {
                None => None,
                Some(n) => Some(weak(n)),
            },
        },
{
    assert(seq![k].drop_first() =~= Seq::<NodeView>::empty());
    assert(seq![k][0] == k);
    match follow(g, h, MAX_REF_HOPS as nat) {
        None => {},
        Some(c) => match g.get(c)->0.child(k) {
            None => {},
            Some(n) => {
                assert(walk_to(g, n, Seq::<NodeView>::empty()) == Some(weak(n)));
            },
        },
    }
}

/// A step of a write that succeeds extends the arena, and a walk over its
/// segment then finds the handle that the step returned.
pub proof fn lemma_step_into(g: ArenaView, cur: GenData, k: NodeView)
    requires
        g.wf(),
        g.items.len() < usize::MAX,
        step_into(g, cur, k).res is Ok,
    ensures
        extends(g, step_into(g, cur, k).arena),
        step_into(g, cur, k).arena.wf(),
        step_into(g, cur, k).arena.items.len() <= g.items.len() + 1,
        walk_to(step_into(g, cur, k).arena, cur, seq![k]) == Some(step_into(g, cur, k).res->Ok_0),
{
    let s = step_into(g, cur, k);
    lemma_follow_lands(g, cur, MAX_REF_HOPS as nat);
    let c = follow(g, cur, MAX_REF_HOPS as nat)->0;
    lemma_walk_one(s.arena, cur, k);
    match g.get(c)->0 {
        ValueView::Tree(t) => {
            if tree_get(t, k) is None {
                let e = ValueView::Tree(Seq::empty());
                let h = g.push_handle();
                lemma_push_extends(g, e);
                let g1 = g.push(e);
                assert(g.live(c));
                g.lemma_push_keeps(e, c);
                lemma_bind_extends(g1, c, k, h);
                lemma_extends_trans(g, g1, s.arena);
                lemma_extends_follow(g, s.arena, cur, MAX_REF_HOPS as nat);
                lemma_tree_insert(t, k, h);
            }
        },
        _ => {},
    }
}

/// A walk over a path and one more segment is the walk over the path, then
/// the step over the segment.
pub proof fn lemma_walk_to_snoc(g: ArenaView, h: GenData, path: Seq<NodeView>, k: NodeView)
    ensures
        walk_to(g, h, path.push(k)) == match walk_to(g, h, path) {
            None => None,
            Some(x) => walk_to(g, x, seq![k]),
        },
    decreases path.len(),
{
    if path.len() == 0 {
        assert(path.push(k) =~= seq![k]);
        lemma_weak_start(g, h, seq![k], 0);
    } else {
        assert(path.push(k).drop_first() =~= path.drop_first().push(k));
        match follow(g, h, MAX_REF_HOPS as nat) {
            None => {},
            Some(c) => match g.get(c)->0.child(path[0]) {
                None => {},
                Some(n) => {
                    lemma_walk_to_snoc(g, n, path.drop_first(), k);
                },
            },
        }
    }
}

/// The steps of a write that succeed extend the arena, and a walk over
/// their path then finds the handle that they returned.
pub proof fn lemma_descend(g: ArenaView, cur: GenData, path: Seq<NodeView>)
    requires
        g.wf(),
        g.items.len() + path.len() < usize::MAX,
        descend(g, cur, path).res is Ok,
    ensures
        extends(g, descend(g, cur, path).arena),
        descend(g, cur, path).arena.wf(),
        descend(g, cur, path).arena.items.len() <= g.items.len() + path.len(),
        walk_to(descend(g, cur, path).arena, cur, path) == Some(descend(g, cur, path).res->Ok_0),
    decreases path.len(),
{
    if path.len() > 0 {
        let s = step_into(g, cur, path[0]);
        lemma_step_into(g, cur, path[0]);
        let n = s.res->Ok_0;
        let rest = path.drop_first();
        lemma_descend(s.arena, n, rest);
        let d = descend(g, cur, path);
        lemma_extends_trans(g, s.arena, d.arena);
        lemma_extends_walk_to(s.arena, d.arena, cur, seq![path[0]]);
        lemma_walk_one(d.arena, cur, path[0]);
        // the first step, seen in the final arena
        let c = follow(d.arena, cur, MAX_REF_HOPS as nat);
        assert(c is Some);
        let m = d.arena.get(c->0)->0.child(path[0]);
        assert(m is Some);
        assert(weak(m->0) == n);
        lemma_weak_start(d.arena, m->0, rest, 0);
    }
}

/// Where no walk over a path and one more segment finds anything, the steps
/// of a write over the path end at a place that has nothing under that
/// segment.
pub proof fn lemma_descend_unbound(g: ArenaView, cur: GenData, path: Seq<NodeView>, k: NodeView)
    requires
        g.wf(),
        g.items.len() + path.len() < usize::MAX,
        descend(g, cur, path).res is Ok,
        walk_to(g, cur, path.push(k)) is None,
    ensures
        walk_to(descend(g, cur, path).arena, descend(g, cur, path).res->Ok_0, seq![k]) is None,
    decreases path.len(),
{
    if path.len() == 0 {
        assert(path.push(k) =~= seq![k]);
        lemma_weak_start(g, cur, seq![k], 0);
    } else {
        let s = step_into(g, cur, path[0]);
        lemma_step_into(g, cur, path[0]);
        let n = s.res->Ok_0;
        let rest = path.drop_first();
        assert(path.push(k).drop_first() =~= rest.push(k));
        lemma_follow_lands(g, cur, MAX_REF_HOPS as nat);
        let c = follow(g, cur, MAX_REF_HOPS as nat)->0;
        if g.get(c)->0.child(path[0]) is Some {
            assert(s.arena == g);
            lemma_weak_start(g, g.get(c)->0.child(path[0])->0, rest.push(k), 0);
        } else {
            // a new, empty map: nothing is under any segment
            let e = ValueView::Tree(Seq::empty());
            let h = g.push_handle();
            lemma_push_extends(g, e);
            g.lemma_push_keeps(e, c);
            assert(s.arena.get(h) == Some(e));
            assert(follow(s.arena, h, MAX_REF_HOPS as nat) == Some(weak(h)));
            lemma_tree_get_none(Seq::empty(), rest.push(k)[0]);
            lemma_weak_start(s.arena, h, rest.push(k), 0);
            assert(walk_to(s.arena, h, rest.push(k)) is None);
        }
        lemma_descend_unbound(s.arena, n, rest, k);
    }
}

/// A value written at a path that named nothing before is what a read of
/// the path returns afterwards. This holds of any value but an
/// indirection, which a read would follow.
pub proof fn lemma_set_then_get(s: ScopeView, p: ProtoView, v: ValueView)
    requires
        s.wf(),
        v.wf(),
        !(v is Ref),
        s.arena.items.len() + p.v.len() < usize::MAX,
        s.set(p, v).res is Ok,
        walk_to(s.arena, select_base(s.bases, p)->0, p.v) is None,
    ensures
        (ScopeView { arena: s.set(p, v).arena, ..s }).get(p) == Some(v),
        (ScopeView { arena: s.set(p, v).arena, ..s }).wf(),
{
    let g = s.arena;
    let b = select_base(s.bases, p)->0;
    let path = p.v;
    let prefix = path.drop_last();
    let k = path.last();
    assert(prefix.push(k) =~= path);
    let d = descend(g, b, prefix);
    lemma_descend(g, b, prefix);
    lemma_descend_unbound(g, b, prefix, k);
    let cur = d.res->Ok_0;
    let g1 = d.arena;
    let w = place(g1, cur, k, v);
    assert(w == s.set(p, v));
    lemma_follow_lands(g1, cur, MAX_REF_HOPS as nat);
    let c = follow(g1, cur, MAX_REF_HOPS as nat)->0;
    let t = g1.get(c)->0->Tree_0;
    lemma_walk_one(g1, cur, k);
    assert(tree_get(t, k) is None);
    let h = g1.push_handle();
    lemma_push_extends(g1, v);
    let g2 = g1.push(v);
    g1.lemma_push_keeps(v, c);
    lemma_bind_extends(g2, c, k, h);
    let g3 = w.arena;
    assert(g3 == g2.with_value(c.pos as int, ValueView::Tree(tree_insert(t, k, h))));
    lemma_extends_trans(g1, g2, g3);
    lemma_extends_walk_to(g1, g3, b, prefix);
    lemma_walk_to_snoc(g3, b, prefix, k);
    lemma_extends_follow(g1, g3, cur, MAX_REF_HOPS as nat);
    lemma_tree_insert(t, k, h);
    lemma_walk_one(g3, cur, k);
    assert(walk_to(g3, cur, seq![k]) == Some(weak(h)));
    assert(g3.get(h) == Some(v));
    assert(follow(g3, weak(h), MAX_REF_HOPS as nat) == Some(weak(h)));
    assert(walk(g3, b, path) == Some(weak(h)));
}

/// Whether the handle `h` names nothing in `g`, or a value that holds no
/// handles.
pub open spec fn holds_nothing(g: ArenaView, h: GenData) -> bool {
    g.get(h) is None || g.get(h)->0.handles().len() == 0
}

/// Whether `b` is `a` after the binding of `k` in the map at `c` was
/// replaced by `h`, as far as resolution can see: every value of `a` that
/// holds handles is there in `b` as it was, but for the map at `c`, which
/// binds `k` to `h`.
pub open spec fn rebound(a: ArenaView, b: ArenaView, c: GenData, k: NodeView, h: GenData) -> bool {
    &&& a.live(c)
    &&& a.get(c)->0 is Tree
    &&& tree_sorted(a.get(c)->0->Tree_0)
    &&& b.get(c) == Some(ValueView::Tree(tree_insert(a.get(c)->0->Tree_0, k, h)))
    &&& forall|x: GenData| #[trigger]
        a.live(x) && a.get(x)->0.handles().len() > 0 && x.pos != c.pos ==> b.get(x) == a.get(x)
}

/// A value that has a child under some segment holds handles.
pub proof fn lemma_child_is_held(v: ValueView, k: NodeView)
    requires
        v.child(k) is Some,
        v.wf(),
    ensures
        v.handles().len() > 0,
{
    match v {
        ValueView::Tree(t) => {
            crate::tree::lemma_tree_get_some(t, k);
        },
        _ => {},
    }
}

/// Where `follow` ends at a value that holds handles, it ends there after
/// a binding was replaced too.
pub proof fn lemma_rebound_follow(
    a: ArenaView,
    b: ArenaView,
    c: GenData,
    k: NodeView,
    h: GenData,
    x: GenData,
    hops: nat,
)
    requires
        rebound(a, b, c, k, h),
        follow(a, x, hops) is Some,
        a.get(follow(a, x, hops)->0)->0.handles().len() > 0,
    ensures
        follow(b, x, hops) == follow(a, x, hops),
    decreases hops,
{
    assert(a.live(x));
    match a.get(x) {
        Some(ValueView::Ref(t)) => {
            assert(a.get(x)->0.handles() =~= seq![t]);
            assert(x.pos != c.pos);
            lemma_rebound_follow(a, b, c, k, h, t, (hops - 1) as nat);
        },
        _ => {
            assert(a.get(weak(x)) == a.get(x));
            if x.pos == c.pos {
                assert(a.get(x) == a.get(c));
                assert(b.get(x) == b.get(c));
            }
        },
    }
}

/// A walk that ends where resolution can go on, and that starts in an
/// arena where the handle bound to `k` at `c` holds nothing, finds the same
/// after that binding was replaced.
pub proof fn lemma_rebound_walk(
    a: ArenaView,
    b: ArenaView,
    c: GenData,
    k: NodeView,
    h: GenData,
    x: GenData,
    path: Seq<NodeView>,
)
    requires
        a.wf(),
        rebound(a, b, c, k, h),
        tree_get(a.get(c)->0->Tree_0, k) is Some,
        holds_nothing(a, tree_get(a.get(c)->0->Tree_0, k)->0),
        walk_to(a, x, path) is Some,
        follow(a, walk_to(a, x, path)->0, MAX_REF_HOPS as nat) is Some,
        a.get(follow(a, walk_to(a, x, path)->0, MAX_REF_HOPS as nat)->0)->0.handles().len() > 0,
    ensures
        walk_to(b, x, path) == walk_to(a, x, path),
        follow(b, walk_to(a, x, path)->0, MAX_REF_HOPS as nat) == follow(
            a,
            walk_to(a, x, path)->0,
            MAX_REF_HOPS as nat,
        ),
    decreases path.len(),
{
    let d0 = tree_get(a.get(c)->0->Tree_0, k)->0;
    if path.len() == 0 {
        lemma_weak_start(a, x, path, MAX_REF_HOPS as nat);
        lemma_weak_start(b, x, path, MAX_REF_HOPS as nat);
        lemma_rebound_follow(a, b, c, k, h, x, MAX_REF_HOPS as nat);
    } else {
        lemma_follow_lands(a, x, MAX_REF_HOPS as nat);
        let c0 = follow(a, x, MAX_REF_HOPS as nat)->0;
        let n = a.get(c0)->0.child(path[0])->0;
        assert(a.live(c0));
        lemma_child_is_held(a.get(c0)->0, path[0]);
        lemma_rebound_follow(a, b, c, k, h, x, MAX_REF_HOPS as nat);
        let rest = path.drop_first();
        assert(walk_to(a, n, rest) == walk_to(a, x, path));
        if c0.pos == c.pos && path[0] == k {
            // the walk would go through the handle that holds nothing
            assert(a.get(c0) == a.get(c));
            assert(n == d0);
            if rest.len() == 0 {
                lemma_weak_start(a, d0, Seq::empty(), MAX_REF_HOPS as nat);
                lemma_follow_lands(a, d0, MAX_REF_HOPS as nat);
                assert(a.get(d0) is Some);
                if a.get(d0)->0 is Ref {
                    assert(a.get(d0)->0.handles() =~= seq![a.get(d0)->0->Ref_0]);
                }
                assert(false);
            } else {
                lemma_follow_lands(a, d0, MAX_REF_HOPS as nat);
                if a.get(d0)->0 is Ref {
                    assert(a.get(d0)->0.handles() =~= seq![a.get(d0)->0->Ref_0]);
                }
                let c1 = follow(a, d0, MAX_REF_HOPS as nat)->0;
                assert(a.get(weak(d0)) == a.get(d0));
                lemma_child_is_held(a.get(c1)->0, rest[0]);
                assert(false);
            }
        } else {
            if c0.pos == c.pos {
                assert(a.get(c0) == a.get(c));
                assert(b.get(c0) == b.get(c));
                lemma_tree_insert(a.get(c)->0->Tree_0, k, h);
            }
            assert(b.get(c0)->0.child(path[0]) == Some(n));
            lemma_rebound_walk(a, b, c, k, h, n, rest);
        }
    }
}

/// Giving up one handle that names nothing, or a value that holds no
/// handles, leaves every value that holds handles as it was.
pub proof fn lemma_release_leaf(g: ArenaView, d: GenData)
    requires
        g.wf(),
        holds_nothing(g, d),
    ensures
        g.release(seq![d]).wf(),
        forall|x: GenData| #[trigger]
            g.live(x) && g.get(x)->0.handles().len() > 0 ==> g.release(seq![d]).get(x) == g.get(x),
        forall|x: GenData| #[trigger]
            g.live(x) && x.pos != d.pos ==> g.release(seq![d]).get(x) == g.get(x),
{
    let step = g.release_one(d);
    g.lemma_release_one(d);
    assert(seq![d].last() == d);
    assert(seq![d].drop_last() =~= Seq::<GenData>::empty());
    if g.counts(d) {
        let it = g.items[d.pos as int];
        crate::ecs_ish::lemma_weight_update(
            g.items,
            d.pos as int,
            crate::ecs_ish::SlotView { rc: (it.rc - 1) as u64, ..it },
        );
        crate::ecs_ish::lemma_weight_update(
            g.items,
            d.pos as int,
            crate::ecs_ish::SlotView { val: None, gen: it.gen, rc: 0 },
        );
        assert(step.1 =~= Seq::<GenData>::empty());
        assert(seq![d].drop_last() + step.1 =~= Seq::<GenData>::empty());
        assert(g.release(seq![d]) == step.0.release(Seq::<GenData>::empty()));
        assert(g.release(seq![d]) == step.0);
    } else {
        assert(g.release(seq![d]) == g.release(Seq::<GenData>::empty()));
    }
}

/// A value written at a path whose last binding named nothing, or a value
/// that holds no handles, is what a read of the path returns afterwards.
/// This holds of any value but an indirection, which a read would follow.
/// The handle that was bound before must not be one that names, ahead of
/// time, the slot and generation that the new value is stored under; the
/// arena hands out no such handle.
pub proof fn lemma_overwrite_then_get(s: ScopeView, p: ProtoView, v: ValueView)
    requires
        s.wf(),
        v.wf(),
        !(v is Ref),
        s.arena.items.len() + p.v.len() < usize::MAX,
        s.set(p, v).res is Ok,
        walk_to(s.arena, select_base(s.bases, p)->0, p.v) is Some,
        holds_nothing(s.arena, walk_to(s.arena, select_base(s.bases, p)->0, p.v)->0),
        !walk_to(s.arena, select_base(s.bases, p)->0, p.v)->0.same_slot(s.arena.push_handle()),
    ensures
        (ScopeView { arena: s.set(p, v).arena, ..s }).get(p) == Some(v),
{
    let g = s.arena;
    let b = select_base(s.bases, p)->0;
    let path = p.v;
    let prefix = path.drop_last();
    let k = path.last();
    assert(prefix.push(k) =~= path);
    lemma_descend_same(g, b, prefix, k);
    let d = descend(g, b, prefix);
    assert(d.arena == g);
    lemma_descend(g, b, prefix);
    let cur = d.res->Ok_0;
    lemma_walk_to_snoc(g, b, prefix, k);
    lemma_walk_one(g, cur, k);
    lemma_follow_lands(g, cur, MAX_REF_HOPS as nat);
    let c = follow(g, cur, MAX_REF_HOPS as nat)->0;
    let t = g.get(c)->0->Tree_0;
    let d0 = tree_get(t, k)->0;
    assert(walk_to(g, b, path) == Some(weak(d0)));
    assert(g.get(weak(d0)) == g.get(d0));
    assert(holds_nothing(g, d0));
    let h = g.push_handle();
    lemma_push_extends(g, v);
    let g1 = g.push(v);
    g.lemma_push_keeps(v, c);
    let nv = ValueView::Tree(tree_insert(t, k, h));
    lemma_tree_insert(t, k, h);
    let g2 = g1.with_value(c.pos as int, nv);
    g1.lemma_with_value_wf(c.pos as int, nv);
    let g3 = g2.release(seq![d0]);
    assert(s.set(p, v).arena == g3);
    // the handle given up holds nothing in the arena it is given up in
    assert(g2.get(d0) is Some ==> g2.get(d0)->0.handles().len() == 0) by {
        if g2.get(d0) is Some {
            if d0.pos == c.pos {
                assert(g.get(d0) == g.get(c));
                crate::tree::lemma_tree_get_some(t, k);
                assert(tree_values(t)[crate::tree::lower(t, k) as int] == d0);
                assert(false);
            } else if d0.pos == h.pos {
                assert(g2.items[h.pos as int].gen == h.gen);
                assert(d0.gen != h.gen);
                assert(!g2.current(d0));
            } else {
                assert(g2.get(d0) == g.get(d0)) by {
                    if g.live(d0) {
                        g.lemma_push_keeps(v, d0);
                    } else {
                        if g.drops.len() > 0 {
                            assert(g.drops[g.drops.len() - 1] == g.drops.last());
                        }
                    }
                }
            }
        }
    }
    lemma_release_leaf(g2, d0);
    assert(rebound(g, g3, c, k, h)) by {
        assert(nv.handles().len() > 0) by {
            crate::tree::lemma_tree_get_at(tree_insert(t, k, h), crate::tree::lower(
                tree_insert(t, k, h),
                k,
            ) as int);
            crate::tree::lemma_tree_get_some(tree_insert(t, k, h), k);
        }
        assert(g2.get(c) == Some(nv));
        assert(g3.get(c) == Some(nv));
        assert forall|x: GenData| #[trigger]
            g.live(x) && g.get(x)->0.handles().len() > 0 && x.pos != c.pos implies g3.get(x)
            == g.get(x) by {
            g.lemma_push_keeps(v, x);
            assert(g2.get(x) == g.get(x));
        }
    }
    // the container holds handles, so the walk to it is as it was
    assert(g.get(c)->0.handles().len() > 0) by {
        crate::tree::lemma_tree_get_some(t, k);
        assert(tree_values(t).len() > 0);
    }
    lemma_rebound_walk(g, g3, c, k, h, b, prefix);
    lemma_walk_to_snoc(g3, b, prefix, k);
    lemma_walk_one(g3, cur, k);
    assert(walk_to(g3, b, path) == Some(weak(h)));
    assert(g2.get(h) == Some(v)) by {
        assert(g1.get(h) == Some(v));
        assert(h.pos != c.pos);
    }
    assert(g3.get(h) == Some(v)) by {
        assert(g2.live(h));
        if h.pos == d0.pos {
            // the handle given up is of another generation than the new
            assert(g2.items[h.pos as int].gen == h.gen);
            assert(!g2.counts(d0));
            assert(seq![d0].last() == d0);
            assert(seq![d0].drop_last() =~= Seq::<GenData>::empty());
            assert(g2.release(seq![d0]) == g2.release(Seq::<GenData>::empty()));
        }
    }
    assert(follow(g3, weak(h), MAX_REF_HOPS as nat) == Some(weak(h)));
}

/// Where a walk over a path and one more segment finds something, the
/// steps of a write over the path make nothing new.
pub proof fn lemma_descend_same(g: ArenaView, cur: GenData, path: Seq<NodeView>, k: NodeView)
    requires
        walk_to(g, cur, path.push(k)) is Some,
    ensures
        descend(g, cur, path).arena == g,
        descend(g, cur, path).res is Ok,
    decreases path.len(),
{
    if path.len() > 0 {
        assert(path.push(k).drop_first() =~= path.drop_first().push(k));
        assert(path.push(k)[0] == path[0]);
        lemma_follow_lands(g, cur, MAX_REF_HOPS as nat);
        let c = follow(g, cur, MAX_REF_HOPS as nat)->0;
        let n = g.get(c)->0.child(path[0])->0;
        lemma_weak_start(g, n, path.drop_first().push(k), 0);
        lemma_descend_same(g, weak(n), path.drop_first(), k);
    }
}

/// Whether following the indirections from `h` on passes the slot `pos`.
pub open spec fn follow_passes(g: ArenaView, h: GenData, hops: nat, pos: usize) -> bool
    decreases hops,
{
    g.get(h) is Some && (h.pos == pos || (g.get(h)->0 is Ref && hops > 0 && follow_passes(
        g,
        g.get(h)->0->Ref_0,
        (hops - 1) as nat,
        pos,
    )))
}

/// Whether the walk of `path` from `h`, with the indirections at its end,
/// passes the slot `pos`.
pub open spec fn walk_passes(g: ArenaView, h: GenData, path: Seq<NodeView>, pos: usize) -> bool
    decreases path.len(),
{
    follow_passes(g, h, MAX_REF_HOPS as nat, pos) || (path.len() > 0 && match follow(
        g,
        h,
        MAX_REF_HOPS as nat,
    ) {
        Some(c) => match g.get(c)->0.child(path[0]) {
            Some(n) => walk_passes(g, n, path.drop_first(), pos),
            None => false,
        },
        None => false,
    })
}

/// The map that a write at `path` from `base` binds its last segment in.
pub open spec fn container(g: ArenaView, base: GenData, path: Seq<NodeView>) -> GenData {
    follow(g, walk_to(g, base, path.drop_last())->0, MAX_REF_HOPS as nat)->0
}

/// Following passes the slot that it reaches.
pub proof fn lemma_follow_passes_end(g: ArenaView, h: GenData, hops: nat)
    requires
        follow(g, h, hops) is Some,
    ensures
        follow_passes(g, h, hops, follow(g, h, hops)->0.pos),
    decreases hops,
{
    if let Some(ValueView::Ref(t)) = g.get(h) {
        lemma_follow_passes_end(g, t, (hops - 1) as nat);
    }
}

/// Where every value that following passes is kept, but for the map at `c`,
/// which stays a map, following reaches the same.
pub proof fn lemma_kept_follow(a: ArenaView, b: ArenaView, c: GenData, x: GenData, hops: nat)
    requires
        a.live(c),
        a.get(c)->0 is Tree,
        b.get(c) is Some,
        b.get(c)->0 is Tree,
        follow(a, x, hops) is Some,
        forall|y: GenData| #[trigger]
            a.live(y) && follow_passes(a, x, hops, y.pos) && y.pos != c.pos ==> b.get(y) == a.get(y),
    ensures
        follow(b, x, hops) == follow(a, x, hops),
    decreases hops,
{
    assert(a.live(x));
    assert(follow_passes(a, x, hops, x.pos));
    if x.pos == c.pos {
        assert(a.get(x) == a.get(c));
        assert(b.get(x) == b.get(c));
    } else {
        assert(b.get(x) == a.get(x));
        if let Some(ValueView::Ref(t)) = a.get(x) {
            assert forall|y: GenData| #[trigger]
                a.live(y) && follow_passes(a, t, (hops - 1) as nat, y.pos) && y.pos
                    != c.pos implies b.get(y) == a.get(y) by {
                assert(follow_passes(a, x, hops, y.pos));
            }
            lemma_kept_follow(a, b, c, t, (hops - 1) as nat);
        }
    }
}

/// Where every value that a walk passes is kept, but for the map at `c`,
/// in which only the binding of `k` is replaced, and the walk does not pass
/// the value that `k` was bound to, the walk finds the same.
pub proof fn lemma_kept_walk(
    a: ArenaView,
    b: ArenaView,
    c: GenData,
    k: NodeView,
    h: GenData,
    x: GenData,
    path: Seq<NodeView>,
)
    requires
        a.wf(),
        a.live(c),
        a.get(c)->0 is Tree,
        tree_get(a.get(c)->0->Tree_0, k) is Some,
        b.get(c) == Some(ValueView::Tree(tree_insert(a.get(c)->0->Tree_0, k, h))),
        walk_to(a, x, path) is Some,
        follow(a, walk_to(a, x, path)->0, MAX_REF_HOPS as nat) is Some,
        forall|y: GenData| #[trigger]
            a.live(y) && walk_passes(a, x, path, y.pos) && y.pos != c.pos ==> b.get(y) == a.get(y),
        !(a.live(tree_get(a.get(c)->0->Tree_0, k)->0) && walk_passes(
            a,
            x,
            path,
            tree_get(a.get(c)->0->Tree_0, k)->0.pos,
        )),
    ensures
        walk_to(b, x, path) == walk_to(a, x, path),
        follow(b, walk_to(a, x, path)->0, MAX_REF_HOPS as nat) == follow(
            a,
            walk_to(a, x, path)->0,
            MAX_REF_HOPS as nat,
        ),
    decreases path.len(),
{
    let t = a.get(c)->0->Tree_0;
    let d0 = tree_get(t, k)->0;
    let m = MAX_REF_HOPS as nat;
    if path.len() == 0 {
        lemma_weak_start(a, x, path, m);
        lemma_weak_start(b, x, path, m);
        assert forall|y: GenData| #[trigger]
            a.live(y) && follow_passes(a, x, m, y.pos) && y.pos != c.pos implies b.get(y) == a.get(
            y,
        ) by {
            assert(walk_passes(a, x, path, y.pos));
        }
        lemma_kept_follow(a, b, c, x, m);
    } else {
        lemma_follow_lands(a, x, m);
        lemma_follow_passes_end(a, x, m);
        let c0 = follow(a, x, m)->0;
        let n = a.get(c0)->0.child(path[0])->0;
        let rest = path.drop_first();
        assert(a.live(c0));
        assert forall|y: GenData| #[trigger]
            a.live(y) && follow_passes(a, x, m, y.pos) && y.pos != c.pos implies b.get(y) == a.get(
            y,
        ) by {
            assert(walk_passes(a, x, path, y.pos));
        }
        lemma_kept_follow(a, b, c, x, m);
        assert(walk_to(a, n, rest) == walk_to(a, x, path));
        assert(walk_passes(a, x, path, c0.pos));
        if c0.pos == c.pos && path[0] == k {
            assert(a.get(c0) == a.get(c));
            assert(n == d0);
            // the walk would pass the value that is overwritten
            if rest.len() == 0 {
                lemma_weak_start(a, d0, Seq::empty(), m);
                lemma_follow_lands(a, d0, m);
            } else {
                lemma_follow_lands(a, d0, m);
            }
            assert(a.get(d0) is Some);
            assert(follow_passes(a, d0, m, d0.pos));
            assert(walk_passes(a, d0, rest, d0.pos));
            assert(walk_passes(a, x, path, d0.pos));
            assert(false);
        } else {
            if c0.pos == c.pos {
                assert(a.get(c0) == a.get(c));
                assert(b.get(c0) == b.get(c));
                lemma_tree_insert(t, k, h);
            } else {
                assert(b.get(c0) == a.get(c0));
            }
            assert(b.get(c0)->0.child(path[0]) == Some(n));
            assert forall|y: GenData| #[trigger]
                a.live(y) && walk_passes(a, n, rest, y.pos) && y.pos != c.pos implies b.get(y)
                == a.get(y) by {
                assert(walk_passes(a, x, path, y.pos));
            }
            assert(!(a.live(d0) && walk_passes(a, n, rest, d0.pos))) by {
                if walk_passes(a, n, rest, d0.pos) {
                    assert(walk_passes(a, x, path, d0.pos));
                }
            }
            lemma_kept_walk(a, b, c, k, h, n, rest);
        }
    }
}

/// A value written over a binding is what a read of the path returns
/// afterwards, whatever the value that was bound before holds, where the
/// write left the way to it alone: the value written is there after the
/// write; every value that the walk to the map of the last segment passes
/// is there as it was, but for that map itself, which is still there; and
/// that walk does not pass the value that is overwritten. This holds of
/// any value but an indirection, which a read would follow.
pub proof fn lemma_overwrite_kept_way(s: ScopeView, p: ProtoView, v: ValueView)
    requires
        s.wf(),
        v.wf(),
        !(v is Ref),
        s.arena.items.len() + p.v.len() < usize::MAX,
        s.set(p, v).res is Ok,
        walk_to(s.arena, select_base(s.bases, p)->0, p.v) is Some,
        s.set(p, v).arena.live(s.set(p, v).res->Ok_0),
        s.set(p, v).arena.live(container(s.arena, select_base(s.bases, p)->0, p.v)),
        forall|y: GenData| #[trigger]
            s.arena.live(y) && walk_passes(
                s.arena,
                select_base(s.bases, p)->0,
                p.v.drop_last(),
                y.pos,
            ) && y.pos != container(s.arena, select_base(s.bases, p)->0, p.v).pos ==> s.set(
                p,
                v,
            ).arena.get(y) == s.arena.get(y),
        !(s.arena.live(walk_to(s.arena, select_base(s.bases, p)->0, p.v)->0) && walk_passes(
            s.arena,
            select_base(s.bases, p)->0,
            p.v.drop_last(),
            walk_to(s.arena, select_base(s.bases, p)->0, p.v)->0.pos,
        )),
    ensures
        (ScopeView { arena: s.set(p, v).arena, ..s }).get(p) == Some(v),
{
    let g = s.arena;
    let b = select_base(s.bases, p)->0;
    let path = p.v;
    let prefix = path.drop_last();
    let k = path.last();
    let m = MAX_REF_HOPS as nat;
    assert(prefix.push(k) =~= path);
    lemma_descend_same(g, b, prefix, k);
    let d = descend(g, b, prefix);
    assert(d.arena == g);
    lemma_descend(g, b, prefix);
    let cur = d.res->Ok_0;
    lemma_walk_to_snoc(g, b, prefix, k);
    lemma_walk_one(g, cur, k);
    lemma_follow_lands(g, cur, m);
    let c = follow(g, cur, m)->0;
    assert(c == container(g, b, path));
    let t = g.get(c)->0->Tree_0;
    let d0 = tree_get(t, k)->0;
    assert(walk_to(g, b, path) == Some(weak(d0)));
    assert(g.live(weak(d0)) == g.live(d0));
    let h = g.push_handle();
    lemma_push_extends(g, v);
    let g1 = g.push(v);
    g.lemma_push_keeps(v, c);
    let nv = ValueView::Tree(tree_insert(t, k, h));
    lemma_tree_insert(t, k, h);
    let g2 = g1.with_value(c.pos as int, nv);
    g1.lemma_with_value_wf(c.pos as int, nv);
    let g3 = g2.release(seq![d0]);
    assert(s.set(p, v).arena == g3);
    assert(s.set(p, v).res->Ok_0 == weak(h));
    g2.lemma_release(seq![d0]);
    // what is there after the giving up is there as it was before it
    assert(g2.get(c) == Some(nv));
    assert(g3.get(c) == Some(nv));
    assert(g2.get(h) == Some(v)) by {
        assert(g1.get(h) == Some(v));
        assert(h.pos != c.pos);
    }
    assert(g3.live(weak(h)) == g3.live(h));
    assert(g3.get(h) == Some(v));
    lemma_kept_walk(g, g3, c, k, h, b, prefix);
    lemma_walk_to_snoc(g3, b, prefix, k);
    lemma_walk_one(g3, cur, k);
    assert(walk_to(g3, b, path) == Some(weak(h)));
    assert(g3.get(weak(h)) == g3.get(h));
    assert(follow(g3, weak(h), m) == Some(weak(h)));
}

/// Whether the write of `v` at `p` in `s` left the way to the value alone:
/// the value written is there after the write; every value that the walk
/// to the map of the last segment passes is there as it was, but for that
/// map itself, which is still there; and that walk does not pass the value
/// that is overwritten.
pub open spec fn kept_way(s: ScopeView, p: ProtoView, v: ValueView) -> bool {
    let b = select_base(s.bases, p)->0;
    let after = s.set(p, v).arena;
    &&& after.live(s.set(p, v).res->Ok_0)
    &&& after.live(container(s.arena, b, p.v))
    &&& forall|y: GenData| #[trigger]
        s.arena.live(y) && walk_passes(s.arena, b, p.v.drop_last(), y.pos) && y.pos != container(
            s.arena,
            b,
            p.v,
        ).pos ==> after.get(y) == s.arena.get(y)
    &&& !(s.arena.live(walk_to(s.arena, b, p.v)->0) && walk_passes(
        s.arena,
        b,
        p.v.drop_last(),
        walk_to(s.arena, b, p.v)->0.pos,
    ))
}

/// Whether what the path `p` names in `s` holds nothing, and is not a
/// handle that names, ahead of time, the slot and generation that the next
/// value is stored under.
pub open spec fn names_leaf(s: ScopeView, p: ProtoView) -> bool {
    let old = walk_to(s.arena, select_base(s.bases, p)->0, p.v)->0;
    holds_nothing(s.arena, old) && !old.same_slot(s.arena.push_handle())
}

/// A value that a write put at a path is what a read of the path returns
/// afterwards. This holds of any value but an indirection, which a read
/// would follow, in every state in which the path named nothing before, or
/// named a value that holds no handles, or in which the write left the way
/// to the value alone. The states left out
/// are those in which giving up the value that was bound before takes away
/// a value on the way, and those in which the way goes through the binding
/// that is overwritten: there the read finds something else, or nothing.
pub proof fn lemma_round_trip(s: ScopeView, p: ProtoView, v: ValueView)
    requires
        s.wf(),
        v.wf(),
        !(v is Ref),
        s.arena.items.len() + p.v.len() < usize::MAX,
        s.set(p, v).res is Ok,
        walk_to(s.arena, select_base(s.bases, p)->0, p.v) is None || names_leaf(s, p) || kept_way(
            s,
            p,
            v,
        ),
    ensures
        (ScopeView { arena: s.set(p, v).arena, ..s }).get(p) == Some(v),
{
    if walk_to(s.arena, select_base(s.bases, p)->0, p.v) is None {
        lemma_set_then_get(s, p, v);
    } else if names_leaf(s, p) {
        lemma_overwrite_then_get(s, p, v);
    } else {
        lemma_overwrite_kept_way(s, p, v);
    }
}

} // verus!
