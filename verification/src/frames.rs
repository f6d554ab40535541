//! What a frame keeps to itself: the law that writes at plain names inside
//! a frame do not reach the values of the caller.

use vstd::prelude::*;
use crate::ecs_ish::{ArenaView, GenData, SlotView, lemma_weight_update};
use crate::proto::NodeView;
use crate::scope::{
    Base, MAX_REF_HOPS, ScopeView, descend, follow, last_frame, place, select_base, unwind,
    walk, walk_to,
};
use crate::semantics::name_path;
use crate::tree::{
    lemma_tree_get_at, lemma_tree_get_none, lemma_tree_insert, tree_insert, tree_values,
};
use crate::value::{ValueView, weak};

verus! {

/// The innermost frame of a stack whose last base is a frame is that base.
pub proof fn lemma_last_frame_top(bases: Seq<Base>)
    requires
        bases.len() > 0,
        !bases.last().swap_off,
    ensures
        last_frame(bases) == bases.len() - 1,
        select_base(bases, name_path(Seq::empty())) == Some(bases.last().gd),
{
}

/// Giving up the one strong handle to a value that holds no handles
/// empties its slot and changes no other slot.
pub proof fn lemma_release_leaf_frees(g: ArenaView, d: GenData)
    requires
        g.wf(),
        d.strong,
        g.live(d),
        g.count(d) == 1,
        g.get(d)->0.handles().len() == 0,
    ensures
        g.release(seq![d]).wf(),
        !g.release(seq![d]).live(d),
        g.release(seq![d]).items.len() == g.items.len(),
        forall|x: GenData| #[trigger]
            g.live(x) && x.pos != d.pos ==> g.release(seq![d]).get(x) == g.get(x)
                && g.release(seq![d]).count(x) == g.count(x),
{
    let step = g.release_one(d);
    g.lemma_release_one(d);
    assert(seq![d].last() == d);
    let it = g.items[d.pos as int];
    lemma_weight_update(g.items, d.pos as int, SlotView { val: None, gen: it.gen, rc: 0 });
    assert(g.counts(d));
    assert(step.1 =~= Seq::<GenData>::empty());
    assert(seq![d].drop_last() + step.1 =~= Seq::<GenData>::empty());
    assert(g.release(seq![d]) == step.0.release(Seq::<GenData>::empty()));
    assert(g.release(seq![d]) == step.0);
}

/// A function whose parameter has the name of a binding of its caller
/// does not reach that binding. In a frame that was just entered, a value
/// bound to a plain name and then overwritten there is what the frame
/// reads under the name; every value that was there before the frame is as
/// it was, while the frame stands and after it was left; and leaving the
/// frame gives back the stack as it was. This is stated of values that
/// hold no handles.
pub proof fn lemma_frame_writes_are_local(s: ScopeView, name: Seq<char>, v: ValueView, w: ValueView)
    requires
        s.wf(),
        v.wf(),
        w.wf(),
        v.handles().len() == 0,
        w.handles().len() == 0,
        s.arena.items.len() + 3 < usize::MAX,
    ensures
        s.push_frame().bind(name, v).bind(name, w).get(name_path(name)) == Some(w),
        s.push_frame().bind(name, v).bind(name, w).pop_frame().bases == s.bases,
        forall|h: GenData| #[trigger]
            s.arena.live(h) ==> {
                &&& s.push_frame().bind(name, v).arena.get(h) == s.arena.get(h)
                &&& s.push_frame().bind(name, v).bind(name, w).arena.get(h) == s.arena.get(h)
                &&& s.push_frame().bind(name, v).bind(name, w).pop_frame().arena.get(h)
                    == s.arena.get(h)
            },
{
    let k = NodeView::Str(name);
    let p = name_path(name);
    let path = seq![k];
    let e = ValueView::Tree(Seq::empty());
    let g0 = s.arena;
    let fr = g0.push_handle();
    g0.lemma_push_wf(e);
    let s1 = s.push_frame();
    let g1 = s1.arena;
    assert(s1.bases.last() == (Base { gd: fr, swap_off: false }));
    lemma_last_frame_top(s1.bases);
    assert(select_base(s1.bases, p) == Some(fr));
    assert(path.drop_last() =~= Seq::<NodeView>::empty());
    assert(path.last() == k);
    // the first write
    assert(g1.get(weak(fr)) == g1.get(fr));
    assert(follow(g1, weak(fr), MAX_REF_HOPS as nat) == Some(weak(fr)));
    assert(descend(g1, fr, Seq::empty()).arena == g1);
    lemma_tree_get_none(Seq::empty(), k);
    let h1 = g1.push_handle();
    g1.lemma_push_wf(v);
    g1.lemma_push_keeps(v, fr);
    let t1 = tree_insert(Seq::empty(), k, h1);
    lemma_tree_insert(Seq::empty(), k, h1);
    let g2 = g1.push(v).with_value(fr.pos as int, ValueView::Tree(t1));
    g1.push(v).lemma_with_value_wf(fr.pos as int, ValueView::Tree(t1));
    assert(place(g1, weak(fr), k, v).arena == g2);
    let s2 = s1.bind(name, v);
    assert(s2.arena == g2);
    assert(s2.bases == s1.bases);
    // the second write
    assert(g2.get(fr) == Some(ValueView::Tree(t1)));
    assert(g2.get(weak(fr)) == g2.get(fr));
    assert(follow(g2, weak(fr), MAX_REF_HOPS as nat) == Some(weak(fr)));
    assert(descend(g2, fr, Seq::empty()).arena == g2);
    let h2 = g2.push_handle();
    g2.lemma_push_wf(w);
    g2.lemma_push_keeps(w, fr);
    assert(g2.live(h1));
    g2.lemma_push_keeps(w, h1);
    let t2 = tree_insert(t1, k, h2);
    lemma_tree_insert(t1, k, h2);
    let g3 = g2.push(w).with_value(fr.pos as int, ValueView::Tree(t2));
    g2.push(w).lemma_with_value_wf(fr.pos as int, ValueView::Tree(t2));
    assert(g3.get(h1) == Some(v));
    assert(g3.count(h1) == 1);
    lemma_release_leaf_frees(g3, h1);
    let g4 = g3.release(seq![h1]);
    assert(place(g2, weak(fr), k, w).arena == g4);
    let s3 = s2.bind(name, w);
    assert(s3.arena == g4);
    assert(s3.bases == s1.bases);
    // what the frame reads
    assert(h1.pos != fr.pos);
    assert(h2.pos != fr.pos);
    assert(h2.pos != h1.pos);
    assert(g1.count(fr) == 1);
    assert(g2.count(fr) == 1);
    assert(g3.count(fr) == 1);
    assert(g3.live(fr));
    assert(g3.get(h2) == Some(w));
    assert(g3.count(h2) == 1);
    assert(g3.live(h2));
    assert(g4.get(fr) == Some(ValueView::Tree(t2)));
    assert(g4.get(h2) == Some(w));
    assert(!(w is Ref)) by {
        if w is Ref {
            assert(w.handles() =~= seq![w->Ref_0]);
        }
    }
    assert(g4.get(weak(fr)) == g4.get(fr));
    assert(g4.get(weak(h2)) == g4.get(h2));
    assert(follow(g4, fr, MAX_REF_HOPS as nat) == Some(weak(fr)));
    assert(follow(g4, weak(h2), MAX_REF_HOPS as nat) == Some(weak(h2)));
    assert(path.drop_first() =~= Seq::<NodeView>::empty());
    assert(walk_to(g4, h2, Seq::empty()) == Some(weak(h2)));
    assert(walk_to(g4, fr, path) == Some(weak(h2)));
    assert(walk(g4, fr, path) == Some(weak(h2)));
    // leaving the frame
    assert(s3.bases.drop_last() =~= s.bases);
    assert(s3.bases.len() > 1);
    assert(unwind(s3.bases, g4).0 == s.bases);
    let g5 = g4.release(seq![fr]);
    assert(unwind(s3.bases, g4).1 == g5);
    assert(s3.pop_frame().arena == g5);
    // the frame's map goes, and with it the value bound in it
    assert(g4.count(fr) == 1);
    let step = g4.release_one(fr);
    g4.lemma_release_one(fr);
    lemma_tree_get_at(t2, crate::tree::lower(t2, k) as int);
    assert(t2 =~= seq![(k, h2)]) by {
        lemma_tree_get_at(t1, 0);
        assert(t1 =~= seq![(k, h1)]);
    }
    assert(tree_values(t2) =~= seq![h2]);
    assert(step.1 == seq![h2]);
    assert(seq![fr].last() == fr);
    let it = g4.items[fr.pos as int];
    lemma_weight_update(g4.items, fr.pos as int, SlotView { val: None, gen: it.gen, rc: 0 });
    assert(seq![fr].drop_last() + step.1 =~= seq![h2]);
    assert(g5 == step.0.release(seq![h2]));
    assert(step.0.get(h2) == Some(w));
    assert(step.0.count(h2) == 1);
    lemma_release_leaf_frees(step.0, h2);
    assert forall|h: GenData| #[trigger] s.arena.live(h) implies {
        &&& s.push_frame().bind(name, v).arena.get(h) == s.arena.get(h)
        &&& s.push_frame().bind(name, v).bind(name, w).arena.get(h) == s.arena.get(h)
        &&& s.push_frame().bind(name, v).bind(name, w).pop_frame().arena.get(h) == s.arena.get(
            h,
        )
    } by {
        g0.lemma_push_keeps(e, h);
        assert(g1.live(h));
        g1.lemma_push_keeps(v, h);
        assert(g2.get(h) == g0.get(h));
        g2.lemma_push_keeps(w, h);
        assert(g3.get(h) == g0.get(h));
        assert(h.pos != h1.pos);
        assert(g4.get(h) == g0.get(h));
        assert(h.pos != fr.pos);
        assert(step.0.get(h) == g0.get(h));
        assert(h.pos != h2.pos);
    }
}

} // verus!
