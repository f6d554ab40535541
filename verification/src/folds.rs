//! What a fold adds up: the law that folding a list of numbers with a
//! function that adds each to the accumulator leaves their sum.

use vstd::prelude::*;
use crate::action::{AcReturn, ActionView};
use crate::ecs_ish::{GenData};
use crate::error::ActionErrorView;
use crate::expr::{ExprView, Op};
use crate::paths::{holds_nothing, lemma_release_leaf, lemma_walk_one};
use crate::proto::NodeView;
use crate::scope::{Base, Eval, MAX_REF_HOPS, ScopeView, descend, follow, place, select_base, walk};
use crate::semantics::{
    Ran, action_spec, actions_spec, apply_op, bind_round, eval_path_spec, eval_spec,
    iterate_spec, name_path, round_value, rounds, rounds_spec,
};
use crate::tree::{TreeView, lemma_tree_get_none, lemma_tree_insert, tree_get, tree_insert};
use crate::value::{ValueView, add_spec, fits, strengthen, strong_view, weak, weak_view};

verus! {

/// The sum of the numbers `nums[i..]`.
pub open spec fn sum_from(nums: Seq<isize>, i: nat) -> int
    decreases nums.len() - i,
{
    if i >= nums.len() {
        0
    } else {
        nums[i as int] + sum_from(nums, i + 1)
    }
}

/// Whether `acc` and each sum of `acc` and the first numbers of
/// `nums[i..]` is a number of the language.
pub open spec fn sums_fit(nums: Seq<isize>, i: nat, acc: int) -> bool
    decreases nums.len() - i,
{
    if i >= nums.len() {
        true
    } else {
        fits(acc + nums[i as int]) && sums_fit(nums, i + 1, acc + nums[i as int])
    }
}

/// The body of a function that returns the sum of the accumulator and of
/// its parameter `name`.
pub open spec fn adding_body(name: Seq<char>) -> Seq<ActionView> {
    seq![
        ActionView::Resolve(
            ExprView::Oper(
                Op::Add,
                Box::new(ExprView::Ident("fold"@)),
                Box::new(ExprView::Ident(name)),
            ),
        ),
    ]
}

/// Whether the innermost frame of `st` is the map at `fr`, on top of the
/// stack.
pub open spec fn in_frame(st: ScopeView, fr: GenData) -> bool {
    &&& st.wf()
    &&& st.bases.last() == (Base { gd: fr, swap_off: false })
    &&& st.arena.live(fr)
    &&& st.arena.get(fr)->0 is Tree
}

/// The map of the frame at `fr`.
pub open spec fn frame_map(st: ScopeView, fr: GenData) -> TreeView {
    st.arena.get(fr)->0->Tree_0
}

/// A plain name starts at the innermost frame.
pub proof fn lemma_name_base(st: ScopeView, fr: GenData, name: Seq<char>)
    requires
        in_frame(st, fr),
    ensures
        select_base(st.bases, name_path(name)) == Some(fr),
        follow(st.arena, fr, MAX_REF_HOPS as nat) == Some(weak(fr)),
        follow(st.arena, weak(fr), MAX_REF_HOPS as nat) == Some(weak(fr)),
{
    assert(st.arena.get(weak(fr)) == st.arena.get(fr));
}

/// Binding a value that holds no handles to a plain name in the innermost
/// frame stores the value in a slot that held nothing, binds the name to it
/// in the map of the frame, and leaves every other value as it was, but for
/// the value that the name was bound to before, which must be one that is
/// there and holds no handles.
pub proof fn lemma_bind_frame(st: ScopeView, fr: GenData, name: Seq<char>, v: ValueView)
    requires
        in_frame(st, fr),
        v.wf(),
        st.arena.items.len() < usize::MAX,
        tree_get(frame_map(st, fr), NodeView::Str(name)) is Some ==> {
            &&& st.arena.live(tree_get(frame_map(st, fr), NodeView::Str(name))->0)
            &&& st.arena.get(
                tree_get(frame_map(st, fr), NodeView::Str(name))->0,
            )->0.handles().len() == 0
            &&& tree_get(frame_map(st, fr), NodeView::Str(name))->0.pos != fr.pos
        },
    ensures
        in_frame(st.bind(name, v), fr),
        st.bind(name, v).bases == st.bases,
        st.bind(name, v).loads == st.loads,
        st.bind(name, v).rolls == st.rolls,
        frame_map(st.bind(name, v), fr) == tree_insert(
            frame_map(st, fr),
            NodeView::Str(name),
            st.arena.push_handle(),
        ),
        st.bind(name, v).arena.get(st.arena.push_handle()) == Some(v),
        !st.arena.live(st.arena.push_handle()),
        st.arena.push_handle().pos != fr.pos,
        forall|x: GenData| #[trigger] st.arena.live(x) ==> st.arena.push_handle().pos != x.pos,
        st.bind(name, v).arena.items.len() <= st.arena.items.len() + 1,
        forall|x: GenData| #[trigger]
            st.arena.live(x) && x.pos != fr.pos && !(tree_get(
                frame_map(st, fr),
                NodeView::Str(name),
            ) is Some && x.pos == tree_get(frame_map(st, fr), NodeView::Str(name))->0.pos)
                ==> st.bind(name, v).arena.get(x) == st.arena.get(x),
{
    let g = st.arena;
    let k = NodeView::Str(name);
    let path = seq![k];
    let t = frame_map(st, fr);
    lemma_name_base(st, fr, name);
    assert(path.drop_last() =~= Seq::<NodeView>::empty());
    assert(path.last() == k);
    assert(descend(g, fr, Seq::empty()).arena == g);
    let h = g.push_handle();
    g.lemma_push_wf(v);
    g.lemma_push_keeps(v, fr);
    let nt = tree_insert(t, k, h);
    lemma_tree_insert(t, k, h);
    let g1 = g.push(v);
    let g2 = g1.with_value(fr.pos as int, ValueView::Tree(nt));
    g1.lemma_with_value_wf(fr.pos as int, ValueView::Tree(nt));
    let d = tree_get(t, k);
    let g3 = match d {
        Some(d0) => g2.release(seq![d0]),
        None => g2,
    };
    assert(place(g, weak(fr), k, v).arena == g3);
    assert(st.bind(name, v).arena == g3);
    assert(g2.items.len() <= g.items.len() + 1);
    if d is Some {
        let d0 = d->0;
        g.lemma_push_keeps(v, d0);
        assert(g2.get(d0) == g.get(d0));
        assert(holds_nothing(g2, d0));
        lemma_release_leaf(g2, d0);
        g2.lemma_release(seq![d0]);
        assert(h.pos != d0.pos);
        assert(g2.live(fr));
        assert(g2.live(h));
    }
    assert(g3.get(fr) == Some(ValueView::Tree(nt)));
    assert(g3.get(h) == Some(v));
    assert forall|x: GenData| #[trigger] st.arena.live(x) implies h.pos != x.pos by {
        g.lemma_push_keeps(v, x);
    }
    assert forall|x: GenData| #[trigger]
        st.arena.live(x) && x.pos != fr.pos && !(d is Some && x.pos == d->0.pos) implies g3.get(x)
        == g.get(x) by {
        g.lemma_push_keeps(v, x);
        assert(g2.get(x) == g.get(x));
        assert(g2.live(x));
    }
}

/// A plain name that the map of the innermost frame binds to a number
/// reads as that number, and the read changes nothing.
pub proof fn lemma_read_frame(st: ScopeView, fr: GenData, name: Seq<char>, x: isize)
    requires
        in_frame(st, fr),
        tree_get(frame_map(st, fr), NodeView::Str(name)) is Some,
        st.arena.get(tree_get(frame_map(st, fr), NodeView::Str(name))->0) == Some(
            ValueView::Num(x),
        ),
    ensures
        st.read(name_path(name)) == (Eval { res: Ok(ValueView::Num(x)), scope: st }),
{
    let g = st.arena;
    let k = NodeView::Str(name);
    let h = tree_get(frame_map(st, fr), k)->0;
    lemma_name_base(st, fr, name);
    lemma_walk_one(g, fr, k);
    assert(g.get(weak(h)) == g.get(h));
    assert(follow(g, weak(h), MAX_REF_HOPS as nat) == Some(weak(h)));
    assert(walk(g, fr, seq![k]) == Some(weak(h)));
    assert(st.find(name_path(name)) == Some(weak(h)));
    let v = ValueView::Num(x);
    assert(weak_view(v) == v);
    assert(v.handles() =~= Seq::<GenData>::empty());
    assert(strengthen(v.handles(), g) == (v.handles(), g));
    assert(strong_view(v, g) == (v, g));
    assert(st.with_arena(g) == st);
}

/// The name that a round binds the element to: `v` for a function without
/// parameters, the one parameter, or the second of more.
pub open spec fn value_name(params: Seq<Seq<char>>) -> Seq<char> {
    if params.len() == 0 {
        "v"@
    } else if params.len() == 1 {
        params[0]
    } else {
        params[1]
    }
}

/// The name that a round binds the index of the element to, if it binds
/// it: `k` for a function without parameters, the first of two or more.
pub open spec fn key_name(params: Seq<Seq<char>>) -> Option<Seq<char>> {
    if params.len() == 0 {
        Some("k"@)
    } else if params.len() == 1 {
        None
    } else {
        Some(params[0])
    }
}

/// Whether the names that a round binds are apart from one another and
/// from the name of the accumulator.
pub open spec fn names_apart(params: Seq<Seq<char>>) -> bool {
    &&& value_name(params) != "fold"@
    &&& (key_name(params) is Some ==> key_name(params)->0 != "fold"@ && key_name(params)->0
        != value_name(params))
}

/// The handle that the map of the frame at `fr` binds `name` to.
pub open spec fn held(st: ScopeView, fr: GenData, name: Seq<char>) -> GenData {
    tree_get(frame_map(st, fr), NodeView::Str(name))->0
}

/// Whether the map of the frame at `fr` binds `name`.
pub open spec fn bound(st: ScopeView, fr: GenData, name: Seq<char>) -> bool {
    tree_get(frame_map(st, fr), NodeView::Str(name)) is Some
}

/// Whether the frame at `fr` binds `name` to a number, in a slot other than
/// that of the frame.
pub open spec fn binds_number(st: ScopeView, fr: GenData, name: Seq<char>) -> bool {
    &&& bound(st, fr, name)
    &&& st.arena.get(held(st, fr, name)) is Some
    &&& st.arena.get(held(st, fr, name))->0 is Num
    &&& held(st, fr, name).pos != fr.pos
}

/// Whether the frame at `fr` binds `name` to the number `x`.
pub open spec fn binds(st: ScopeView, fr: GenData, name: Seq<char>, x: isize) -> bool {
    binds_number(st, fr, name) && st.arena.get(held(st, fr, name)) == Some(ValueView::Num(x))
}

/// Whether the frame at `fr` does not bind `name`, or binds it to a number.
pub open spec fn loose(st: ScopeView, fr: GenData, name: Seq<char>) -> bool {
    bound(st, fr, name) ==> binds_number(st, fr, name)
}

/// Whether the slots that the frame at `fr` binds `a` and `b` to differ,
/// where it binds both.
pub open spec fn apart(st: ScopeView, fr: GenData, a: Seq<char>, b: Seq<char>) -> bool {
    bound(st, fr, a) && bound(st, fr, b) ==> held(st, fr, a).pos != held(st, fr, b).pos
}

/// Whether the slot of `x` is not the one that the frame at `fr` binds
/// `name` to.
pub open spec fn clear(st: ScopeView, fr: GenData, name: Seq<char>, x: GenData) -> bool {
    bound(st, fr, name) ==> x.pos != held(st, fr, name).pos
}

/// Whether `st` is a context at the start of a round of a function with the
/// parameters `params`: its innermost frame is the map at `fr`, which binds
/// the accumulator to the number `acc`, the name of the element to the
/// number `n`, and the name of the index, where the round binds one, to a
/// number.
pub open spec fn round_ready(
    st: ScopeView,
    fr: GenData,
    params: Seq<Seq<char>>,
    acc: isize,
    n: isize,
) -> bool {
    &&& in_frame(st, fr)
    &&& binds(st, fr, "fold"@, acc)
    &&& binds(st, fr, value_name(params), n)
    &&& (key_name(params) is Some ==> binds_number(st, fr, key_name(params)->0))
}

/// Whether the function with the parameters `params` and the body `body`
/// adds the element to the accumulator: started in any context that is
/// ready for a round, it returns the sum of the accumulator and of the
/// element, if that is a number of the language, and leaves the context as
/// it was.
pub open spec fn adds(params: Seq<Seq<char>>, body: Seq<ActionView>, fuel: nat) -> bool {
    forall|st: ScopeView, fr: GenData, acc: isize, n: isize| #[trigger]
        round_ready(st, fr, params, acc, n) && fits(acc + n) ==> {
            &&& actions_spec(body, 0, st, fuel).scope == st
            &&& actions_spec(body, 0, st, fuel).res is Ok
            &&& (actions_spec(body, 0, st, fuel).res->Ok_0).1 == ValueView::Num((acc + n) as isize)
        }
}

/// Whether `st` is a context in the middle of a fold over the list `l` of
/// the numbers `nums` with a function of the parameters `params`: its
/// innermost frame is the map at `fr`, which binds the accumulator to the
/// number `acc`; what the frame binds to the names of a round, if anything,
/// are numbers in slots of their own; and the elements of the list are
/// there, in slots of their own.
pub open spec fn folding(
    st: ScopeView,
    fr: GenData,
    l: Seq<GenData>,
    nums: Seq<isize>,
    acc: isize,
    params: Seq<Seq<char>>,
) -> bool {
    let vn = value_name(params);
    let kn = key_name(params);
    &&& in_frame(st, fr)
    &&& binds(st, fr, "fold"@, acc)
    &&& loose(st, fr, vn)
    &&& apart(st, fr, "fold"@, vn)
    &&& (kn is Some ==> loose(st, fr, kn->0) && apart(st, fr, "fold"@, kn->0) && apart(
        st,
        fr,
        kn->0,
        vn,
    ))
    &&& l.len() == nums.len()
    &&& forall|i: int|
        0 <= i < l.len() ==> {
            &&& st.arena.get(#[trigger] l[i]) == Some(ValueView::Num(nums[i]))
            &&& l[i].pos != fr.pos
            &&& clear(st, fr, "fold"@, l[i])
            &&& clear(st, fr, vn, l[i])
            &&& (kn is Some ==> clear(st, fr, kn->0, l[i]))
        }
}

/// Binding a number to a plain name that the innermost frame does not
/// bind, or binds to a number, binds the name to the number in a slot that
/// held nothing, and leaves every other value as it was, but for the number
/// that the name was bound to before.
pub proof fn lemma_bind_number(st: ScopeView, fr: GenData, name: Seq<char>, x: isize)
    requires
        in_frame(st, fr),
        loose(st, fr, name),
        st.arena.items.len() < usize::MAX,
    ensures
        in_frame(st.bind(name, ValueView::Num(x)), fr),
        st.bind(name, ValueView::Num(x)).bases == st.bases,
        binds(st.bind(name, ValueView::Num(x)), fr, name, x),
        held(st.bind(name, ValueView::Num(x)), fr, name) == st.arena.push_handle(),
        frame_map(st.bind(name, ValueView::Num(x)), fr) == tree_insert(
            frame_map(st, fr),
            NodeView::Str(name),
            st.arena.push_handle(),
        ),
        st.bind(name, ValueView::Num(x)).arena.items.len() <= st.arena.items.len() + 1,
        forall|y: GenData| #[trigger] st.arena.live(y) ==> st.arena.push_handle().pos != y.pos,
        forall|y: GenData| #[trigger]
            st.arena.live(y) && y.pos != fr.pos && clear(st, fr, name, y) ==> st.bind(
                name,
                ValueView::Num(x),
            ).arena.get(y) == st.arena.get(y),
{
    let v = ValueView::Num(x);
    if bound(st, fr, name) {
        let d = held(st, fr, name);
        assert(st.arena.get(d)->0.handles() =~= Seq::<GenData>::empty());
    }
    lemma_bind_frame(st, fr, name, v);
    lemma_tree_insert(frame_map(st, fr), NodeView::Str(name), st.arena.push_handle());
}

/// Binding a number to a name leaves what the frame binds to another name
/// as it was, where the two are bound in slots apart.
pub proof fn lemma_bind_keeps(
    st: ScopeView,
    fr: GenData,
    name: Seq<char>,
    x: isize,
    other: Seq<char>,
)
    requires
        in_frame(st, fr),
        loose(st, fr, name),
        loose(st, fr, other),
        apart(st, fr, name, other),
        other != name,
        st.arena.items.len() < usize::MAX,
    ensures
        bound(st.bind(name, ValueView::Num(x)), fr, other) == bound(st, fr, other),
        held(st.bind(name, ValueView::Num(x)), fr, other) == held(st, fr, other),
        loose(st.bind(name, ValueView::Num(x)), fr, other),
        apart(st.bind(name, ValueView::Num(x)), fr, name, other),
        bound(st, fr, other) ==> st.bind(name, ValueView::Num(x)).arena.get(held(st, fr, other))
            == st.arena.get(held(st, fr, other)),
{
    lemma_bind_number(st, fr, name, x);
    lemma_tree_insert(frame_map(st, fr), NodeView::Str(name), st.arena.push_handle());
    assert(NodeView::Str(other) != NodeView::Str(name));
    if bound(st, fr, other) {
        let ho = held(st, fr, other);
        assert(st.arena.live(ho));
        assert(clear(st, fr, name, ho));
    }
}

/// One round of a fold with a function that adds takes the element into
/// the accumulator.
pub proof fn lemma_adding_round(
    st: ScopeView,
    fr: GenData,
    l: Seq<GenData>,
    nums: Seq<isize>,
    acc: isize,
    params: Seq<Seq<char>>,
    body: Seq<ActionView>,
    i: nat,
    fuel: nat,
) -> (next: ScopeView)
    requires
        folding(st, fr, l, nums, acc, params),
        names_apart(params),
        adds(params, body, fuel),
        i < l.len(),
        l.len() <= isize::MAX,
        fits(acc + nums[i as int]),
        st.arena.items.len() + 3 < usize::MAX,
    ensures
        folding(next, fr, l, nums, (acc + nums[i as int]) as isize, params),
        next.arena.items.len() <= st.arena.items.len() + 3,
        next.bases == st.bases,
        rounds_spec(ValueView::List(l), i, params, body, st, fuel) == rounds_spec(
            ValueView::List(l),
            i + 1,
            params,
            body,
            next,
            fuel,
        ),
{
    let src = ValueView::List(l);
    let ni = nums[i as int];
    let vn = value_name(params);
    let kn = key_name(params);
    let f = "fold"@;
    // the value of the round
    let vi = ValueView::Num(ni);
    let ki = ValueView::Num(i as isize);
    assert(st.arena.get(l[i as int]) == Some(vi));
    assert(weak_view(vi) == vi);
    assert(vi.handles() =~= Seq::<GenData>::empty());
    assert(strengthen(vi.handles(), st.arena) == (vi.handles(), st.arena));
    assert(strong_view(vi, st.arena) == (vi, st.arena));
    assert(st.with_arena(st.arena) == st);
    assert(round_value(src, i, st) == (Eval { res: Ok(vi), scope: st }));
    // the index is bound, where the function takes one
    let s0 = if kn is Some {
        st.bind(kn->0, ki)
    } else {
        st
    };
    if kn is Some {
        lemma_bind_number(st, fr, kn->0, i as isize);
        lemma_bind_keeps(st, fr, kn->0, i as isize, f);
        lemma_bind_keeps(st, fr, kn->0, i as isize, vn);
        assert forall|j: int| 0 <= j < l.len() implies s0.arena.get(#[trigger] l[j]) == Some(
            ValueView::Num(nums[j]),
        ) && clear(s0, fr, kn->0, l[j]) && clear(s0, fr, f, l[j]) && clear(s0, fr, vn, l[j]) by {
            assert(st.arena.live(l[j]));
        }
        assert(apart(s0, fr, f, vn));
    }
    assert(in_frame(s0, fr));
    assert(binds(s0, fr, f, acc));
    assert(loose(s0, fr, vn));
    // the element is bound
    let s1 = s0.bind(vn, vi);
    assert(bind_round(params, ki, vi, st) == s1);
    lemma_bind_number(s0, fr, vn, ni);
    lemma_bind_keeps(s0, fr, vn, ni, f);
    if kn is Some {
        lemma_bind_keeps(s0, fr, vn, ni, kn->0);
    }
    assert forall|j: int| 0 <= j < l.len() implies s1.arena.get(#[trigger] l[j]) == Some(
        ValueView::Num(nums[j]),
    ) && clear(s1, fr, vn, l[j]) && clear(s1, fr, f, l[j]) && (kn is Some ==> clear(
        s1,
        fr,
        kn->0,
        l[j],
    )) by {
        assert(s0.arena.live(l[j]));
    }
    // the function adds
    assert(round_ready(s1, fr, params, acc, ni));
    let r = actions_spec(body, 0, s1, fuel);
    let total = (acc + ni) as isize;
    let vt = ValueView::Num(total);
    assert(r.scope == s1);
    assert((r.res->Ok_0).1 == vt);
    // the sum becomes the accumulator
    let s2 = s1.bind(f, vt);
    lemma_bind_number(s1, fr, f, total);
    lemma_bind_keeps(s1, fr, f, total, vn);
    if kn is Some {
        lemma_bind_keeps(s1, fr, f, total, kn->0);
        lemma_tree_insert(frame_map(s1, fr), NodeView::Str(f), s1.arena.push_handle());
    }
    assert forall|j: int| 0 <= j < l.len() implies s2.arena.get(#[trigger] l[j]) == Some(
        ValueView::Num(nums[j]),
    ) && clear(s2, fr, f, l[j]) && clear(s2, fr, vn, l[j]) && (kn is Some ==> clear(
        s2,
        fr,
        kn->0,
        l[j],
    )) by {
        assert(s1.arena.live(l[j]));
    }
    s2
}

/// The rounds of a fold with a function that adds leave the sum of the
/// accumulator and of the elements that are left in the accumulator.
pub proof fn lemma_adding_rounds(
    st: ScopeView,
    fr: GenData,
    l: Seq<GenData>,
    nums: Seq<isize>,
    acc: isize,
    params: Seq<Seq<char>>,
    body: Seq<ActionView>,
    i: nat,
    fuel: nat,
) -> (last: ScopeView)
    requires
        folding(st, fr, l, nums, acc, params),
        names_apart(params),
        adds(params, body, fuel),
        i <= l.len(),
        l.len() <= isize::MAX,
        sums_fit(nums, i, acc as int),
        st.arena.items.len() + 3 * (l.len() - i) < usize::MAX,
    ensures
        fits(acc + sum_from(nums, i)),
        folding(last, fr, l, nums, (acc + sum_from(nums, i)) as isize, params),
        last.bases == st.bases,
        rounds_spec(ValueView::List(l), i, params, body, st, fuel) == (Eval {
            res: Ok(ValueView::Null),
            scope: last,
        }),
    decreases l.len() - i,
{
    assert(rounds(ValueView::List(l)) == l.len());
    if i >= l.len() {
        st
    } else {
        let next = lemma_adding_round(st, fr, l, nums, acc, params, body, i, fuel);
        lemma_adding_rounds(
            next,
            fr,
            l,
            nums,
            (acc + nums[i as int]) as isize,
            params,
            body,
            i + 1,
            fuel,
        )
    }
}

/// A fold over a list of numbers with any function that adds the element
/// to the accumulator, seeded with the number `a`, returns the sum of `a`
/// and of all the numbers, whenever each sum on the way is a number of the
/// language. The names that a round binds must be apart from one another
/// and from `fold`.
pub proof fn lemma_fold_sums_any(
    s: ScopeView,
    l: Seq<GenData>,
    nums: Seq<isize>,
    a: isize,
    params: Seq<Seq<char>>,
    body: Seq<ActionView>,
    fuel: nat,
)
    requires
        s.wf(),
        names_apart(params),
        fuel > 0,
        adds(params, body, (fuel - 1) as nat),
        l.len() == nums.len(),
        l.len() <= isize::MAX,
        forall|i: int| 0 <= i < l.len() ==> s.arena.get(#[trigger] l[i]) == Some(
            ValueView::Num(nums[i]),
        ),
        sums_fit(nums, 0, a as int),
        s.arena.items.len() + 3 * l.len() + 2 < usize::MAX,
    ensures
        iterate_spec(
            Some(ValueView::Num(a)),
            ValueView::List(l),
            ValueView::FuncDef(params, body),
            s,
            fuel,
        ).res == Ok::<ValueView, ActionErrorView>(ValueView::Num((a + sum_from(nums, 0)) as isize)),
{
    let e = ValueView::Tree(Seq::empty());
    let fr = s.arena.push_handle();
    let f = "fold"@;
    s.arena.lemma_push_wf(e);
    let s1 = s.push_frame();
    assert(s1.bases.last() == (Base { gd: fr, swap_off: false }));
    assert(s1.bases[0] == s.bases[0]);
    assert(in_frame(s1, fr));
    lemma_tree_get_none(Seq::empty(), NodeView::Str(f));
    lemma_tree_get_none(Seq::empty(), NodeView::Str(value_name(params)));
    if key_name(params) is Some {
        lemma_tree_get_none(Seq::empty(), NodeView::Str(key_name(params)->0));
    }
    let s2 = s1.bind(f, ValueView::Num(a));
    lemma_bind_number(s1, fr, f, a);
    lemma_bind_keeps(s1, fr, f, a, value_name(params));
    if key_name(params) is Some {
        lemma_bind_keeps(s1, fr, f, a, key_name(params)->0);
    }
    assert forall|i: int| 0 <= i < l.len() implies s2.arena.get(#[trigger] l[i]) == Some(
        ValueView::Num(nums[i]),
    ) && l[i].pos != fr.pos && clear(s2, fr, f, l[i]) by {
        assert(s.arena.live(l[i]));
        s.arena.lemma_push_keeps(e, l[i]);
        assert(s1.arena.live(l[i]));
    }
    assert(folding(s2, fr, l, nums, a, params));
    let last = lemma_adding_rounds(s2, fr, l, nums, a, params, body, 0, (fuel - 1) as nat);
    let total = (a + sum_from(nums, 0)) as isize;
    lemma_read_frame(last, fr, f, total);
}

/// A function that resolves the sum of the accumulator and of the name
/// that a round binds the element to adds, whatever its parameters.
pub proof fn lemma_adding_body_adds(params: Seq<Seq<char>>, fuel: nat)
    requires
        names_apart(params),
    ensures
        adds(params, adding_body(value_name(params)), fuel),
{
    let name = value_name(params);
    let body = adding_body(name);
    assert forall|st: ScopeView, fr: GenData, acc: isize, n: isize| #[trigger]
        round_ready(st, fr, params, acc, n) && fits(acc + n) implies {
        &&& actions_spec(body, 0, st, fuel).scope == st
        &&& actions_spec(body, 0, st, fuel).res is Ok
        &&& (actions_spec(body, 0, st, fuel).res->Ok_0).1 == ValueView::Num((acc + n) as isize)
    } by {
        lemma_read_frame(st, fr, "fold"@, acc);
        lemma_read_frame(st, fr, name, n);
        let ef = ExprView::Ident("fold"@);
        let en = ExprView::Ident(name);
        let e = ExprView::Oper(Op::Add, Box::new(ef), Box::new(en));
        let vi = ValueView::Num(n);
        assert(eval_path_spec(ef, st, fuel).res == Ok::<crate::proto::ProtoView, ActionErrorView>(
            name_path("fold"@),
        ));
        assert(eval_path_spec(ef, st, fuel).scope == st);
        assert(eval_spec(ef, st, fuel) == (Eval { res: Ok(ValueView::Num(acc)), scope: st }));
        assert(eval_path_spec(en, st, fuel).res == Ok::<crate::proto::ProtoView, ActionErrorView>(
            name_path(name),
        ));
        assert(eval_path_spec(en, st, fuel).scope == st);
        assert(eval_spec(en, st, fuel) == (Eval { res: Ok(vi), scope: st }));
        let vt = ValueView::Num((acc + n) as isize);
        assert(add_spec(ValueView::Num(acc), vi, st.arena).res == Ok::<ValueView, ActionErrorView>(
            vt,
        ));
        assert(add_spec(ValueView::Num(acc), vi, st.arena).arena == st.arena);
        assert(apply_op(Op::Add, ValueView::Num(acc), vi, st.arena) == add_spec(
            ValueView::Num(acc),
            vi,
            st.arena,
        ));
        assert(st.with_arena(st.arena) == st);
        assert(eval_spec(e, st, fuel) == (Eval { res: Ok(vt), scope: st }));
        assert(body[0] == ActionView::Resolve(e));
        assert(action_spec(body[0], st, fuel) == (Eval { res: Ok(vt), scope: st }));
        assert(actions_spec(body, 0, st, fuel) == (Ran { res: Ok((AcReturn::No, vt)), scope: st }));
    }
}

/// A fold over a list of numbers with the function that resolves the sum of
/// the accumulator and of its parameter `name`, seeded with the number `a`,
/// returns the sum of `a` and of all the numbers, whenever each sum on the
/// way is a number of the language.
pub proof fn lemma_fold_sums(
    s: ScopeView,
    l: Seq<GenData>,
    nums: Seq<isize>,
    a: isize,
    name: Seq<char>,
    fuel: nat,
)
    requires
        s.wf(),
        name != "fold"@,
        fuel > 0,
        l.len() == nums.len(),
        l.len() <= isize::MAX,
        forall|i: int| 0 <= i < l.len() ==> s.arena.get(#[trigger] l[i]) == Some(
            ValueView::Num(nums[i]),
        ),
        sums_fit(nums, 0, a as int),
        s.arena.items.len() + 3 * l.len() + 2 < usize::MAX,
    ensures
        iterate_spec(
            Some(ValueView::Num(a)),
            ValueView::List(l),
            ValueView::FuncDef(seq![name], adding_body(name)),
            s,
            fuel,
        ).res == Ok::<ValueView, ActionErrorView>(ValueView::Num((a + sum_from(nums, 0)) as isize)),
{
    assert(value_name(seq![name]) == name);
    lemma_adding_body_adds(seq![name], (fuel - 1) as nat);
    lemma_fold_sums_any(s, l, nums, a, seq![name], adding_body(name), fuel);
}

} // verus!
