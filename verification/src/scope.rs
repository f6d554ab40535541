//! The execution context: the stack of bases that paths start from, and
//! the resolution of paths against the arena.

use vstd::prelude::*;
use crate::ecs_ish::{ArenaView, GenData, GenManager};
use crate::error::{ActionError, ActionErrorView};
use crate::proto::{NodeView, Proto, ProtoNode, ProtoP, ProtoView};
use crate::tree::{tree_get, tree_insert};
use crate::value::{Value, ValueView, strong_view, weak, weak_view};

verus! {

/// How many indirections in a row a single step of resolution follows
/// before it gives up, so that a cycle of indirections cannot hold it.
pub const MAX_REF_HOPS: usize = 64;

/// One entry of the stack of bases: a handle to the value that paths start
/// from, and whether the entry is a selection made inside the frame below
/// it rather than a frame of its own.
#[derive(Debug)]
pub struct Base {
    pub gd: GenData,
    pub swap_off: bool,
}

/// A script file that a statement asked to load, with the slot that its
/// statements are to be run in, where the statement named one.
#[derive(Debug)]
pub struct Load {
    pub name: String,
    pub target: Option<GenData>,
}

/// The mathematical value of a [`Load`].
pub struct LoadView {
    pub name: Seq<char>,
    pub target: Option<GenData>,
}

impl View for Load {
    type V = LoadView;

    open spec fn view(&self) -> LoadView {
        LoadView { name: self.name@, target: self.target }
    }
}

/// The execution context.
#[derive(Debug)]
pub struct Scope {
    pub bases: Vec<Base>,
    pub gm: GenManager,
    /// The script files that statements asked to load, oldest first.
    pub loads: Vec<Load>,
    /// The numbers that were drawn for dice and not rolled yet; the last
    /// one is rolled next.
    pub rolls: Vec<u64>,
}

/// The mathematical value of a [`Scope`].
pub struct ScopeView {
    pub bases: Seq<Base>,
    pub arena: ArenaView,
    pub loads: Seq<LoadView>,
    pub rolls: Seq<u64>,
}

impl View for Scope {
    type V = ScopeView;

    open spec fn view(&self) -> ScopeView {
        ScopeView {
            bases: self.bases@,
            arena: self.gm@,
            loads: Seq::new(self.loads@.len(), |i: int| self.loads@[i]@),
            rolls: self.rolls@,
        }
    }
}

/// The index of the innermost frame: the last base that is no selection,
/// or zero if there is none.
pub open spec fn last_frame(bases: Seq<Base>) -> nat
    decreases bases.len(),
{
    if bases.len() == 0 {
        0
    } else if !bases.last().swap_off {
        (bases.len() - 1) as nat
    } else {
        last_frame(bases.drop_last())
    }
}

/// The index of the base that a path starts from: `dots` entries above the
/// outermost base for a rooted path, `dots` entries above the innermost
/// frame for any other.
pub open spec fn base_index(bases: Seq<Base>, p: ProtoView) -> nat {
    if p.root {
        p.dots as nat
    } else {
        last_frame(bases) + p.dots as nat
    }
}

/// The handle that a path starts from, if the stack has that entry.
pub open spec fn select_base(bases: Seq<Base>, p: ProtoView) -> Option<GenData> {
    if base_index(bases, p) < bases.len() {
        Some(bases[base_index(bases, p) as int].gd)
    } else {
        None
    }
}

/// The slot reached from `h` through at most `hops` indirections in a row:
/// a weak handle to the first value on the way that is no indirection.
/// Nothing is reached through a handle that names no value, or when more
/// indirections follow one another than `hops`.
pub open spec fn follow(g: ArenaView, h: GenData, hops: nat) -> Option<GenData>
    decreases hops,
{
    match g.get(h) {
        None => None,
        Some(ValueView::Ref(t)) => if hops == 0 {
            None
        } else {
            follow(g, t, (hops - 1) as nat)
        },
        Some(_) => Some(weak(h)),
    }
}

/// The handle found by walking `path` from `h`: before each segment the
/// indirections at hand are followed, then the segment picks a child. The
/// handle of the last child is returned as it is found, not followed.
pub open spec fn walk_to(g: ArenaView, h: GenData, path: Seq<NodeView>) -> Option<GenData>
    decreases path.len(),
{
    if path.len() == 0 {
        Some(weak(h))
    } else {
        match follow(g, h, MAX_REF_HOPS as nat) {
            None => None,
            Some(c) => match g.get(c)->0.child(path[0]) {
                None => None,
                Some(n) => walk_to(g, n, path.drop_first()),
            },
        }
    }
}

/// The slot that `path` leads to from `h`, with the indirections at its end
/// followed too.
pub open spec fn walk(g: ArenaView, h: GenData, path: Seq<NodeView>) -> Option<GenData> {
    match walk_to(g, h, path) {
        None => None,
        Some(x) => follow(g, x, MAX_REF_HOPS as nat),
    }
}

/// What a write leaves: a handle or an error, and the arena after it.
pub struct Written {
    pub res: Result<GenData, ActionErrorView>,
    pub arena: ArenaView,
}

/// One step of a write toward the container of its last segment. The
/// indirections at `cur` are followed. In a map the child under `k` is
/// taken, and where there is none an empty map is stored and bound to `k`.
/// In a list an element that is there is taken. Nothing else has children.
pub open spec fn step_into(g: ArenaView, cur: GenData, k: NodeView) -> Written {
    match follow(g, cur, MAX_REF_HOPS as nat) {
        None => Written { res: Err(lost(g, cur, "no base or deeper problem"@)), arena: g },
        Some(c) => match g.get(c)->0 {
            ValueView::Tree(t) => match tree_get(t, k) {
                Some(n) => Written { res: Ok(weak(n)), arena: g },
                None => Written {
                    res: Ok(weak(g.push_handle())),
                    arena: g.push(ValueView::Tree(Seq::empty())).with_value(
                        c.pos as int,
                        ValueView::Tree(tree_insert(t, k, g.push_handle())),
                    ),
                },
            },
            ValueView::List(l) => match g.get(c)->0.child(k) {
                Some(n) => Written { res: Ok(weak(n)), arena: g },
                None => Written {
                    res: Err(ActionErrorView::DoingErr("Could not give Child"@)),
                    arena: g,
                },
            },
            _ => Written { res: Err(ActionErrorView::DoingErr("Could not give Child"@)), arena: g },
        },
    }
}

/// The steps of a write along `path`, one segment after the other, up to
/// the first that fails.
pub open spec fn descend(g: ArenaView, cur: GenData, path: Seq<NodeView>) -> Written
    decreases path.len(),
{
    if path.len() == 0 {
        Written { res: Ok(weak(cur)), arena: g }
    } else {
        let s = step_into(g, cur, path[0]);
        match s.res {
            Err(_) => s,
            Ok(n) => descend(s.arena, n, path.drop_first()),
        }
    }
}

/// The end of a write: `v` is stored and bound to `k` in the map that `cur`
/// leads to, and the handle bound to `k` before is given up. Where `cur`
/// leads to no map, nothing is stored and the handles of `v` are given up.
pub open spec fn place(g: ArenaView, cur: GenData, k: NodeView, v: ValueView) -> Written {
    match follow(g, cur, MAX_REF_HOPS as nat) {
        None => Written {
            res: Err(lost(g, cur, "no base or deeper problem"@)),
            arena: g.release(v.handles()),
        },
        Some(c) => match g.get(c)->0 {
            ValueView::Tree(t) => {
                let g2 = g.push(v).with_value(
                    c.pos as int,
                    ValueView::Tree(tree_insert(t, k, g.push_handle())),
                );
                Written {
                    res: Ok(weak(g.push_handle())),
                    arena: match tree_get(t, k) {
                        Some(d) => g2.release(seq![d]),
                        None => g2,
                    },
                }
            },
            _ => Written {
                res: Err(ActionErrorView::DoingErr("Not childable type"@)),
                arena: g.release(v.handles()),
            },
        },
    }
}

/// A whole write of `v` at `path` from `base`: the steps to the container
/// of the last segment, then the placing of `v` there. An empty path
/// cannot be written to. Whenever the write fails the handles of `v` are
/// given up; maps that earlier steps made stay.
pub open spec fn set_from_spec(g: ArenaView, base: GenData, path: Seq<NodeView>, v: ValueView) -> Written {
    if path.len() == 0 {
        Written { res: Err(ActionErrorView::DoingErr("empty path"@)), arena: g.release(v.handles()) }
    } else {
        let d = descend(g, base, path.drop_last());
        match d.res {
            Err(e) => Written { res: Err(e), arena: d.arena.release(v.handles()) },
            Ok(cur) => place(d.arena, cur, path.last(), v),
        }
    }
}

/// What an evaluation leaves: a value or an error, and the context after
/// it.
pub struct Eval {
    pub res: Result<ValueView, ActionErrorView>,
    pub scope: ScopeView,
}

/// The failure of an evaluation with the message `m`, in the context `s`.
pub open spec fn fail(m: Seq<char>, s: ScopeView) -> Eval {
    Eval { res: Err(ActionErrorView::DoingErr(m)), scope: s }
}

/// The mathematical value of the result of an evaluation.
pub open spec fn eval_view(r: Result<Value, ActionError>) -> Result<ValueView, ActionErrorView> {
    match r {
        Ok(v) => Ok(v@),
        Err(e) => Err(e@),
    }
}

/// The slot that `n` explicit dereferences lead to from `x`: an
/// indirection is followed while dereferences are left; any other value
/// ends the chain, which is in order only at the last dereference.
pub open spec fn resolve_derefs(g: ArenaView, x: GenData, n: nat) -> Result<
    GenData,
    ActionErrorView,
>
    decreases n,
{
    match g.get(x) {
        None => Err(ActionErrorView::DoingErr("deref to nothing"@)),
        Some(ValueView::Ref(t)) => if n == 0 {
            Ok(weak(x))
        } else {
            resolve_derefs(g, t, (n - 1) as nat)
        },
        Some(_) => if n <= 1 {
            Ok(weak(x))
        } else {
            Err(ActionErrorView::DoingErr("deref beyond refs"@))
        },
    }
}

/// The stack after the innermost frame was left: the selections on top of
/// it are popped, then the frame itself; the outermost base always stays.
/// Every handle popped is given up.
pub open spec fn unwind(bases: Seq<Base>, g: ArenaView) -> (Seq<Base>, ArenaView)
    decreases bases.len(),
{
    if bases.len() <= 1 {
        (bases, g)
    } else if !bases.last().swap_off {
        (bases.drop_last(), g.release(seq![bases.last().gd]))
    } else {
        unwind(bases.drop_last(), g.release(seq![bases.last().gd]))
    }
}

impl ScopeView {
    /// The context with other numbers drawn for dice.
    pub open spec fn with_rolls(self, rolls: Seq<u64>) -> ScopeView {
        ScopeView { rolls: rolls, ..self }
    }

    /// The context with another arena.
    pub open spec fn with_arena(self, a: ArenaView) -> ScopeView {
        ScopeView { arena: a, ..self }
    }

    /// The slot that a read of the path `p` ends at. Without dereferences
    /// every indirection on the way and at the end is followed. With
    /// dereferences the indirections at the end are followed one for each.
    pub open spec fn target(self, p: ProtoView) -> Result<GenData, ActionErrorView> {
        if p.derefs == 0 {
            match select_base(self.bases, p) {
                None => Err(ActionErrorView::DoingErr("Nothing at path"@)),
                Some(b) => match walk(self.arena, b, p.v) {
                    Some(h) => Ok(h),
                    None => Err(walk_lost(self.arena, b, p.v, "Nothing at path"@)),
                },
            }
        } else {
            match select_base(self.bases, p) {
                None => Err(ActionErrorView::DoingErr("deref to nothing"@)),
                Some(b) => match walk_to(self.arena, b, p.v) {
                    None => Err(walk_lost(self.arena, b, p.v, "deref to nothing"@)),
                    Some(x) => resolve_derefs(self.arena, x, p.derefs as nat),
                },
            }
        }
    }

    /// What a read of the path `p` leaves: a copy of the value at its
    /// target that owns what its handles name.
    pub open spec fn read(self, p: ProtoView) -> Eval {
        match self.target(p) {
            Err(e) => Eval { res: Err(e), scope: self },
            Ok(h) => match self.arena.get(h) {
                None => fail("Nothing at path"@, self),
                Some(v) => Eval {
                    res: Ok(strong_view(weak_view(v), self.arena).0),
                    scope: self.with_arena(strong_view(weak_view(v), self.arena).1),
                },
            },
        }
    }

    /// The context with the slot that `target` names as the innermost
    /// frame.
    pub open spec fn enter(self, target: GenData) -> ScopeView {
        ScopeView {
            bases: self.bases.push(
                Base {
                    gd: GenData { strong: self.arena.can_upgrade(target), ..target },
                    swap_off: false,
                },
            ),
            arena: self.arena.upgrade(target),
            ..self
        }
    }

    /// The context with a new frame over an empty map on top of the stack.
    pub open spec fn push_frame(self) -> ScopeView {
        ScopeView {
            bases: self.bases.push(Base { gd: self.arena.push_handle(), swap_off: false }),
            arena: self.arena.push(ValueView::Tree(Seq::empty())),
            ..self
        }
    }

    /// The context after the innermost frame was left.
    pub open spec fn pop_frame(self) -> ScopeView {
        ScopeView {
            bases: unwind(self.bases, self.arena).0,
            arena: unwind(self.bases, self.arena).1,
            ..self
        }
    }

    /// What selecting the path `p` leaves: the slot that `p` names becomes
    /// the selection of the innermost frame, in place of an earlier
    /// selection, whose handle is given up. The stack owns the slot where
    /// it can be counted once more.
    pub open spec fn select(self, p: ProtoView) -> Eval {
        match self.find(p) {
            None => Eval {
                res: Err(
                    match select_base(self.bases, p) {
                        None => ActionErrorView::DoingErr("Could not set path to non path"@),
                        Some(b) => walk_lost(
                            self.arena,
                            b,
                            p.v,
                            "Could not set path to non path"@,
                        ),
                    },
                ),
                scope: self,
            },
            Some(h) => {
                let nb = Base {
                    gd: GenData { strong: self.arena.can_upgrade(h), ..h },
                    swap_off: true,
                };
                let g = self.arena.upgrade(h);
                if self.bases.last().swap_off {
                    Eval {
                        res: Ok(ValueView::Null),
                        scope: ScopeView {
                            bases: self.bases.drop_last().push(nb),
                            arena: g.release(seq![self.bases.last().gd]),
                            ..self
                        },
                    }
                } else {
                    Eval {
                        res: Ok(ValueView::Null),
                        scope: ScopeView { bases: self.bases.push(nb), arena: g, ..self },
                    }
                }
            },
        }
    }

    /// What adding `n` to the counter `id` of the current base leaves. The
    /// base must be a map. A counter that is there must hold a number, and
    /// the sum must be one; a counter that is not there is made with `n`.
    pub open spec fn bump(self, n: int, id: Seq<char>) -> Eval {
        match follow(self.arena, self.bases.last().gd, MAX_REF_HOPS as nat) {
            None => Eval {
                res: Err(lost(self.arena, self.bases.last().gd, "cannot add like this to non map"@)),
                scope: self,
            },
            Some(c) => match self.arena.get(c)->0 {
                ValueView::Tree(t) => match tree_get(t, NodeView::Str(id)) {
                    Some(h) => match self.arena.get(h) {
                        Some(ValueView::Num(m)) => if crate::value::fits(m + n) {
                            Eval {
                                res: Ok(ValueView::Null),
                                scope: self.with_arena(
                                    self.arena.with_value(
                                        h.pos as int,
                                        ValueView::Num((m + n) as isize),
                                    ),
                                ),
                            }
                        } else {
                            fail("Number overflow"@, self)
                        },
                        _ => fail("Can only add to number values"@, self),
                    },
                    None => if crate::value::fits(n) {
                        Eval {
                            res: Ok(ValueView::Null),
                            scope: self.with_arena(
                                self.arena.push(ValueView::Num(n as isize)).with_value(
                                    c.pos as int,
                                    ValueView::Tree(
                                        tree_insert(t, NodeView::Str(id), self.arena.push_handle()),
                                    ),
                                ),
                            ),
                        }
                    } else {
                        fail("Number overflow"@, self)
                    },
                },
                _ => fail("cannot add like this to non map"@, self),
            },
        }
    }
}

impl ScopeView {
    /// What writing `v` at the path `p` leaves.
    pub open spec fn set(self, p: ProtoView, v: ValueView) -> Written {
        match select_base(self.bases, p) {
            None => Written {
                res: Err(ActionErrorView::DoingErr("No base"@)),
                arena: self.arena.release(v.handles()),
            },
            Some(b) => set_from_spec(self.arena, b, p.v, v),
        }
    }
}

/// The mathematical value of the result of a write.
pub open spec fn written_view(r: Result<GenData, ActionError>) -> Result<GenData, ActionErrorView> {
    match r {
        Ok(h) => Ok(h),
        Err(e) => Err(e@),
    }
}

/// Whether more than `hops` indirections follow one another from `h` on.
pub open spec fn endless(g: ArenaView, h: GenData, hops: nat) -> bool
    decreases hops,
{
    match g.get(h) {
        Some(ValueView::Ref(t)) => if hops == 0 {
            true
        } else {
            endless(g, t, (hops - 1) as nat)
        },
        _ => false,
    }
}

/// Whether the walk of `path` from `h` comes to a place where the
/// indirections do not end, before a segment or at the end of the path.
pub open spec fn walk_endless(g: ArenaView, h: GenData, path: Seq<NodeView>) -> bool
    decreases path.len(),
{
    match follow(g, h, MAX_REF_HOPS as nat) {
        None => endless(g, h, MAX_REF_HOPS as nat),
        Some(c) => if path.len() == 0 {
            false
        } else {
            match g.get(c)->0.child(path[0]) {
                None => false,
                Some(n) => walk_endless(g, n, path.drop_first()),
            }
        },
    }
}

/// The error of a resolution that came to nothing at `h`: that of a cycle
/// where the indirections from `h` do not end, and else the one with the
/// message `m`.
pub open spec fn lost(g: ArenaView, h: GenData, m: Seq<char>) -> ActionErrorView {
    if endless(g, h, MAX_REF_HOPS as nat) {
        ActionErrorView::DoingErr("cyclic reference"@)
    } else {
        ActionErrorView::DoingErr(m)
    }
}

/// The error of a walk that came to nothing: that of a cycle where the walk
/// came to indirections that do not end, and else the one with the message
/// `m`.
pub open spec fn walk_lost(g: ArenaView, h: GenData, path: Seq<NodeView>, m: Seq<char>) -> ActionErrorView {
    if walk_endless(g, h, path) {
        ActionErrorView::DoingErr("cyclic reference"@)
    } else {
        ActionErrorView::DoingErr(m)
    }
}

impl ScopeView {
    /// The invariant of the context: that of the arena, and a stack whose
    /// outermost base is a frame.
    pub open spec fn wf(self) -> bool {
        &&& self.arena.wf()
        &&& self.bases.len() > 0
        &&& !self.bases[0].swap_off
    }

    /// The slot that the path `p` names.
    pub open spec fn find(self, p: ProtoView) -> Option<GenData> {
        match select_base(self.bases, p) {
            None => None,
            Some(b) => walk(self.arena, b, p.v),
        }
    }

    /// The value that the path `p` names.
    pub open spec fn get(self, p: ProtoView) -> Option<ValueView> {
        match self.find(p) {
            None => None,
            Some(h) => self.arena.get(h),
        }
    }
}

/// A slot that `follow` reaches holds a value that is no indirection.
pub proof fn lemma_follow_lands(g: ArenaView, h: GenData, hops: nat)
    requires
        follow(g, h, hops) is Some,
    ensures
        g.get(follow(g, h, hops)->0) is Some,
        !(g.get(follow(g, h, hops)->0)->0 is Ref),
        !follow(g, h, hops)->0.strong,
        follow(g, follow(g, h, hops)->0, MAX_REF_HOPS as nat) == follow(g, h, hops),
    decreases hops,
{
    if let Some(ValueView::Ref(t)) = g.get(h) {
        lemma_follow_lands(g, t, (hops - 1) as nat);
    }
}

/// Resolution does not depend on the strength of the handle it starts from.
pub proof fn lemma_weak_start(g: ArenaView, h: GenData, path: Seq<NodeView>, hops: nat)
    ensures
        follow(g, weak(h), hops) == follow(g, h, hops),
        walk_to(g, weak(h), path) == walk_to(g, h, path),
        walk(g, weak(h), path) == walk(g, h, path),
{
    assert(g.get(weak(h)) == g.get(h));
    assert(follow(g, weak(h), MAX_REF_HOPS as nat) == follow(g, h, MAX_REF_HOPS as nat));
}

impl Scope {
    /// A context with one frame over an empty map.
    pub fn new() -> (r: Scope)
        ensures
            r@.wf(),
            r@.bases == seq![Base { gd: GenData { pos: 0, gen: 0, strong: true }, swap_off: false }],
            r@.arena == (ArenaView { items: Seq::empty(), drops: Seq::empty() }).push(
                ValueView::Tree(Seq::empty()),
            ),
            r@.loads == Seq::<LoadView>::empty(),
            r@.rolls == Seq::<u64>::empty(),
    {
        let mut gm = GenManager::new();
        let gd = gm.push(Value::map());
        let mut bases: Vec<Base> = Vec::new();
        bases.push(Base { gd, swap_off: false });
        let r = Scope { bases, gm, loads: Vec::new(), rolls: Vec::new() };
        assert(r@.bases =~= seq![
            Base { gd: GenData { pos: 0, gen: 0, strong: true }, swap_off: false },
        ]);
        assert(r@.loads =~= Seq::<LoadView>::empty());
        r
    }

    /// The arena, for changing it.
    pub fn gm_mut(&mut self) -> (r: &mut GenManager)
        ensures
            *r == old(self).gm,
            final(self).bases == old(self).bases,
            final(self).loads == old(self).loads,
            final(self).rolls == old(self).rolls,
            final(self).gm == *final(r),
    {
        &mut self.gm
    }

    /// Stores `v` in the arena and returns the one strong handle to it.
    pub fn push_mem(&mut self, v: Value) -> (r: GenData)
        requires
            old(self)@.wf(),
            v@.wf(),
        ensures
            final(self)@ == (ScopeView { arena: old(self)@.arena.push(v@), ..old(self)@ }),
            r == old(self)@.arena.push_handle(),
            final(self)@.wf(),
    {
        self.gm.push(v)
    }

    /// The index of the innermost frame.
    pub fn frame_index(&self) -> (r: usize)
        ensures
            r == last_frame(self.bases@),
            self.bases@.len() > 0 ==> r < self.bases@.len(),
    {
        let mut i: usize = self.bases.len();
        assert(self.bases@.subrange(0, i as int) =~= self.bases@);
        while i > 0
            invariant
                i <= self.bases@.len(),
                last_frame(self.bases@) == last_frame(self.bases@.subrange(0, i as int)),
            decreases i,
        {
            assert(self.bases@.subrange(0, i as int).drop_last() =~= self.bases@.subrange(
                0,
                i - 1,
            ));
            if !self.bases[i - 1].swap_off {
                return i - 1;
            }
            i -= 1;
        }
        0
    }

    /// The handle that the path `p` starts from, if the stack has that
    /// entry.
    pub fn select_base(&self, p: &Proto) -> (r: Option<&GenData>)
        ensures
            r is Some == select_base(self.bases@, p@) is Some,
            r is Some ==> *r->0 == select_base(self.bases@, p@)->0,
    {
        let len = self.bases.len();
        let n: usize = if p.root {
            p.dots
        } else {
            let last = self.frame_index();
            if p.dots > usize::MAX - last {
                return None;
            }
            last + p.dots
        };
        if n < self.bases.len() {
            Some(&self.bases[n].gd)
        } else {
            None
        }
    }

    /// The slot reached from `h` through the indirections at hand.
    pub fn follow(&self, h: &GenData) -> (r: Option<GenData>)
        ensures
            r == follow(self.gm@, *h, MAX_REF_HOPS as nat),
    {
        let mut cur = h.clone_weak();
        let mut left: usize = MAX_REF_HOPS;
        proof {
            lemma_weak_start(self.gm@, *h, Seq::empty(), MAX_REF_HOPS as nat);
        }
        loop
            invariant
                !cur.strong,
                follow(self.gm@, cur, left as nat) == follow(self.gm@, *h, MAX_REF_HOPS as nat),
            decreases left,
        {
            match self.gm.get(&cur) {
                None => {
                    return None;
                },
                Some(Value::Ref(t)) => {
                    if left == 0 {
                        return None;
                    }
                    proof {
                        lemma_weak_start(self.gm@, *t, Seq::empty(), (left - 1) as nat);
                    }
                    cur = t.clone_weak();
                    left -= 1;
                },
                Some(_) => {
                    return Some(cur);
                },
            }
        }
    }

    /// Walks the segments that `pp` has left from `base`, and returns a weak
    /// handle to the slot they lead to, with its value.
    pub fn get_from<'a>(&'a self, base: &GenData, pp: ProtoP) -> (r: Option<(GenData, &'a Value)>)
        ensures
            r is Some == walk(self.gm@, *base, pp.rest()) is Some,
            r is Some ==> (r->0).0 == walk(self.gm@, *base, pp.rest())->0 && Some((r->0).1@)
                == self.gm@.get((r->0).0),
    {
        let ghost all = pp.rest();
        let mut cursor = pp.clone_pp();
        let mut cur = base.clone_weak();
        proof {
            lemma_weak_start(self.gm@, *base, all, 0);
        }
        while cursor.remaining() > 0
            invariant
                all == pp.rest(),
                walk(self.gm@, cur, cursor.rest()) == walk(self.gm@, *base, all),
            decreases cursor.rest().len(),
        {
            let ghost path = cursor.rest();
            let c = match self.follow(&cur) {
                Some(c) => c,
                None => {
                    return None;
                },
            };
            proof {
                lemma_follow_lands(self.gm@, cur, MAX_REF_HOPS as nat);
            }
            let v = match self.gm.get(&c) {
                Some(v) => v,
                None => {
                    return None;
                },
            };
            let p = cursor.next().unwrap();
            match v.child_ref(p) {
                Some(n) => {
                    proof {
                        lemma_weak_start(self.gm@, *n, path.drop_first(), 0);
                    }
                    cur = n.clone_weak();
                },
                None => {
                    return None;
                },
            }
        }
        let c = match self.follow(&cur) {
            Some(c) => c,
            None => {
                return None;
            },
        };
        proof {
            lemma_follow_lands(self.gm@, cur, MAX_REF_HOPS as nat);
        }
        match self.gm.get(&c) {
            Some(v) => Some((c, v)),
            None => None,
        }
    }

    /// The value that the path `p` names.
    pub fn get<'a>(&'a self, p: &Proto) -> (r: Option<&'a Value>)
        ensures
            r is Some == self@.get(p@) is Some,
            r is Some ==> Some(r->0@) == self@.get(p@),
    {
        let b = match self.select_base(p) {
            Some(b) => b.clone_weak(),
            None => {
                return None;
            },
        };
        match self.get_from(&b, p.pp()) {
            Some((_, v)) => Some(v),
            None => None,
        }
    }

    /// A weak handle to the slot that the path `p` names.
    pub fn get_ref(&self, p: &Proto) -> (r: Option<GenData>)
        ensures
            r == self@.find(p@),
    {
        let b = match self.select_base(p) {
            Some(b) => b.clone_weak(),
            None => {
                return None;
            },
        };
        match self.get_from(&b, p.pp()) {
            Some((r, _)) => Some(r),
            None => None,
        }
    }
}

/// What a step of a write found at the place it looked at.
enum Found {
    Child(GenData),
    Missing,
    Closed,
}

impl Scope {
    /// One step of a write: the child of `cur` under `k`, made as an empty
    /// map where a map has none.
    pub fn step_into(&mut self, cur: &GenData, k: &ProtoNode) -> (r: Result<GenData, ActionError>)
        requires
            old(self)@.wf(),
        ensures
            final(self)@.wf(),
            final(self)@ == (ScopeView {
                arena: step_into(old(self)@.arena, *cur, k@).arena,
                ..old(self)@
            }),
            written_view(r) == step_into(old(self)@.arena, *cur, k@).res,
    {
        let c = match self.follow(cur) {
            Some(c) => c,
            None => {
                return Err(self.lost(cur, "no base or deeper problem"));
            },
        };
        proof {
            lemma_follow_lands(self.gm@, *cur, MAX_REF_HOPS as nat);
        }
        let found = match self.gm.get(&c) {
            Some(Value::Tree(t)) => match t.get(k) {
                Some(n) => Found::Child(n.clone_weak()),
                None => Found::Missing,
            },
            Some(Value::List(l)) => match self.gm.get(&c).unwrap().child_ref(k) {
                Some(n) => Found::Child(n.clone_weak()),
                None => Found::Closed,
            },
            _ => Found::Closed,
        };
        match found {
            Found::Child(n) => Ok(n),
            Found::Closed => Err(ActionError::new("Could not give Child")),
            Found::Missing => {
                let ghost g = self.gm@;
                let n_items = self.gm.items.len();
                proof {
                    g.lemma_push_keeps(ValueView::Tree(Seq::empty()), c);
                    g.lemma_push_wf(ValueView::Tree(Seq::empty()));
                }
                let h = self.gm.push(Value::map());
                let res = h.clone_weak();
                let ghost g1 = self.gm@;
                match self.gm.get_mut(&c) {
                    Some(v) => {
                        let _ = v.give_child(k.clone_node(), h);
                    },
                    None => {},
                }
                proof {
                    let t = g.get(c)->0->Tree_0;
                    let nv = ValueView::Tree(tree_insert(t, k@, h));
                    crate::tree::lemma_tree_insert(t, k@, h);
                    assert(self.gm@.items =~= g1.with_value(c.pos as int, nv).items);
                    g1.lemma_with_value_wf(c.pos as int, nv);
                }
                Ok(res)
            },
        }
    }

    /// The end of a write: stores `nval` and binds it to `k` in the map
    /// that `cur` leads to.
    pub fn place(&mut self, cur: &GenData, k: &ProtoNode, nval: Value) -> (r: Result<
        GenData,
        ActionError,
    >)
        requires
            old(self)@.wf(),
            nval@.wf(),
        ensures
            final(self)@.wf(),
            final(self)@ == (ScopeView {
                arena: place(old(self)@.arena, *cur, k@, nval@).arena,
                ..old(self)@
            }),
            written_view(r) == place(old(self)@.arena, *cur, k@, nval@).res,
    {
        let c = match self.follow(cur) {
            Some(c) => c,
            None => {
                let e = self.lost(cur, "no base or deeper problem");
                self.gm.drop(nval);
                return Err(e);
            },
        };
        proof {
            lemma_follow_lands(self.gm@, *cur, MAX_REF_HOPS as nat);
        }
        let is_tree = match self.gm.get(&c) {
            Some(Value::Tree(_)) => true,
            _ => false,
        };
        if !is_tree {
            self.gm.drop(nval);
            return Err(ActionError::new("Not childable type"));
        }
        let ghost g = self.gm@;
        let n_items = self.gm.items.len();
        proof {
            g.lemma_push_keeps(nval@, c);
            g.lemma_push_wf(nval@);
        }
        let h = self.gm.push(nval);
        let res = h.clone_weak();
        let ghost g1 = self.gm@;
        let mut displaced: Option<GenData> = None;
        match self.gm.get_mut(&c) {
            Some(v) => {
                match v.give_child(k.clone_node(), h) {
                    Ok(d) => {
                        displaced = d;
                    },
                    Err(_) => {},
                }
            },
            None => {},
        }
        proof {
            let t = g.get(c)->0->Tree_0;
            let nv = ValueView::Tree(tree_insert(t, k@, h));
            crate::tree::lemma_tree_insert(t, k@, h);
            assert(self.gm@.items =~= g1.with_value(c.pos as int, nv).items);
            g1.lemma_with_value_wf(c.pos as int, nv);
            assert(displaced == tree_get(t, k@));
        }
        if let Some(d) = displaced {
            self.gm.drop_ref(d);
        }
        Ok(res)
    }

    /// Writes `nval` at the segments that `pp` has left, from `c_gd`. Maps
    /// that are missing on the way are made. Returns a weak handle to the
    /// slot where the value now is.
    pub fn put_from(&mut self, c_gd: GenData, pp: ProtoP, nval: Value) -> (r: Result<
        GenData,
        ActionError,
    >)
        requires
            old(self)@.wf(),
            nval@.wf(),
        ensures
            final(self)@.wf(),
            final(self)@ == (ScopeView {
                arena: set_from_spec(old(self)@.arena, c_gd, pp.rest(), nval@).arena,
                ..old(self)@
            }),
            written_view(r) == set_from_spec(old(self)@.arena, c_gd, pp.rest(), nval@).res,
    {
        let ghost all = pp.rest();
        let mut cursor = pp.clone_pp();
        if cursor.remaining() == 0 {
            self.gm.drop(nval);
            return Err(ActionError::new("empty path"));
        }
        let mut cur = c_gd.clone_weak();
        proof {
            lemma_weak_descend(self.gm@, c_gd, all.drop_last());
        }
        while cursor.remaining() > 1
            invariant
                self@.wf(),
                self@.bases == old(self)@.bases,
                self@.loads == old(self)@.loads,
                self@.rolls == old(self)@.rolls,
                all.len() > 0,
                cursor.rest().len() > 0,
                cursor.rest().last() == all.last(),
                descend(self.gm@, cur, cursor.rest().drop_last()) == descend(
                    old(self)@.arena,
                    c_gd,
                    all.drop_last(),
                ),
                all == pp.rest(),
            decreases cursor.rest().len(),
        {
            let ghost path = cursor.rest();
            let k = cursor.next().unwrap();
            assert(path.drop_last().drop_first() =~= path.drop_first().drop_last());
            assert(path.drop_last()[0] == k@);
            match self.step_into(&cur, k) {
                Ok(n) => {
                    proof {
                        lemma_weak_descend(self.gm@, n, path.drop_first().drop_last());
                    }
                    cur = n;
                },
                Err(e) => {
                    self.gm.drop(nval);
                    return Err(e);
                },
            }
        }
        let ghost path = cursor.rest();
        assert(path.drop_last() =~= Seq::<NodeView>::empty());
        let k = cursor.next().unwrap();
        proof {
            lemma_weak_place(self.gm@, cur, k@, nval@);
        }
        self.place(&cur, k, nval)
    }

    /// Writes `v` at the path `p`, and returns a weak handle to the slot
    /// where the value now is.
    pub fn put(&mut self, p: &Proto, v: Value) -> (r: Result<GenData, ActionError>)
        requires
            old(self)@.wf(),
            v@.wf(),
        ensures
            final(self)@.wf(),
            final(self)@ == (ScopeView { arena: old(self)@.set(p@, v@).arena, ..old(self)@ }),
            written_view(r) == old(self)@.set(p@, v@).res,
    {
        let b = match self.select_base(p) {
            Some(b) => b.clone_weak(),
            None => {
                self.gm.drop(v);
                return Err(ActionError::new("No base"));
            },
        };
        proof {
            lemma_weak_set(self.gm@, select_base(self.bases@, p@)->0, p@.v, v@);
        }
        self.put_from(b, p.pp(), v)
    }
}

/// The mathematical value of the result of a write, without the handle.
pub open spec fn done_view(r: Result<(), ActionError>) -> Result<(), ActionErrorView> {
    match r {
        Ok(_) => Ok(()),
        Err(e) => Err(e@),
    }
}

/// The result of a write, without the handle.
pub open spec fn done(w: Written) -> Result<(), ActionErrorView> {
    match w.res {
        Ok(_) => Ok(()),
        Err(e) => Err(e),
    }
}

impl Scope {
    /// Writes `nval` at the segments that `pp` has left, from `c_gd`. Maps
    /// that are missing on the way are made; the handle that was bound to
    /// the last segment before is given up.
    pub fn set_from(&mut self, c_gd: GenData, pp: ProtoP, nval: Value) -> (r: Result<
        (),
        ActionError,
    >)
        requires
            old(self)@.wf(),
            nval@.wf(),
        ensures
            final(self)@.wf(),
            final(self)@ == (ScopeView {
                arena: set_from_spec(old(self)@.arena, c_gd, pp.rest(), nval@).arena,
                ..old(self)@
            }),
            done_view(r) == done(set_from_spec(old(self)@.arena, c_gd, pp.rest(), nval@)),
    {
        match self.put_from(c_gd, pp, nval) {
            Ok(_) => Ok(()),
            Err(e) => Err(e),
        }
    }

    /// Writes `v` at the path `p`.
    pub fn set(&mut self, p: &Proto, v: Value) -> (r: Result<(), ActionError>)
        requires
            old(self)@.wf(),
            v@.wf(),
        ensures
            final(self)@.wf(),
            final(self)@ == (ScopeView { arena: old(self)@.set(p@, v@).arena, ..old(self)@ }),
            done_view(r) == done(old(self)@.set(p@, v@)),
    {
        match self.put(p, v) {
            Ok(_) => Ok(()),
            Err(e) => Err(e),
        }
    }

    /// The child of the value `v` under `p`, where `v` is a map: a weak
    /// handle to the child that is bound, or else the strong handle to an
    /// empty map that is newly stored and not bound yet.
    pub fn get_or_make_child(&mut self, v: &mut Value, p: &ProtoNode) -> (r: Result<
        GenData,
        ActionError,
    >)
        requires
            old(self)@.wf(),
        ensures
            final(self)@.wf(),
            *final(v) == *old(v),
            old(v)@ is Tree && tree_get(old(v)@->Tree_0, p@) is Some ==> r == Ok::<
                GenData,
                ActionError,
            >(weak(tree_get(old(v)@->Tree_0, p@)->0)) && final(self)@ == old(self)@,
            old(v)@ is Tree && tree_get(old(v)@->Tree_0, p@) is None ==> r == Ok::<
                GenData,
                ActionError,
            >(old(self)@.arena.push_handle()) && final(self)@ == (ScopeView {
                arena: old(self)@.arena.push(ValueView::Tree(Seq::empty())),
                ..old(self)@
            }),
            !(old(v)@ is Tree) ==> r is Err && r->Err_0@ == ActionErrorView::DoingErr(
                "Cannot give child to Non Map or List Value"@,
            ) && final(self)@ == old(self)@,
    {
        match v {
            Value::Tree(m) => match m.get(p) {
                Some(gd) => Ok(gd.clone_weak()),
                None => Ok(self.gm.push(Value::map())),
            },
            _ => Err(ActionError::new("Cannot give child to Non Map or List Value")),
        }
    }
}

/// Whether a walk comes to indirections that do not end does not depend on
/// the strength of the handle it starts from.
pub proof fn lemma_weak_endless(g: ArenaView, h: GenData, path: Seq<NodeView>)
    ensures
        endless(g, weak(h), MAX_REF_HOPS as nat) == endless(g, h, MAX_REF_HOPS as nat),
        walk_endless(g, weak(h), path) == walk_endless(g, h, path),
{
    assert(g.get(weak(h)) == g.get(h));
    lemma_weak_start(g, h, path, MAX_REF_HOPS as nat);
}

/// A write does not depend on the strength of the handle it starts from.
pub proof fn lemma_weak_descend(g: ArenaView, h: GenData, path: Seq<NodeView>)
    ensures
        descend(g, weak(h), path) == descend(g, h, path),
{
    lemma_weak_start(g, h, path, MAX_REF_HOPS as nat);
    lemma_weak_endless(g, h, path);
    if path.len() > 0 {
        assert(step_into(g, weak(h), path[0]) == step_into(g, h, path[0]));
    }
}

/// Placing does not depend on the strength of the handle it starts from.
pub proof fn lemma_weak_place(g: ArenaView, h: GenData, k: NodeView, v: ValueView)
    ensures
        place(g, weak(h), k, v) == place(g, h, k, v),
{
    lemma_weak_start(g, h, Seq::empty(), MAX_REF_HOPS as nat);
    lemma_weak_endless(g, h, Seq::empty());
}

/// A whole write does not depend on the strength of the handle it starts
/// from.
pub proof fn lemma_weak_set(g: ArenaView, h: GenData, path: Seq<NodeView>, v: ValueView)
    ensures
        set_from_spec(g, weak(h), path, v) == set_from_spec(g, h, path, v),
{
    if path.len() > 0 {
        lemma_weak_descend(g, h, path.drop_last());
    }
}

impl Scope {
    /// Whether more indirections follow one another from `h` on than a
    /// step of resolution follows.
    pub fn endless(&self, h: &GenData) -> (r: bool)
        ensures
            r == endless(self.gm@, *h, MAX_REF_HOPS as nat),
    {
        let mut cur = h.clone_weak();
        let mut left: usize = MAX_REF_HOPS;
        assert(self.gm@.get(weak(*h)) == self.gm@.get(*h));
        loop
            invariant
                endless(self.gm@, cur, left as nat) == endless(
                    self.gm@,
                    *h,
                    MAX_REF_HOPS as nat,
                ),
            decreases left,
        {
            match self.gm.get(&cur) {
                Some(Value::Ref(t)) => {
                    if left == 0 {
                        return true;
                    }
                    assert(self.gm@.get(weak(*t)) == self.gm@.get(*t));
                    assert(endless(self.gm@, weak(*t), (left - 1) as nat) == endless(
                        self.gm@,
                        *t,
                        (left - 1) as nat,
                    ));
                    cur = t.clone_weak();
                    left -= 1;
                },
                _ => {
                    return false;
                },
            }
        }
    }

    /// The error of a resolution that came to nothing at `h`.
    pub fn lost(&self, h: &GenData, m: &str) -> (r: ActionError)
        ensures
            r@ == lost(self.gm@, *h, m@),
    {
        if self.endless(h) {
            ActionError::new("cyclic reference")
        } else {
            ActionError::new(m)
        }
    }

    /// Whether the walk of the segments that `pp` has left from `base`
    /// comes to indirections that do not end.
    pub fn walk_endless(&self, base: &GenData, pp: ProtoP) -> (r: bool)
        ensures
            r == walk_endless(self.gm@, *base, pp.rest()),
    {
        let ghost all = pp.rest();
        let mut cursor = pp.clone_pp();
        let mut cur = base.clone_weak();
        proof {
            lemma_weak_endless(self.gm@, *base, all);
        }
        loop
            invariant
                all == pp.rest(),
                walk_endless(self.gm@, cur, cursor.rest()) == walk_endless(self.gm@, *base, all),
            decreases cursor.rest().len(),
        {
            let ghost path = cursor.rest();
            let c = match self.follow(&cur) {
                Some(c) => c,
                None => {
                    return self.endless(&cur);
                },
            };
            proof {
                lemma_follow_lands(self.gm@, cur, MAX_REF_HOPS as nat);
            }
            if cursor.remaining() == 0 {
                return false;
            }
            let v = match self.gm.get(&c) {
                Some(v) => v,
                None => {
                    return false;
                },
            };
            let p = cursor.next().unwrap();
            match v.child_ref(p) {
                Some(n) => {
                    proof {
                        lemma_weak_endless(self.gm@, *n, path.drop_first());
                    }
                    cur = n.clone_weak();
                },
                None => {
                    return false;
                },
            }
        }
    }

    /// The error of a walk that came to nothing.
    pub fn walk_lost(&self, base: &GenData, pp: ProtoP, m: &str) -> (r: ActionError)
        ensures
            r@ == walk_lost(self.gm@, *base, pp.rest(), m@),
    {
        if self.walk_endless(base, pp) {
            ActionError::new("cyclic reference")
        } else {
            ActionError::new(m)
        }
    }

    /// The slot that `n` explicit dereferences lead to from `x`.
    pub fn resolve_derefs(&self, x: &GenData, n: usize) -> (r: Result<GenData, ActionError>)
        ensures
            written_view(r) == resolve_derefs(self.gm@, *x, n as nat),
    {
        let mut cur = x.clone_weak();
        let mut left: usize = n;
        loop
            invariant
                !cur.strong,
                resolve_derefs(self.gm@, cur, left as nat) == resolve_derefs(
                    self.gm@,
                    *x,
                    n as nat,
                ),
            decreases left,
        {
            match self.gm.get(&cur) {
                None => {
                    return Err(ActionError::new("deref to nothing"));
                },
                Some(Value::Ref(t)) => {
                    if left == 0 {
                        return Ok(cur);
                    }
                    assert(self.gm@.get(weak(*t)) == self.gm@.get(*t));
                    assert(resolve_derefs(self.gm@, weak(*t), (left - 1) as nat) == resolve_derefs(
                        self.gm@,
                        *t,
                        (left - 1) as nat,
                    ));
                    cur = t.clone_weak();
                    left -= 1;
                },
                Some(_) => {
                    if left <= 1 {
                        return Ok(cur);
                    }
                    return Err(ActionError::new("deref beyond refs"));
                },
            }
        }
    }

    /// The slot that a read of the path `p` ends at.
    pub fn target(&self, p: &Proto) -> (r: Result<GenData, ActionError>)
        ensures
            written_view(r) == self@.target(p@),
    {
        if p.derefs == 0 {
            let b = match self.select_base(p) {
                Some(b) => b.clone_weak(),
                None => {
                    return Err(ActionError::new("Nothing at path"));
                },
            };
            proof {
                lemma_weak_endless(self.gm@, select_base(self.bases@, p@)->0, p@.v);
                lemma_weak_start(self.gm@, select_base(self.bases@, p@)->0, p@.v, 0);
            }
            match self.get_from(&b, p.pp()) {
                Some((h, _)) => Ok(h),
                None => Err(self.walk_lost(&b, p.pp(), "Nothing at path")),
            }
        } else {
            let b = match self.select_base(p) {
                Some(b) => b.clone_weak(),
                None => {
                    return Err(ActionError::new("deref to nothing"));
                },
            };
            proof {
                lemma_weak_endless(self.gm@, select_base(self.bases@, p@)->0, p@.v);
                lemma_weak_start(self.gm@, select_base(self.bases@, p@)->0, p@.v, 0);
            }
            let x = match self.walk_to(&b, p.pp()) {
                Some(x) => x,
                None => {
                    return Err(self.walk_lost(&b, p.pp(), "deref to nothing"));
                },
            };
            self.resolve_derefs(&x, p.derefs)
        }
    }

    /// Walks the segments that `pp` has left from `base`, and returns a weak
    /// handle to the last child as it is found.
    pub fn walk_to(&self, base: &GenData, pp: ProtoP) -> (r: Option<GenData>)
        ensures
            r == walk_to(self.gm@, *base, pp.rest()),
    {
        let ghost all = pp.rest();
        let mut cursor = pp.clone_pp();
        let mut cur = base.clone_weak();
        proof {
            lemma_weak_start(self.gm@, *base, all, 0);
        }
        while cursor.remaining() > 0
            invariant
                all == pp.rest(),
                !cur.strong,
                walk_to(self.gm@, cur, cursor.rest()) == walk_to(self.gm@, *base, all),
            decreases cursor.rest().len(),
        {
            let ghost path = cursor.rest();
            let c = match self.follow(&cur) {
                Some(c) => c,
                None => {
                    return None;
                },
            };
            proof {
                lemma_follow_lands(self.gm@, cur, MAX_REF_HOPS as nat);
            }
            let v = match self.gm.get(&c) {
                Some(v) => v,
                None => {
                    return None;
                },
            };
            let p = cursor.next().unwrap();
            match v.child_ref(p) {
                Some(n) => {
                    proof {
                        lemma_weak_start(self.gm@, *n, path.drop_first(), 0);
                    }
                    cur = n.clone_weak();
                },
                None => {
                    return None;
                },
            }
        }
        Some(cur)
    }

    /// Reads the path `p`: a copy of the value at its target that owns what
    /// its handles name.
    pub fn read(&mut self, p: &Proto) -> (r: Result<Value, ActionError>)
        requires
            old(self)@.wf(),
        ensures
            final(self)@.wf(),
            final(self)@ == old(self)@.read(p@).scope,
            eval_view(r) == old(self)@.read(p@).res,
            r is Ok ==> r->Ok_0@.wf(),
    {
        let h = match self.target(p) {
            Ok(h) => h,
            Err(e) => {
                return Err(e);
            },
        };
        let w = match self.gm.get(&h) {
            Some(v) => v.clone_weak(),
            None => {
                return Err(ActionError::new("Nothing at path"));
            },
        };
        proof {
            let v = self.gm@.get(h)->0;
            assert(v.wf());
            lemma_weak_wf(v);
        }
        Ok(w.to_strong(&mut self.gm))
    }

    /// Puts a new frame over an empty map on top of the stack.
    pub fn push_frame(&mut self)
        requires
            old(self)@.wf(),
        ensures
            final(self)@.wf(),
            final(self)@ == old(self)@.push_frame(),
    {
        let gd = self.gm.push(Value::map());
        self.bases.push(Base { gd, swap_off: false });
    }

    /// Leaves the innermost frame: pops the selections on top of it, then
    /// the frame itself, and gives up every handle popped. The outermost
    /// base always stays.
    pub fn pop_frame(&mut self)
        requires
            old(self)@.wf(),
        ensures
            final(self)@.wf(),
            final(self)@ == old(self)@.pop_frame(),
    {
        loop
            invariant
                self@.wf(),
                self@.loads == old(self)@.loads,
                self@.rolls == old(self)@.rolls,
                unwind(self@.bases, self@.arena) == unwind(old(self)@.bases, old(self)@.arena),
            decreases self.bases@.len(),
        {
            if self.bases.len() <= 1 {
                return ;
            }
            let ghost before = self.bases@;
            let bas = self.bases.pop().unwrap();
            assert(self.bases@ =~= before.drop_last());
            let swap = bas.swap_off;
            self.gm.drop_ref(bas.gd);
            if !swap {
                return ;
            }
        }
    }

    /// Makes the slot that the path `p` names the selection of the
    /// innermost frame. A path that names nothing cannot be selected so.
    pub fn select(&mut self, p: &Proto) -> (r: Result<Value, ActionError>)
        requires
            old(self)@.wf(),
        ensures
            final(self)@.wf(),
            final(self)@ == old(self)@.select(p@).scope,
            eval_view(r) == old(self)@.select(p@).res,
    {
        let h = match self.get_ref(p) {
            Some(h) => h,
            None => {
                let b = match self.select_base(p) {
                    Some(b) => b.clone_weak(),
                    None => {
                        return Err(ActionError::new("Could not set path to non path"));
                    },
                };
                proof {
                    lemma_weak_endless(self.gm@, select_base(self.bases@, p@)->0, p@.v);
                }
                return Err(self.walk_lost(&b, p.pp(), "Could not set path to non path"));
            },
        };
        let strong = self.gm.upgrade(&h);
        let nb = Base { gd: GenData { pos: h.pos, gen: h.gen, strong }, swap_off: true };
        let blast = self.bases.len() - 1;
        if self.bases[blast].swap_off {
            let ghost before = self.bases@;
            let gone = self.bases.pop().unwrap();
            assert(self.bases@ =~= before.drop_last());
            self.bases.push(nb);
            self.gm.drop_ref(gone.gd);
        } else {
            self.bases.push(nb);
        }
        Ok(Value::Null)
    }

    /// Selects the path `p`: the slot that it names becomes the selection
    /// of the innermost frame. Where the path names nothing, an empty map
    /// is written there first, and that map is selected.
    pub fn colon_select(&mut self, p: &Proto) -> (r: Result<Value, ActionError>)
        requires
            old(self)@.wf(),
        ensures
            final(self)@.wf(),
            (Eval { res: eval_view(r), scope: final(self)@ }) == crate::semantics::select_or_make(
                old(self)@,
                p@,
            ),
            r is Ok ==> r->Ok_0@.wf(),
    {
        if self.get_ref(p).is_none() {
            match self.set(p, Value::map()) {
                Err(er) => {
                    return Err(er);
                },
                Ok(_) => {},
            }
        }
        self.select(p)
    }

    /// Adds `n` to the counter `id` of the current base, or makes the
    /// counter.
    pub fn bump(&mut self, n: isize, id: &str) -> (r: Result<Value, ActionError>)
        requires
            old(self)@.wf(),
        ensures
            final(self)@.wf(),
            final(self)@ == old(self)@.bump(n as int, id@).scope,
            eval_view(r) == old(self)@.bump(n as int, id@).res,
    {
        let top = self.bases.len() - 1;
        let c = match self.follow(&self.bases[top].gd) {
            Some(c) => c,
            None => {
                return Err(self.lost(&self.bases[top].gd, "cannot add like this to non map"));
            },
        };
        proof {
            lemma_follow_lands(self.gm@, self.bases@[top as int].gd, MAX_REF_HOPS as nat);
        }
        let key = ProtoNode::str(id);
        let found = match self.gm.get(&c) {
            Some(Value::Tree(t)) => match t.get(&key) {
                Some(n) => Found::Child(n.clone_ig()),
                None => Found::Missing,
            },
            _ => Found::Closed,
        };
        match found {
            Found::Closed => Err(ActionError::new("cannot add like this to non map")),
            Found::Child(h) => {
                let sum = match self.gm.get(&h) {
                    Some(Value::Num(m)) => match m.checked_add(n) {
                        Some(sum) => sum,
                        None => {
                            return Err(ActionError::new("Number overflow"));
                        },
                    },
                    _ => {
                        return Err(ActionError::new("Can only add to number values"));
                    },
                };
                let ghost g = self.gm@;
                match self.gm.get_mut(&h) {
                    Some(v) => {
                        *v = Value::Num(sum);
                    },
                    None => {},
                }
                proof {
                    assert(self.gm@.items =~= g.with_value(
                        h.pos as int,
                        ValueView::Num(sum),
                    ).items);
                    g.lemma_with_value_wf(h.pos as int, ValueView::Num(sum));
                }
                Ok(Value::Null)
            },
            Found::Missing => {
                let ghost g = self.gm@;
                let n_items = self.gm.items.len();
                proof {
                    g.lemma_push_keeps(ValueView::Num(n), c);
                    g.lemma_push_wf(ValueView::Num(n));
                }
                let h = self.gm.push(Value::Num(n));
                let ghost g1 = self.gm@;
                match self.gm.get_mut(&c) {
                    Some(v) => {
                        let _ = v.give_child(key, h);
                    },
                    None => {},
                }
                proof {
                    let t = g.get(c)->0->Tree_0;
                    let nv = ValueView::Tree(tree_insert(t, NodeView::Str(id@), h));
                    crate::tree::lemma_tree_insert(t, NodeView::Str(id@), h);
                    assert(self.gm@.items =~= g1.with_value(c.pos as int, nv).items);
                    g1.lemma_with_value_wf(c.pos as int, nv);
                }
                Ok(Value::Null)
            },
        }
    }
}

/// A copy with weak handles is well formed when the value is.
pub proof fn lemma_weak_wf(v: ValueView)
    requires
        v.wf(),
    ensures
        weak_view(v).wf(),
{
    if let ValueView::Tree(t) = v {
        let w = weak_view(v)->Tree_0;
        assert forall|i: int, j: int| 0 <= i < j < w.len() implies crate::proto::node_lt(
            #[trigger] w[i].0,
            #[trigger] w[j].0,
        ) by {
            assert(w[i].0 == t[i].0 && w[j].0 == t[j].0);
        }
    }
}

/// `rand::random::<u64>()` returns a number drawn by the generator of the
/// running thread; nothing is claimed of the number.
#[verifier::external_body]
fn random_draw() -> (r: u64) {
    rand::random::<u64>()
}

/// How many numbers are at hand for the dice of one statement, or of one
/// call of a method that evaluates, after the draw that comes before it.
pub const DICE_POOL: usize = 4096;

impl Scope {
    /// Draws numbers for dice, one by one, until `n` are at hand. The
    /// numbers that were at hand stay, and are rolled after the new ones.
    /// Nothing else changes.
    pub fn draw_dice(&mut self, n: usize)
        ensures
            final(self)@ == old(self)@.with_rolls(final(self)@.rolls),
            crate::semantics::drawn(old(self)@.rolls, final(self)@.rolls, n as nat),
            final(self)@.rolls.len() >= n,
            final(self)@.rolls.len() >= old(self)@.rolls.len(),
            final(self)@.rolls.subrange(0, old(self)@.rolls.len() as int) == old(self)@.rolls,
            old(self)@.rolls.len() >= n ==> final(self)@.rolls == old(self)@.rolls,
    {
        assert(self@.rolls.subrange(0, old(self)@.rolls.len() as int) =~= old(self)@.rolls);
        while self.rolls.len() < n
            invariant
                self@ == old(self)@.with_rolls(self@.rolls),
                self@.rolls.len() >= old(self)@.rolls.len(),
                self@.rolls.subrange(0, old(self)@.rolls.len() as int) == old(self)@.rolls,
                old(self)@.rolls.len() >= n ==> self@.rolls == old(self)@.rolls,
            decreases n - self.rolls@.len(),
        {
            let ghost before = self@.rolls;
            self.rolls.push(random_draw());
            assert(self@.rolls.subrange(0, old(self)@.rolls.len() as int) =~= before.subrange(
                0,
                old(self)@.rolls.len() as int,
            ));
        }
    }

    /// The files that statements asked to load since the last call, oldest
    /// first.
    pub fn take_loads(&mut self) -> (r: Vec<Load>)
        ensures
            final(self)@ == (ScopeView { loads: Seq::empty(), ..old(self)@ }),
            Seq::new(r@.len(), |i: int| r@[i]@) == old(self)@.loads,
    {
        let mut out: Vec<Load> = Vec::new();
        let ghost before = self@.loads;
        out.append(&mut self.loads);
        assert(self@.loads =~= Seq::<LoadView>::empty());
        assert(Seq::new(out@.len(), |i: int| out@[i]@) =~= before);
        out
    }

    /// Makes the slot that `target` names the innermost frame, so that
    /// plain paths start there until the frame is left. The stack owns the
    /// slot where it can take one more owner.
    pub fn enter(&mut self, target: &GenData)
        requires
            old(self)@.wf(),
        ensures
            final(self)@.wf(),
            final(self)@ == old(self)@.enter(*target),
    {
        let strong = self.gm.upgrade(target);
        self.bases.push(
            Base { gd: GenData { pos: target.pos, gen: target.gen, strong }, swap_off: false },
        );
    }

    /// Draws numbers for dice, then runs the statements `body` in a frame
    /// of their own.
    pub fn on_wrap(&mut self, body: &Vec<crate::action::Action>) -> (r: Result<
        (crate::action::AcReturn, Value),
        ActionError,
    >)
        requires
            old(self)@.wf(),
        ensures
            final(self)@.wf(),
            exists|rolls: Seq<u64>|
                crate::semantics::drawn(old(self)@.rolls, rolls, DICE_POOL as nat) && (crate::semantics::Ran {
                    res: crate::machine::ran_view(r),
                    scope: final(self)@,
                }) == crate::semantics::block_spec(
                    crate::action::actions_model(body@),
                    #[trigger] old(self)@.with_rolls(rolls),
                    crate::semantics::MAX_DEPTH as nat,
                ),
    {
        self.draw_dice(DICE_POOL);
        let ghost start = self@;
        assert(start == old(self)@.with_rolls(start.rolls));
        let r = crate::machine::block_in(body, self, crate::semantics::MAX_DEPTH);
        assert((crate::semantics::Ran { res: crate::machine::ran_view(r), scope: self@ })
            == crate::semantics::block_spec(
            crate::action::actions_model(body@),
            old(self)@.with_rolls(start.rolls),
            crate::semantics::MAX_DEPTH as nat,
        ));
        r
    }

    /// Draws numbers for dice, then evaluates the expression `ex` in a
    /// frame of its own.
    pub fn call_expr(&mut self, ex: &crate::expr::Expr) -> (r: Result<Value, ActionError>)
        requires
            old(self)@.wf(),
        ensures
            final(self)@.wf(),
            exists|rolls: Seq<u64>|
                crate::semantics::drawn(old(self)@.rolls, rolls, DICE_POOL as nat) && (Eval { res: eval_view(r), scope: final(self)@ }) == (Eval {
                    res: crate::semantics::eval_spec(
                        ex@,
                        (#[trigger] old(self)@.with_rolls(rolls)).push_frame(),
                        crate::semantics::MAX_DEPTH as nat,
                    ).res,
                    scope: crate::semantics::eval_spec(
                        ex@,
                        old(self)@.with_rolls(rolls).push_frame(),
                        crate::semantics::MAX_DEPTH as nat,
                    ).scope.pop_frame(),
                }),
    {
        self.draw_dice(DICE_POOL);
        let ghost start = self@;
        assert(start == old(self)@.with_rolls(start.rolls));
        self.push_frame();
        let r = crate::machine::eval_in(ex, self, crate::semantics::MAX_DEPTH);
        self.pop_frame();
        assert((Eval { res: eval_view(r), scope: self@ }) == (Eval {
            res: crate::semantics::eval_spec(
                ex@,
                old(self)@.with_rolls(start.rolls).push_frame(),
                crate::semantics::MAX_DEPTH as nat,
            ).res,
            scope: crate::semantics::eval_spec(
                ex@,
                old(self)@.with_rolls(start.rolls).push_frame(),
                crate::semantics::MAX_DEPTH as nat,
            ).scope.pop_frame(),
        }));
        r
    }

    /// Draws numbers for dice, then iterates over `src` with the function
    /// `func`, the accumulator starting as `fold` where there is one.
    pub fn for_each(&mut self, src: Value, fold: Option<Value>, func: Value) -> (r: Result<
        Value,
        ActionError,
    >)
        requires
            old(self)@.wf(),
            fold is Some ==> fold->0@.wf(),
        ensures
            final(self)@.wf(),
            exists|rolls: Seq<u64>|
                crate::semantics::drawn(old(self)@.rolls, rolls, DICE_POOL as nat) && (Eval { res: eval_view(r), scope: final(self)@ })
                    == crate::semantics::iterate_spec(
                    crate::machine::seed_view(fold),
                    src@,
                    func@,
                    #[trigger] old(self)@.with_rolls(rolls),
                    crate::semantics::MAX_DEPTH as nat,
                ),
    {
        self.draw_dice(DICE_POOL);
        let ghost start = self@;
        assert(start == old(self)@.with_rolls(start.rolls));
        let r = crate::machine::iterate_in(fold, src, func, self, crate::semantics::MAX_DEPTH);
        assert((Eval { res: eval_view(r), scope: self@ }) == crate::semantics::iterate_spec(
            crate::machine::seed_view(fold),
            src@,
            func@,
            old(self)@.with_rolls(start.rolls),
            crate::semantics::MAX_DEPTH as nat,
        ));
        r
    }

    /// Draws numbers for dice, then runs the function with the parameters
    /// `pnames` and the body `actions` on the arguments `params`.
    pub fn run_func(
        &mut self,
        pnames: &Vec<String>,
        actions: &Vec<crate::action::Action>,
        params: Vec<Value>,
    ) -> (r: Result<Value, ActionError>)
        requires
            old(self)@.wf(),
            crate::machine::values_wf(params@),
        ensures
            final(self)@.wf(),
            exists|rolls: Seq<u64>|
                crate::semantics::drawn(old(self)@.rolls, rolls, DICE_POOL as nat) && (Eval { res: eval_view(r), scope: final(self)@ })
                    == crate::semantics::run_func_spec(
                    crate::text::strings_view(pnames@),
                    crate::action::actions_model(actions@),
                    crate::machine::values_view(params@),
                    #[trigger] old(self)@.with_rolls(rolls),
                    crate::semantics::MAX_DEPTH as nat,
                ),
    {
        self.draw_dice(DICE_POOL);
        let ghost start = self@;
        assert(start == old(self)@.with_rolls(start.rolls));
        let r = crate::machine::run_func_in(
            pnames,
            actions,
            params,
            self,
            crate::semantics::MAX_DEPTH,
        );
        assert((Eval { res: eval_view(r), scope: self@ }) == crate::semantics::run_func_spec(
            crate::text::strings_view(pnames@),
            crate::action::actions_model(actions@),
            crate::machine::values_view(params@),
            old(self)@.with_rolls(start.rolls),
            crate::semantics::MAX_DEPTH as nat,
        ));
        r
    }

    /// Draws numbers for dice, then runs the statements `actions`, first to
    /// last.
    pub fn do_actions(&mut self, actions: &Vec<crate::action::Action>) -> (r: Result<
        (crate::action::AcReturn, Value),
        ActionError,
    >)
        requires
            old(self)@.wf(),
        ensures
            final(self)@.wf(),
            exists|rolls: Seq<u64>|
                crate::semantics::drawn(old(self)@.rolls, rolls, DICE_POOL as nat) && (crate::semantics::Ran {
                    res: crate::machine::ran_view(r),
                    scope: final(self)@,
                }) == crate::semantics::actions_spec(
                    crate::action::actions_model(actions@),
                    0,
                    #[trigger] old(self)@.with_rolls(rolls),
                    crate::semantics::MAX_DEPTH as nat,
                ),
    {
        self.draw_dice(DICE_POOL);
        let ghost start = self@;
        assert(start == old(self)@.with_rolls(start.rolls));
        let r = crate::machine::actions_in(actions, 0, self, crate::semantics::MAX_DEPTH);
        assert((crate::semantics::Ran { res: crate::machine::ran_view(r), scope: self@ })
            == crate::semantics::actions_spec(
            crate::action::actions_model(actions@),
            0,
            old(self)@.with_rolls(start.rolls),
            crate::semantics::MAX_DEPTH as nat,
        ));
        r
    }

    /// Draws numbers for dice, then runs the statement `a`: the result is
    /// that of the statement with the numbers drawn at hand.
    pub fn do_action(&mut self, a: &crate::action::Action) -> (r: Result<Value, ActionError>)
        requires
            old(self)@.wf(),
        ensures
            final(self)@.wf(),
            exists|rolls: Seq<u64>|
                crate::semantics::drawn(old(self)@.rolls, rolls, DICE_POOL as nat) && (Eval { res: eval_view(r), scope: final(self)@ })
                    == crate::semantics::action_spec(
                    a@,
                    #[trigger] old(self)@.with_rolls(rolls),
                    crate::semantics::MAX_DEPTH as nat,
                ),
            r is Ok ==> r->Ok_0@.wf(),
    {
        self.draw_dice(DICE_POOL);
        let ghost start = self@;
        assert(start == old(self)@.with_rolls(start.rolls));
        let r = crate::machine::action_in(a, self, crate::semantics::MAX_DEPTH);
        assert((Eval { res: eval_view(r), scope: self@ }) == crate::semantics::action_spec(
            a@,
            old(self)@.with_rolls(start.rolls),
            crate::semantics::MAX_DEPTH as nat,
        ));
        r
    }
}

/// The character sequences of a sequence of lines, element by element.
pub open spec fn lines_view(l: Seq<String>) -> Seq<Seq<char>> {
    Seq::new(l.len(), |i: int| l[i]@)
}

impl Scope {
    /// Runs the statement `a` for a user, and adds what it shows to `out`.
    /// Dice take the numbers that are at hand.
    pub fn show_one(&mut self, a: &crate::action::Action, out: &mut Vec<String>)
        requires
            old(self)@.wf(),
        ensures
            final(self)@.wf(),
            (crate::semantics::Shown { lines: lines_view(final(out)@), scope: final(self)@ })
                == crate::semantics::show_one(a@, old(self)@, lines_view(old(out)@)),
    {
        let ghost before = lines_view(out@);
        proof {
            reveal(crate::semantics::show_one);
        }
        match crate::machine::action_in(a, self, crate::semantics::MAX_DEPTH) {
            Ok(Value::Null) => {
                assert(self@.arena.release(ValueView::Null.handles()) == self@.arena);
                assert(self@.with_arena(self@.arena) == self@);
            },
            Ok(v) => {
                let line = v.print(0, &self.gm);
                self.gm.drop(v);
                out.push(line);
                assert(lines_view(out@) =~= before.push(line@));
            },
            Err(e) => {
                let mut line = String::from_str("Error ");
                let t = e.to_text();
                line.append(t.as_str());
                out.push(line);
                assert(lines_view(out@) =~= before.push(line@));
            },
        }
    }

    /// Runs the statements `acts` for a user, one after the other, and
    /// returns the lines to show. Before each statement numbers are drawn
    /// for its dice until `DICE_POOL` are at hand.
    pub fn run_all(&mut self, acts: &Vec<crate::action::Action>) -> (r: Vec<String>)
        requires
            old(self)@.wf(),
        ensures
            final(self)@.wf(),
            crate::semantics::shown(
                crate::action::actions_model(acts@),
                lines_view(r@),
                final(self)@,
                old(self)@,
            ),
    {
        let mut out: Vec<String> = Vec::new();
        let mut i: usize = 0;
        let ghost mut pools: Seq<Seq<u64>> = Seq::empty();
        let ghost all = crate::action::actions_model(acts@);
        assert(lines_view(out@) =~= Seq::<Seq<char>>::empty());
        proof {
            crate::semantics::lemma_ran_none(all, 0, self@);
        }
        while i < acts.len()
            invariant
                i <= acts@.len(),
                self@.wf(),
                all == crate::action::actions_model(acts@),
                pools.len() == i,
                crate::semantics::pools_drawn(all, 0, pools, old(self)@),
                (crate::semantics::Shown { lines: lines_view(out@), scope: self@ })
                    == crate::semantics::ran_lines(all, 0, pools, old(self)@),
            decreases acts@.len() - i,
        {
            let ghost st0 = self@;
            self.draw_dice(DICE_POOL);
            proof {
                crate::semantics::lemma_ran_step(all, 0, pools, self@.rolls, old(self)@);
                assert(self@ == st0.with_rolls(self@.rolls));
                assert(all[i as int] == acts@[i as int]@);
                pools = pools.push(self@.rolls);
            }
            self.show_one(&acts[i], &mut out);
            i += 1;
        }
        out
    }

    /// Reads the statements of the text `s` and runs them for a user.
    /// Returns the lines to show. A text that cannot be read whole runs
    /// nothing.
    pub fn run_text(&mut self, s: &str) -> (r: Result<Vec<String>, ActionError>)
        requires
            old(self)@.wf(),
        ensures
            final(self)@.wf(),
            handled(r, final(self)@, old(self)@, s@),
    {
        let acts = match crate::parse::parse(s) {
            Ok(a) => a,
            Err(e) => {
                return Err(ActionError::ParseErr(e));
            },
        };
        Ok(self.run_all(&acts))
    }

    /// Reads the statements of the text `s` and runs them for a user, with
    /// numbers drawn for the dice of each statement. Returns the lines to
    /// show. A text that cannot be read whole runs nothing.
    pub fn handle_input(&mut self, s: &str) -> (r: Result<Vec<String>, ActionError>)
        requires
            old(self)@.wf(),
        ensures
            final(self)@.wf(),
            handled(r, final(self)@, old(self)@, s@),
    {
        self.run_text(s)
    }

    /// Runs the statements `acts[from..]` for a user up to and with the
    /// first that asks for a file to be loaded, so that the file can be run
    /// before the statements that follow. Before each statement numbers are
    /// drawn for its dice until `DICE_POOL` are at hand. Returns the lines to
    /// show and the index of the statement to go on with.
    pub fn run_until_load(&mut self, acts: &Vec<crate::action::Action>, from: usize) -> (r: (
        Vec<String>,
        usize,
    ))
        requires
            old(self)@.wf(),
        ensures
            final(self)@.wf(),
            crate::semantics::stepped(
                crate::action::actions_model(acts@),
                from as nat,
                lines_view(r.0@),
                r.1 as nat,
                final(self)@,
                old(self)@,
            ),
    {
        let mut out: Vec<String> = Vec::new();
        let mut i: usize = from;
        let ghost mut pools: Seq<Seq<u64>> = Seq::empty();
        let ghost all = crate::action::actions_model(acts@);
        assert(lines_view(out@) =~= Seq::<Seq<char>>::empty());
        if from >= acts.len() {
            return (out, from);
        }
        proof {
            crate::semantics::lemma_ran_none(all, from as nat, self@);
        }
        let ghost start = self@;
        let ghost mut quiet_before = true;
        let mut done = false;
        let n = acts.len();
        while !done
            invariant
                n == acts@.len(),
                from <= i <= acts@.len(),
                from < acts@.len(),
                self@.wf(),
                all == crate::action::actions_model(acts@),
                from + pools.len() == i,
                start == old(self)@,
                crate::semantics::some_drawn(all, from as nat, pools, start),
                (crate::semantics::Shown { lines: lines_view(out@), scope: self@ })
                    == crate::semantics::ran_some(all, from as nat, pools, start),
                !done ==> i < acts@.len() && (i == from || self@.loads.len() == 0),
                done ==> i > from && (i == acts@.len() || self@.loads.len() > 0),
                i > from ==> quiet_before == (pools.len() == 1 || crate::semantics::ran_some(
                    all,
                    from as nat,
                    pools.drop_last(),
                    start,
                ).scope.loads.len() == 0),
                i > from ==> quiet_before,
            decreases acts@.len() - i + (if done { 0nat } else { 1nat }),
        {
            let ghost st0 = self@;
            self.draw_dice(DICE_POOL);
            proof {
                crate::semantics::lemma_some_step(all, from as nat, pools, self@.rolls, start);
                assert(self@ == st0.with_rolls(self@.rolls));
                assert(all[i as int] == acts@[i as int]@);
                quiet_before = pools.len() == 0 || st0.loads.len() == 0;
                pools = pools.push(self@.rolls);
            }
            self.show_one(&acts[i], &mut out);
            let waiting = self.loads.len();
            i += 1;
            if waiting > 0 || i >= n {
                done = true;
            }
        }
        (out, i)
    }
}

/// Whether `r` and the context `fin` are what reading and running the
/// text `text` from the context `start` leaves: the error of a text that
/// cannot be read, with the context as it was; or else the lines shown by
/// its statements, run one after the other, for some numbers that were
/// drawn for dice before each.
pub open spec fn handled(
    r: Result<Vec<String>, ActionError>,
    fin: ScopeView,
    start: ScopeView,
    text: Seq<char>,
) -> bool {
    match crate::parse::parse_spec(text) {
        Err(e) => r is Err && r->Err_0@ == ActionErrorView::ParseErr(
            crate::parse::read_error(e.0, e.1),
        ) && fin == start,
        Ok(acts) => r is Ok && crate::semantics::shown(acts, lines_view(r->Ok_0@), fin, start),
    }
}

} // verus!
