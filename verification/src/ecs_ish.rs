//! The arena: a store of values behind generation-checked handles, with
//! manual counting of the strong handles to each value.

use vstd::prelude::*;
use crate::value::{Value, ValueView};

verus! {

/// A handle to a slot of the arena at one generation of it. A strong handle
/// owns one count of the value; a weak one owns nothing.
#[derive(Debug)]
pub struct GenData {
    pub pos: usize,
    pub gen: u64,
    pub strong: bool,
}

/// One slot of the arena.
#[derive(Debug)]
pub struct StoreItem {
    pub val: Option<Value>,
    pub gen: u64,
    pub rc: u64,
}

/// The arena.
#[derive(Debug)]
pub struct GenManager {
    pub drops: Vec<usize>,
    pub items: Vec<StoreItem>,
}

/// The mathematical value of a [`StoreItem`].
pub struct SlotView {
    pub val: Option<ValueView>,
    pub gen: u64,
    pub rc: u64,
}

/// The mathematical value of a [`GenManager`]: its slots, and the stack of
/// free slots that `push` reuses from the top.
pub struct ArenaView {
    pub items: Seq<SlotView>,
    pub drops: Seq<usize>,
}

/// The sum of the strong counts of a sequence of slots.
pub open spec fn weight(items: Seq<SlotView>) -> nat
    decreases items.len(),
{
    if items.len() == 0 {
        0
    } else {
        weight(items.drop_last()) + items.last().rc as nat
    }
}

/// Replacing one slot changes the weight by the difference of the counts.
pub proof fn lemma_weight_update(items: Seq<SlotView>, i: int, s: SlotView)
    requires
        0 <= i < items.len(),
    ensures
        weight(items.update(i, s)) == weight(items) - items[i].rc + s.rc,
        weight(items) >= items[i].rc,
    decreases items.len(),
{
    let u = items.update(i, s);
    if i == items.len() - 1 {
        assert(u.drop_last() =~= items.drop_last());
    } else {
        lemma_weight_update(items.drop_last(), i, s);
        assert(u.drop_last() =~= items.drop_last().update(i, s));
    }
}

impl ArenaView {
    /// Whether `h` names a slot at its current generation.
    pub open spec fn current(self, h: GenData) -> bool {
        h.pos < self.items.len() && self.items[h.pos as int].gen == h.gen
    }

    /// Whether `h` names a value that is there.
    pub open spec fn live(self, h: GenData) -> bool {
        self.current(h) && self.items[h.pos as int].val is Some
    }

    /// The value that `h` names, if it is there.
    pub open spec fn get(self, h: GenData) -> Option<ValueView> {
        if self.live(h) {
            self.items[h.pos as int].val
        } else {
            None
        }
    }

    /// The strong count of the slot of `h`.
    pub open spec fn count(self, h: GenData) -> u64
        recommends
            h.pos < self.items.len(),
    {
        self.items[h.pos as int].rc
    }

    /// The invariant of the arena: the free stack names distinct empty
    /// slots whose generation can still grow; a slot holds a value exactly
    /// while its count is positive; and every value held is well formed.
    pub open spec fn wf(self) -> bool {
        &&& forall|i: int|
            0 <= i < self.drops.len() ==> {
                &&& (#[trigger] self.drops[i]) < self.items.len()
                &&& self.items[self.drops[i] as int].val is None
                &&& self.items[self.drops[i] as int].gen < u64::MAX
            }
        &&& self.drops.no_duplicates()
        &&& forall|i: int|
            0 <= i < self.items.len() ==> ((#[trigger] self.items[i]).val is Some <==> self.items[i].rc
                > 0)
        &&& forall|i: int|
            0 <= i < self.items.len() && (#[trigger] self.items[i]).val is Some
                ==> self.items[i].val->0.wf()
    }

    /// The handle that `push` returns.
    pub open spec fn push_handle(self) -> GenData {
        if self.drops.len() > 0 {
            GenData {
                pos: self.drops.last(),
                gen: (self.items[self.drops.last() as int].gen + 1) as u64,
                strong: true,
            }
        } else {
            GenData { pos: self.items.len() as usize, gen: 0, strong: true }
        }
    }

    /// The arena after `v` was stored: in the slot on top of the free stack,
    /// at its next generation, or else in a new slot at the end.
    pub open spec fn push(self, v: ValueView) -> ArenaView {
        let h = self.push_handle();
        let slot = SlotView { val: Some(v), gen: h.gen, rc: 1 };
        if self.drops.len() > 0 {
            ArenaView { items: self.items.update(h.pos as int, slot), drops: self.drops.drop_last() }
        } else {
            ArenaView { items: self.items.push(slot), drops: self.drops }
        }
    }

    /// Whether the value that `h` names can take one more owner: it is
    /// there, and its count can grow by one.
    pub open spec fn can_upgrade(self, h: GenData) -> bool {
        self.live(h) && self.count(h) < u64::MAX
    }

    /// The arena after one more owner of the value of `h` was counted,
    /// where it can be; otherwise the arena as it is.
    pub open spec fn upgrade(self, h: GenData) -> ArenaView {
        if self.can_upgrade(h) {
            ArenaView {
                items: self.items.update(
                    h.pos as int,
                    SlotView { rc: (self.count(h) + 1) as u64, ..self.items[h.pos as int] },
                ),
                ..self
            }
        } else {
            self
        }
    }

    /// Whether the owner `h` can be counted once more: `h` is strong, and
    /// the value that it names can take one more owner. A weak handle takes
    /// part in no counting.
    pub open spec fn can_inc(self, h: GenData) -> bool {
        h.strong && self.can_upgrade(h)
    }

    /// The arena after the strong handle `h` was counted once more, where
    /// it can be; otherwise the arena as it is.
    pub open spec fn inc_rc(self, h: GenData) -> ArenaView {
        if self.can_inc(h) {
            self.upgrade(h)
        } else {
            self
        }
    }

    /// Whether giving up `h` takes one count off its slot: it is strong,
    /// names its slot at the current generation, and a count is left.
    pub open spec fn counts(self, h: GenData) -> bool {
        h.strong && self.current(h) && self.count(h) > 0
    }

    /// The arena with the value of the slot `pos` replaced.
    pub open spec fn with_value(self, pos: int, v: ValueView) -> ArenaView {
        ArenaView {
            items: self.items.update(pos, SlotView { val: Some(v), ..self.items[pos] }),
            ..self
        }
    }

    /// The arena after one handle was given up, and the handles that this
    /// set free. A handle that does not count changes nothing. Otherwise the
    /// count of its slot goes down by one; if that was the last, the value
    /// leaves the slot, the slot joins the free stack (unless its generation
    /// cannot grow any more), and the handles that the value held are set
    /// free.
    pub open spec fn release_one(self, h: GenData) -> (ArenaView, Seq<GenData>) {
        if !self.counts(h) {
            (self, Seq::empty())
        } else {
            let it = self.items[h.pos as int];
            if it.rc > 1 {
                (
                    ArenaView {
                        items: self.items.update(
                            h.pos as int,
                            SlotView { rc: (it.rc - 1) as u64, ..it },
                        ),
                        ..self
                    },
                    Seq::empty(),
                )
            } else {
                (
                    ArenaView {
                        items: self.items.update(
                            h.pos as int,
                            SlotView { val: None, gen: it.gen, rc: 0 },
                        ),
                        drops: if it.val is Some && it.gen < u64::MAX {
                            self.drops.push(h.pos)
                        } else {
                            self.drops
                        },
                    },
                    if it.val is Some {
                        it.val->0.handles()
                    } else {
                        Seq::empty()
                    },
                )
            }
        }
    }

    /// The arena after all handles of `work` were given up, the last one
    /// first, together with every handle that this set free in turn.
    pub open spec fn release(self, work: Seq<GenData>) -> ArenaView
        decreases weight(self.items), work.len(),
    {
        if work.len() == 0 {
            self
        } else {
            let step = self.release_one(work.last());
            if self.counts(work.last()) {
                proof {
                    let h = work.last();
                    let it = self.items[h.pos as int];
                    lemma_weight_update(self.items, h.pos as int, SlotView { rc: (it.rc - 1) as u64, ..it });
                    lemma_weight_update(self.items, h.pos as int, SlotView { val: None, gen: it.gen, rc: 0 });
                }
                step.0.release(work.drop_last() + step.1)
            } else {
                self.release(work.drop_last())
            }
        }
    }
}

impl ArenaView {
    /// Giving up one handle keeps the invariant, the number of slots and
    /// their generations, and fills no empty slot.
    pub proof fn lemma_release_one(self, h: GenData)
        requires
            self.wf(),
        ensures
            self.release_one(h).0.wf(),
            self.release_one(h).0.items.len() == self.items.len(),
            forall|i: int|
                0 <= i < self.items.len() ==> {
                    &&& (#[trigger] self.release_one(h).0.items[i]).gen == self.items[i].gen
                    &&& self.release_one(h).0.items[i].rc <= self.items[i].rc
                    &&& (self.items[i].val is None ==> self.release_one(h).0.items[i].val is None)
                    &&& (self.release_one(h).0.items[i].val is Some ==> self.release_one(
                        h,
                    ).0.items[i].val == self.items[i].val)
                },
    {
        let r = self.release_one(h).0;
        if self.counts(h) {
            let it = self.items[h.pos as int];
            if it.rc == 1 {
                assert(it.val is Some);
                assert forall|i: int| 0 <= i < self.drops.len() implies self.drops[i]
                    != h.pos by {
                    assert(self.items[self.drops[i] as int].val is None);
                }
                if it.gen < u64::MAX {
                    assert(r.drops =~= self.drops.push(h.pos));
                    assert forall|i: int, j: int|
                        0 <= i < r.drops.len() && 0 <= j < r.drops.len() && i != j implies r.drops[i]
                        != r.drops[j] by {
                        if i < self.drops.len() && j < self.drops.len() {
                            assert(self.drops[i] != self.drops[j]);
                        }
                    }
                }
            }
        }
    }

    /// Giving up handles keeps the invariant, the number of slots and their
    /// generations; no count grows and no empty slot is filled.
    pub proof fn lemma_release(self, work: Seq<GenData>)
        requires
            self.wf(),
        ensures
            self.release(work).wf(),
            self.release(work).items.len() == self.items.len(),
            forall|i: int|
                0 <= i < self.items.len() ==> {
                    &&& (#[trigger] self.release(work).items[i]).gen == self.items[i].gen
                    &&& self.release(work).items[i].rc <= self.items[i].rc
                    &&& (self.items[i].val is None ==> self.release(work).items[i].val is None)
                    &&& (self.release(work).items[i].val is Some ==> self.release(work).items[i].val
                        == self.items[i].val)
                },
        decreases weight(self.items), work.len(),
    {
        if work.len() > 0 {
            let h = work.last();
            let step = self.release_one(h);
            self.lemma_release_one(h);
            if self.counts(h) {
                let it = self.items[h.pos as int];
                lemma_weight_update(
                    self.items,
                    h.pos as int,
                    SlotView { rc: (it.rc - 1) as u64, ..it },
                );
                lemma_weight_update(
                    self.items,
                    h.pos as int,
                    SlotView { val: None, gen: it.gen, rc: 0 },
                );
                step.0.lemma_release(work.drop_last() + step.1);
                assert forall|i: int| 0 <= i < self.items.len() implies {
                    &&& (#[trigger] self.release(work).items[i]).gen == self.items[i].gen
                    &&& self.release(work).items[i].rc <= self.items[i].rc
                    &&& (self.items[i].val is None ==> self.release(work).items[i].val is None)
                    &&& (self.release(work).items[i].val is Some ==> self.release(work).items[i].val
                        == self.items[i].val)
                } by {
                    assert(step.0.items[i].gen == self.items[i].gen);
                }
            } else {
                self.lemma_release(work.drop_last());
            }
        }
    }

    /// Slots that a cascade does not count down are as they were.
    pub proof fn lemma_release_nothing(self, work: Seq<GenData>)
        requires
            forall|i: int| 0 <= i < work.len() ==> !self.counts(#[trigger] work[i]),
        ensures
            self.release(work) == self,
        decreases work.len(),
    {
        if work.len() > 0 {
            self.lemma_release_nothing(work.drop_last());
        }
    }
}

impl View for StoreItem {
    type V = SlotView;

    open spec fn view(&self) -> SlotView {
        SlotView {
            val: match self.val {
                Some(v) => Some(v@),
                None => None,
            },
            gen: self.gen,
            rc: self.rc,
        }
    }
}

impl View for GenManager {
    type V = ArenaView;

    open spec fn view(&self) -> ArenaView {
        ArenaView {
            items: Seq::new(self.items@.len(), |i: int| self.items@[i]@),
            drops: self.drops@,
        }
    }
}

impl GenData {
    /// Whether two handles name the same slot at the same generation,
    /// whatever their strength.
    pub open spec fn same_slot(self, other: GenData) -> bool {
        self.pos == other.pos && self.gen == other.gen
    }

    /// A copy of the handle as it is, strength included; no count changes.
    pub fn clone_ignore_gm(&self) -> (r: GenData)
        ensures
            r == *self,
    {
        GenData { pos: self.pos, gen: self.gen, strong: self.strong }
    }

    /// A copy of the handle as it is, strength included; no count changes.
    pub fn clone_ig(&self) -> (r: GenData)
        ensures
            r == *self,
    {
        self.clone_ignore_gm()
    }

    /// A copy of the handle: of a strong handle whose value can be counted
    /// once more, a strong one, and the count grows; otherwise a weak one.
    pub fn clone(&self, gm: &mut GenManager) -> (r: GenData)
        requires
            old(gm)@.wf(),
        ensures
            r.same_slot(*self),
            r.strong == old(gm)@.can_inc(*self),
            final(gm)@ == old(gm)@.inc_rc(*self),
            final(gm)@.wf(),
    {
        if gm.inc_rc(self) {
            return GenData { pos: self.pos, gen: self.gen, strong: true };
        }
        GenData { pos: self.pos, gen: self.gen, strong: false }
    }

    /// A second strong handle to the value of a strong handle, if the value
    /// is there and can be counted once more; the count then grows by one.
    /// A weak handle gives none, and nothing changes.
    pub fn clone_strong(&self, gm: &mut GenManager) -> (r: Option<GenData>)
        requires
            old(gm)@.wf(),
        ensures
            r is Some == (self.strong && old(gm)@.can_upgrade(*self)),
            r is Some ==> r->0 == *self,
            r is None ==> final(gm)@ == old(gm)@,
            final(gm)@ == old(gm)@.inc_rc(*self),
            final(gm)@.wf(),
    {
        if gm.inc_rc(self) {
            Some(GenData { pos: self.pos, gen: self.gen, strong: true })
        } else {
            None
        }
    }

    /// An owning handle to the value that this handle names, whatever its
    /// own strength, if the value is there and can take one more owner; the
    /// count then grows by one. This is how a weak handle that was found on
    /// a walk becomes an owner.
    pub fn upgrade(&self, gm: &mut GenManager) -> (r: Option<GenData>)
        requires
            old(gm)@.wf(),
        ensures
            r is Some == old(gm)@.can_upgrade(*self),
            r is Some ==> r->0 == (GenData { strong: true, ..*self }),
            final(gm)@ == old(gm)@.upgrade(*self),
            final(gm)@.wf(),
    {
        if gm.upgrade(self) {
            Some(GenData { pos: self.pos, gen: self.gen, strong: true })
        } else {
            None
        }
    }

    /// A weak handle to the same slot.
    pub fn clone_weak(&self) -> (r: GenData)
        ensures
            r == (GenData { strong: false, ..*self }),
    {
        GenData { pos: self.pos, gen: self.gen, strong: false }
    }
}

impl PartialEq for GenData {
    fn eq(&self, rhs: &GenData) -> (r: bool) {
        self.pos == rhs.pos && self.gen == rhs.gen
    }
}

impl vstd::std_specs::cmp::PartialEqSpecImpl for GenData {
    open spec fn obeys_eq_spec() -> bool {
        true
    }

    open spec fn eq_spec(&self, rhs: &GenData) -> bool {
        self.same_slot(*rhs)
    }
}

impl GenManager {
    /// The empty arena.
    pub fn new() -> (r: Self)
        ensures
            r@ == (ArenaView { items: Seq::empty(), drops: Seq::empty() }),
            r@.wf(),
    {
        let r = GenManager { drops: Vec::new(), items: Vec::new() };
        assert(r@.items =~= Seq::empty());
        r
    }

    /// The value that `gd` names, if it is there. A handle of another
    /// generation, or past the last slot, names nothing.
    pub fn get<'a>(&'a self, gd: &GenData) -> (r: Option<&'a Value>)
        ensures
            r is Some == self@.live(*gd),
            r is Some ==> Some(*r->0) == self.items@[gd.pos as int].val,
            r is Some ==> Some(r->0@) == self@.get(*gd),
    {
        if gd.pos >= self.items.len() {
            return None;
        }
        let rs = &self.items[gd.pos];
        if gd.gen != rs.gen {
            return None;
        }
        rs.val.as_ref()
    }

    /// The value that `gd` names, for changing it in place, if it is there.
    /// Only the value of that one slot can change through the reference.
    pub fn get_mut<'a>(&'a mut self, gd: &GenData) -> (r: Option<&'a mut Value>)
        ensures
            r is Some == old(self)@.live(*gd),
            final(self).drops@ == old(self).drops@,
            r is None ==> final(self).items@ == old(self).items@,
            r is Some ==> Some(*r.unwrap()) == old(self).items@[gd.pos as int].val,
            r is Some ==> final(self).items@ == old(self).items@.update(
                gd.pos as int,
                StoreItem { val: Some(*final(r.unwrap())), ..old(self).items@[gd.pos as int] },
            ),
    {
        if gd.pos >= self.items.len() {
            return None;
        }
        if self.items[gd.pos].gen != gd.gen {
            return None;
        }
        let slot = &mut self.items[gd.pos];
        slot.val.as_mut()
    }

    /// How many strong handles to the slot of `gd` are counted, if `gd`
    /// names a value that is there.
    pub fn count(&self, gd: &GenData) -> (r: Option<u64>)
        ensures
            r == if self@.live(*gd) {
                Some(self@.count(*gd))
            } else {
                None
            },
    {
        if gd.pos >= self.items.len() {
            return None;
        }
        let rs = &self.items[gd.pos];
        if gd.gen != rs.gen || rs.val.is_none() {
            return None;
        }
        Some(rs.rc)
    }

    /// Stores `v` and returns the one strong handle to it.
    pub fn push(&mut self, v: Value) -> (r: GenData)
        requires
            old(self)@.wf(),
            v@.wf(),
        ensures
            r == old(self)@.push_handle(),
            final(self)@ == old(self)@.push(v@),
            final(self)@.wf(),
            final(self)@.get(r) == Some(v@),
    {
        let n = self.items.len();
        if self.drops.len() > 0 {
            let loc = self.drops.pop().unwrap();
            assert(old(self)@.drops[old(self)@.drops.len() - 1] == loc);
            let gen: u64 = self.items[loc].gen + 1;
            let slot = &mut self.items[loc];
            slot.val = Some(v);
            slot.gen = gen;
            slot.rc = 1;
            assert(self@.items =~= old(self)@.push(v@).items);
            assert(self@.drops =~= old(self)@.push(v@).drops);
            proof {
                old(self)@.lemma_push_wf(v@);
            }
            return GenData { pos: loc, gen, strong: true };
        }
        self.items.push(StoreItem { val: Some(v), gen: 0, rc: 1 });
        assert(self@.items =~= old(self)@.push(v@).items);
        proof {
            old(self)@.lemma_push_wf(v@);
        }
        GenData { gen: 0, pos: n, strong: true }
    }

    /// Counts the strong handle `g` once more, if the value that it names
    /// is there and the count can grow. Says whether it did. A weak handle
    /// is never counted: the answer is no, and nothing changes.
    pub fn inc_rc(&mut self, g: &GenData) -> (r: bool)
        requires
            old(self)@.wf(),
        ensures
            r == (g.strong && old(self)@.can_upgrade(*g)),
            r == old(self)@.can_inc(*g),
            !r ==> final(self)@ == old(self)@,
            final(self)@ == old(self)@.inc_rc(*g),
            final(self)@.wf(),
    {
        if !g.strong {
            return false;
        }
        self.upgrade(g)
    }

    /// Counts one more owner of the value that `g` names, whatever the
    /// strength of `g`, if the value is there and the count can grow. Says
    /// whether it did; if not, nothing changes.
    pub fn upgrade(&mut self, g: &GenData) -> (r: bool)
        requires
            old(self)@.wf(),
        ensures
            r == old(self)@.can_upgrade(*g),
            !r ==> final(self)@ == old(self)@,
            final(self)@ == old(self)@.upgrade(*g),
            final(self)@.wf(),
    {
        if g.pos >= self.items.len() {
            return false;
        }
        if self.items[g.pos].gen != g.gen || self.items[g.pos].val.is_none() || self.items[g.pos].rc
            == u64::MAX {
            return false;
        }
        let slot = &mut self.items[g.pos];
        slot.rc = slot.rc + 1;
        assert(self@.items =~= old(self)@.upgrade(*g).items);
        true
    }

    /// Gives up every handle of `work`, the last one first, and every handle
    /// that this sets free in turn.
    pub fn release(&mut self, work: Vec<GenData>)
        requires
            old(self)@.wf(),
        ensures
            final(self)@ == old(self)@.release(work@),
            final(self)@.wf(),
    {
        let mut work = work;
        let ghost all = work@;
        while work.len() > 0
            invariant
                self@.wf(),
                self@.release(work@) == old(self)@.release(all),
            decreases weight(self@.items), work@.len(),
        {
            let ghost before = self@;
            let ghost work_before = work@;
            let h = work.pop().unwrap();
            assert(work@ =~= work_before.drop_last());
            proof {
                before.lemma_release_one(h);
            }
            if h.strong && h.pos < self.items.len() && self.items[h.pos].gen == h.gen
                && self.items[h.pos].rc > 0 {
                assert(before.counts(h));
                if self.items[h.pos].rc > 1 {
                    let slot = &mut self.items[h.pos];
                    slot.rc = slot.rc - 1;
                    proof {
                        let it = before.items[h.pos as int];
                        lemma_weight_update(
                            before.items,
                            h.pos as int,
                            SlotView { rc: (it.rc - 1) as u64, ..it },
                        );
                        assert(self@.items =~= before.release_one(h).0.items);
                        assert(work@ =~= work_before.drop_last() + before.release_one(h).1);
                    }
                } else {
                    let slot = &mut self.items[h.pos];
                    let gen = slot.gen;
                    let taken = slot.val.take();
                    slot.rc = 0;
                    proof {
                        let it = before.items[h.pos as int];
                        lemma_weight_update(
                            before.items,
                            h.pos as int,
                            SlotView { val: None, gen: it.gen, rc: 0 },
                        );
                    }
                    match taken {
                        Some(v) => {
                            let mut kids = v.gen_drop();
                            work.append(&mut kids);
                            if gen < u64::MAX {
                                self.drops.push(h.pos);
                            }
                        },
                        None => {},
                    }
                    assert(self@.items =~= before.release_one(h).0.items);
                    assert(self@.drops =~= before.release_one(h).0.drops);
                    assert(work@ =~= work_before.drop_last() + before.release_one(h).1);
                }
            } else {
                assert(!before.counts(h));
            }
        }
    }

    /// Gives up the handle `g`. A weak handle, or one that names no slot at
    /// its current generation, changes nothing. Otherwise the count goes
    /// down by one; when it reaches zero the value leaves its slot, and the
    /// handles that it held are given up in the same way.
    pub fn drop_ref(&mut self, g: GenData)
        requires
            old(self)@.wf(),
        ensures
            final(self)@ == old(self)@.release(seq![g]),
            !g.strong ==> final(self)@ == old(self)@,
            final(self)@.wf(),
    {
        let mut work: Vec<GenData> = Vec::new();
        work.push(g);
        assert(work@ =~= seq![g]);
        proof {
            if !g.strong {
                old(self)@.lemma_release_nothing(seq![g]);
            }
        }
        self.release(work);
    }

    /// Gives up every handle that the value `v` holds.
    pub fn drop(&mut self, v: Value)
        requires
            old(self)@.wf(),
        ensures
            final(self)@ == old(self)@.release(v@.handles()),
            final(self)@.wf(),
    {
        let work = v.gen_drop();
        self.release(work);
    }
}

/// Once the one strong handle to a stored value is given up, the handle
/// names nothing. A later `push` may reuse the slot, but then under another
/// generation, so that the old handle still names nothing.
pub proof fn lemma_push_release(a: ArenaView, v: ValueView, w: ValueView)
    requires
        a.wf(),
        v.wf(),
        w.wf(),
        a.items.len() < usize::MAX,
    ensures
        a.push(v).release(seq![a.push_handle()]).get(a.push_handle()) is None,
        !a.push(v).release(seq![a.push_handle()]).push_handle().same_slot(a.push_handle()),
        a.push(v).release(seq![a.push_handle()]).push(w).get(a.push_handle()) is None,
{
    let h = a.push_handle();
    a.lemma_push_wf(v);
    a.push(v).lemma_last_release(h);
    a.push(v).lemma_release(seq![h]);
    let b = a.push(v).release(seq![h]);
    b.lemma_stale_stays(h, w);
}

/// A second strong handle keeps the value alive when the first is given up,
/// and the value leaves when the second is given up too.
pub proof fn lemma_clone_release(a: ArenaView, h: GenData)
    requires
        a.wf(),
        h.strong,
        a.can_inc(h),
        a.count(h) == 1,
    ensures
        a.inc_rc(h).release(seq![h]).get(h) == a.get(h),
        a.inc_rc(h).release(seq![h]).get(h) is Some,
        a.inc_rc(h).release(seq![h]).release(seq![h]).get(h) is None,
{
    let a1 = a.inc_rc(h);
    let step = a1.release_one(h);
    assert(a1.counts(h));
    assert(seq![h].drop_last() + step.1 =~= Seq::<GenData>::empty());
    assert(a1.release(seq![h]) == step.0.release(Seq::<GenData>::empty()));
    assert(step.0.items =~= a.items);
    assert(step.0 == a);
    a.lemma_last_release(h);
}

impl ArenaView {
    /// Giving up the last strong handle to a value empties its slot.
    pub proof fn lemma_last_release(self, h: GenData)
        requires
            self.wf(),
            h.strong,
            self.live(h),
            self.count(h) == 1,
        ensures
            self.release(seq![h]).get(h) is None,
            self.release(seq![h]).current(h),
            self.release(seq![h]).wf(),
    {
        let step = self.release_one(h);
        self.lemma_release_one(h);
        assert(self.counts(h));
        let it = self.items[h.pos as int];
        lemma_weight_update(self.items, h.pos as int, SlotView { val: None, gen: it.gen, rc: 0 });
        assert(seq![h].last() == h);
        assert(self.release(seq![h]) == step.0.release(seq![h].drop_last() + step.1));
        step.0.lemma_release(seq![h].drop_last() + step.1);
        assert(step.0.items[h.pos as int].val is None);
    }

    /// A handle whose slot is empty at the handle's generation names
    /// nothing after a `push` either, and `push` returns another handle.
    pub proof fn lemma_stale_stays(self, h: GenData, w: ValueView)
        requires
            self.wf(),
            self.current(h),
            !self.live(h),
            self.items.len() <= usize::MAX,
        ensures
            self.push(w).get(h) is None,
            !self.push_handle().same_slot(h),
    {
        if self.drops.len() > 0 {
            assert(self.drops[self.drops.len() - 1] == self.drops.last());
        }
    }

    /// Replacing the value of a slot that holds one keeps the invariant.
    pub proof fn lemma_with_value_wf(self, pos: int, v: ValueView)
        requires
            self.wf(),
            0 <= pos < self.items.len(),
            self.items[pos].val is Some,
            v.wf(),
        ensures
            self.with_value(pos, v).wf(),
    {
        let r = self.with_value(pos, v);
        assert forall|i: int| 0 <= i < r.drops.len() implies {
            &&& (#[trigger] r.drops[i]) < r.items.len()
            &&& r.items[r.drops[i] as int].val is None
            &&& r.items[r.drops[i] as int].gen < u64::MAX
        } by {
            assert(self.items[self.drops[i] as int].val is None);
        }
    }

    /// Storing a value leaves every value that is there as it is.
    pub proof fn lemma_push_keeps(self, v: ValueView, h: GenData)
        requires
            self.wf(),
            self.live(h),
            self.items.len() <= usize::MAX,
        ensures
            self.push(v).get(h) == self.get(h),
            self.push(v).count(h) == self.count(h),
            self.push_handle().pos != h.pos,
    {
        if self.drops.len() > 0 {
            assert(self.drops[self.drops.len() - 1] == self.drops.last());
        }
    }

    /// Storing a well-formed value keeps the invariant, and the handle
    /// returned names the value.
    pub proof fn lemma_push_wf(self, v: ValueView)
        requires
            self.wf(),
            v.wf(),
            self.items.len() <= usize::MAX,
        ensures
            self.push(v).wf(),
            self.push(v).get(self.push_handle()) == Some(v),
            !self.live(self.push_handle()),
    {
        let r = self.push(v);
        if self.drops.len() > 0 {
            let loc = self.drops.last();
            assert(self.drops[self.drops.len() - 1] == loc);
            assert forall|i: int| 0 <= i < r.drops.len() implies {
                &&& (#[trigger] r.drops[i]) < r.items.len()
                &&& r.items[r.drops[i] as int].val is None
                &&& r.items[r.drops[i] as int].gen < u64::MAX
            } by {
                assert(r.drops[i] == self.drops[i]);
                assert(self.drops[i] != self.drops[self.drops.len() - 1]);
            }
        }
    }
}

} // verus!
