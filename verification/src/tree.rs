//! The keyed container of the document: handles under unique keys, kept in
//! the order of the keys.

use vstd::prelude::*;
use crate::ecs_ish::GenData;
use crate::proto::{
    NodeView, ProtoNode, lemma_node_lt_irreflexive, lemma_node_lt_total,
    lemma_node_lt_transitive, node_lt,
};

verus! {

/// One binding of a [`RefTree`].
#[derive(Debug)]
pub struct TreeEntry {
    pub key: ProtoNode,
    pub val: GenData,
}

/// Handles under unique keys, in ascending order of the keys.
#[derive(Debug)]
pub struct RefTree {
    pub entries: Vec<TreeEntry>,
}

/// The mathematical value of a [`RefTree`]: its bindings in order.
pub type TreeView = Seq<(NodeView, GenData)>;

/// Whether the keys ascend strictly, so that no key occurs twice.
pub open spec fn tree_sorted(s: TreeView) -> bool {
    forall|i: int, j: int| 0 <= i < j < s.len() ==> node_lt(#[trigger] s[i].0, #[trigger] s[j].0)
}

/// How many leading bindings have a key below `k`.
pub open spec fn lower(s: TreeView, k: NodeView) -> nat
    decreases s.len(),
{
    if s.len() == 0 || !node_lt(s[0].0, k) {
        0
    } else {
        1 + lower(s.drop_first(), k)
    }
}

/// Whether `k` is bound.
pub open spec fn tree_has(s: TreeView, k: NodeView) -> bool {
    lower(s, k) < s.len() && s[lower(s, k) as int].0 == k
}

/// The handle bound to `k`, if there is one.
pub open spec fn tree_get(s: TreeView, k: NodeView) -> Option<GenData> {
    if tree_has(s, k) {
        Some(s[lower(s, k) as int].1)
    } else {
        None
    }
}

/// The bindings with `k` bound to `v`, in place of an earlier binding of `k`
/// if there was one.
pub open spec fn tree_insert(s: TreeView, k: NodeView, v: GenData) -> TreeView {
    if tree_has(s, k) {
        s.update(lower(s, k) as int, (k, v))
    } else {
        s.insert(lower(s, k) as int, (k, v))
    }
}

/// The bindings without that of `k`.
pub open spec fn tree_remove(s: TreeView, k: NodeView) -> TreeView {
    if tree_has(s, k) {
        s.remove(lower(s, k) as int)
    } else {
        s
    }
}

/// The handles of the bindings, in order.
pub open spec fn tree_values(s: TreeView) -> Seq<GenData> {
    Seq::new(s.len(), |i: int| s[i].1)
}

/// `lower` is the index up to which all keys are below `k`.
pub proof fn lemma_lower_is(s: TreeView, k: NodeView, i: int)
    requires
        0 <= i <= s.len(),
        forall|j: int| 0 <= j < i ==> node_lt(#[trigger] s[j].0, k),
        i == s.len() || !node_lt(s[i].0, k),
    ensures
        lower(s, k) == i,
    decreases i,
{
    if i > 0 {
        let t = s.drop_first();
        assert forall|j: int| 0 <= j < i - 1 implies node_lt(#[trigger] t[j].0, k) by {
            assert(t[j] == s[j + 1]);
        }
        lemma_lower_is(t, k, i - 1);
    }
}

/// What `lower` says of the keys on both of its sides.
pub proof fn lemma_lower_bounds(s: TreeView, k: NodeView)
    ensures
        lower(s, k) <= s.len(),
        forall|j: int| 0 <= j < lower(s, k) ==> node_lt(#[trigger] s[j].0, k),
        lower(s, k) == s.len() || !node_lt(s[lower(s, k) as int].0, k),
    decreases s.len(),
{
    if s.len() > 0 && node_lt(s[0].0, k) {
        let t = s.drop_first();
        lemma_lower_bounds(t, k);
        assert forall|j: int| 0 <= j < lower(s, k) implies node_lt(#[trigger] s[j].0, k) by {
            if j > 0 {
                assert(s[j] == t[j - 1]);
            }
        }
    }
}

/// In ordered bindings, a key is bound exactly if some binding has it, and
/// then to that binding's handle.
pub proof fn lemma_tree_get_at(s: TreeView, i: int)
    requires
        tree_sorted(s),
        0 <= i < s.len(),
    ensures
        lower(s, s[i].0) == i,
        tree_get(s, s[i].0) == Some(s[i].1),
{
    lemma_node_lt_irreflexive(s[i].0);
    lemma_lower_is(s, s[i].0, i);
}

/// In ordered bindings, a key that no binding has is not bound.
pub proof fn lemma_tree_get_none(s: TreeView, k: NodeView)
    requires
        forall|i: int| 0 <= i < s.len() ==> (#[trigger] s[i]).0 != k,
    ensures
        tree_get(s, k) is None,
{
    lemma_lower_bounds(s, k);
}

/// A binding that `tree_get` finds is one of the bindings.
pub proof fn lemma_tree_get_some(s: TreeView, k: NodeView)
    requires
        tree_get(s, k) is Some,
    ensures
        0 <= lower(s, k) < s.len(),
        s[lower(s, k) as int] == (k, tree_get(s, k)->0),
{
}

/// Inserting keeps the order, binds the key, and leaves every other key as
/// it was.
pub proof fn lemma_tree_insert(s: TreeView, k: NodeView, v: GenData)
    requires
        tree_sorted(s),
    ensures
        tree_sorted(tree_insert(s, k, v)),
        tree_get(tree_insert(s, k, v), k) == Some(v),
        forall|q: NodeView| q != k ==> tree_get(tree_insert(s, k, v), q) == tree_get(s, q),
{
    let i = lower(s, k) as int;
    let t = tree_insert(s, k, v);
    lemma_lower_bounds(s, k);
    if !tree_has(s, k) {
        if i < s.len() {
            lemma_node_lt_total(s[i].0, k);
        }
        assert forall|a: int, b: int| 0 <= a < b < t.len() implies node_lt(
            #[trigger] t[a].0,
            #[trigger] t[b].0,
        ) by {
            if a == i {
                assert(t[b] == s[b - 1]);
                if b - 1 > i {
                    lemma_node_lt_transitive(k, s[i].0, s[b - 1].0);
                }
            } else if b == i {
                assert(t[a] == s[a]);
            } else {
                let a0 = if a < i {
                    a
                } else {
                    a - 1
                };
                let b0 = if b < i {
                    b
                } else {
                    b - 1
                };
                assert(t[a] == s[a0] && t[b] == s[b0]);
            }
        }
    } else {
        assert forall|a: int, b: int| 0 <= a < b < t.len() implies node_lt(
            #[trigger] t[a].0,
            #[trigger] t[b].0,
        ) by {
            assert(t[a].0 == s[a].0 && t[b].0 == s[b].0);
        }
    }
    assert(t[i] == (k, v));
    lemma_tree_get_at(t, i);
    assert forall|q: NodeView| q != k implies tree_get(t, q) == tree_get(s, q) by {
        lemma_lower_bounds(s, q);
        let j = lower(s, q) as int;
        if tree_has(s, q) {
            let j2 = if tree_has(s, k) || j < i {
                j
            } else {
                j + 1
            };
            lemma_tree_get_at(s, j);
            assert(t[j2] == s[j]);
            lemma_tree_get_at(t, j2);
        } else {
            assert forall|m: int| 0 <= m < t.len() implies (#[trigger] t[m]).0 != q by {
                if m != i {
                    let m0 = if tree_has(s, k) || m < i {
                        m
                    } else {
                        m - 1
                    };
                    assert(t[m].0 == s[m0].0);
                    if s[m0].0 == q {
                        lemma_tree_get_at(s, m0);
                    }
                }
            }
            lemma_tree_get_none(t, q);
        }
    }
}

/// Removing keeps the order, unbinds the key, and leaves every other key as
/// it was.
pub proof fn lemma_tree_remove(s: TreeView, k: NodeView)
    requires
        tree_sorted(s),
    ensures
        tree_sorted(tree_remove(s, k)),
        tree_get(tree_remove(s, k), k) is None,
        forall|q: NodeView| q != k ==> tree_get(tree_remove(s, k), q) == tree_get(s, q),
{
    let i = lower(s, k) as int;
    let t = tree_remove(s, k);
    lemma_lower_bounds(s, k);
    if tree_has(s, k) {
        assert forall|a: int, b: int| 0 <= a < b < t.len() implies node_lt(
            #[trigger] t[a].0,
            #[trigger] t[b].0,
        ) by {
            let a0 = if a < i {
                a
            } else {
                a + 1
            };
            let b0 = if b < i {
                b
            } else {
                b + 1
            };
            assert(t[a] == s[a0] && t[b] == s[b0]);
        }
        assert forall|m: int| 0 <= m < t.len() implies (#[trigger] t[m]).0 != k by {
            let m0 = if m < i {
                m
            } else {
                m + 1
            };
            assert(t[m] == s[m0]);
            if s[m0].0 == k {
                lemma_tree_get_at(s, m0);
            }
        }
        lemma_tree_get_none(t, k);
        assert forall|q: NodeView| q != k implies tree_get(t, q) == tree_get(s, q) by {
            lemma_lower_bounds(s, q);
            let j = lower(s, q) as int;
            if tree_has(s, q) {
                let j2 = if j < i {
                    j
                } else {
                    j - 1
                };
                lemma_tree_get_at(s, j);
                assert(t[j2] == s[j]);
                lemma_tree_get_at(t, j2);
            } else {
                assert forall|m: int| 0 <= m < t.len() implies (#[trigger] t[m]).0 != q by {
                    let m0 = if m < i {
                        m
                    } else {
                        m + 1
                    };
                    assert(t[m] == s[m0]);
                    if s[m0].0 == q {
                        lemma_tree_get_at(s, m0);
                    }
                }
                lemma_tree_get_none(t, q);
            }
        }
    }
}

impl View for RefTree {
    type V = TreeView;

    open spec fn view(&self) -> TreeView {
        Seq::new(self.entries@.len(), |i: int| (self.entries@[i].key@, self.entries@[i].val))
    }
}

impl RefTree {
    /// Whether the bindings are in strictly ascending order of their keys.
    pub open spec fn wf(&self) -> bool {
        tree_sorted(self@)
    }

    /// The container without bindings.
    pub fn new() -> (r: Self)
        ensures
            r@ == Seq::<(NodeView, GenData)>::empty(),
            r.wf(),
    {
        let r = RefTree { entries: Vec::new() };
        assert(r@ =~= Seq::<(NodeView, GenData)>::empty());
        r
    }

    /// How many keys are bound.
    pub fn len(&self) -> (r: usize)
        ensures
            r == self@.len(),
    {
        self.entries.len()
    }

    /// The index of the first binding whose key is not below `k`.
    pub fn find(&self, k: &ProtoNode) -> (r: usize)
        ensures
            r == lower(self@, k@),
            r <= self@.len(),
    {
        let mut i: usize = 0;
        while i < self.entries.len() && self.entries[i].key.less(k)
            invariant
                i <= self.entries@.len(),
                forall|j: int| 0 <= j < i ==> node_lt(#[trigger] self@[j].0, k@),
            decreases self.entries@.len() - i,
        {
            i += 1;
        }
        proof {
            lemma_lower_is(self@, k@, i as int);
        }
        i
    }

    /// The handle bound to `k`, if there is one.
    pub fn get(&self, k: &ProtoNode) -> (r: Option<&GenData>)
        ensures
            r is Some == tree_get(self@, k@) is Some,
            r is Some ==> *r->0 == tree_get(self@, k@)->0,
    {
        let i = self.find(k);
        if i < self.entries.len() && self.entries[i].key.same(k) {
            Some(&self.entries[i].val)
        } else {
            None
        }
    }

    /// Binds `k` to `v`, and hands back the handle that `k` was bound to
    /// before, if there was one.
    pub fn insert(&mut self, k: ProtoNode, v: GenData) -> (r: Option<GenData>)
        requires
            old(self).wf(),
        ensures
            final(self)@ == tree_insert(old(self)@, k@, v),
            r == tree_get(old(self)@, k@),
            final(self).wf(),
    {
        let i = self.find(&k);
        proof {
            lemma_tree_insert(old(self)@, k@, v);
        }
        if i < self.entries.len() && self.entries[i].key.same(&k) {
            let old_entry = self.entries.remove(i);
            self.entries.insert(i, TreeEntry { key: k, val: v });
            assert(self@ =~= tree_insert(old(self)@, k@, v));
            Some(old_entry.val)
        } else {
            self.entries.insert(i, TreeEntry { key: k, val: v });
            assert(self@ =~= tree_insert(old(self)@, k@, v));
            None
        }
    }

    /// Unbinds `k`, and hands back the handle that it was bound to, if
    /// there was one.
    pub fn remove(&mut self, k: &ProtoNode) -> (r: Option<GenData>)
        requires
            old(self).wf(),
        ensures
            final(self)@ == tree_remove(old(self)@, k@),
            r == tree_get(old(self)@, k@),
            final(self).wf(),
    {
        let i = self.find(k);
        proof {
            lemma_tree_remove(old(self)@, k@);
        }
        if i < self.entries.len() && self.entries[i].key.same(k) {
            let old_entry = self.entries.remove(i);
            assert(self@ =~= tree_remove(old(self)@, k@));
            Some(old_entry.val)
        } else {
            None
        }
    }

    /// The handles of all bindings, in order of their keys.
    pub fn into_values(self) -> (r: Vec<GenData>)
        ensures
            r@ == tree_values(self@),
    {
        let mut entries = self.entries;
        let ghost all = self@;
        let mut r: Vec<GenData> = Vec::new();
        let mut rev: Vec<GenData> = Vec::new();
        while entries.len() > 0
            invariant
                entries@.len() <= all.len(),
                rev@.len() + entries@.len() == all.len(),
                forall|j: int| 0 <= j < entries@.len() ==> (#[trigger] entries@[j]).val == all[j].1,
                forall|j: int|
                    0 <= j < rev@.len() ==> #[trigger] rev@[j] == all[all.len() - 1 - j].1,
            decreases entries@.len(),
        {
            let e = entries.pop().unwrap();
            rev.push(e.val);
        }
        while rev.len() > 0
            invariant
                rev@.len() + r@.len() == all.len(),
                forall|j: int|
                    0 <= j < rev@.len() ==> #[trigger] rev@[j] == all[all.len() - 1 - j].1,
                forall|j: int| 0 <= j < r@.len() ==> #[trigger] r@[j] == all[j].1,
            decreases rev@.len(),
        {
            let g = rev.pop().unwrap();
            r.push(g);
        }
        assert(r@ =~= tree_values(all));
        r
    }
}

} // verus!
