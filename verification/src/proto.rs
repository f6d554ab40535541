//! Paths: ordered segments with the metadata that says where resolution
//! starts and how many indirections it follows.

use vstd::prelude::*;
use crate::error::{ActionError, ActionErrorView};
use crate::text::{magnitude, parse_usize, str_chars, parse_usize_spec, usize_to_string, nat_digits};
use crate::value::{Value, ValueView};

verus! {

/// One segment of a path.
#[derive(Debug)]
pub enum ProtoNode {
    Num(usize),
    Str(String),
    Deref,
}

/// The mathematical value of a [`ProtoNode`].
pub enum NodeView {
    Num(usize),
    Str(Seq<char>),
    Deref,
}

/// Strict lexicographic order of character sequences by code point.
pub open spec fn chars_lt(a: Seq<char>, b: Seq<char>) -> bool
    decreases a.len(),
{
    if b.len() == 0 {
        false
    } else if a.len() == 0 {
        true
    } else if a[0] != b[0] {
        (a[0] as int) < (b[0] as int)
    } else {
        chars_lt(a.drop_first(), b.drop_first())
    }
}

/// Strict order of segments: every index is below every name, every name is
/// below the dereference marker; indices go by size and names
/// lexicographically.
pub open spec fn node_lt(a: NodeView, b: NodeView) -> bool {
    match (a, b) {
        (NodeView::Num(x), NodeView::Num(y)) => x < y,
        (NodeView::Num(_), _) => true,
        (NodeView::Str(_), NodeView::Num(_)) => false,
        (NodeView::Str(x), NodeView::Str(y)) => chars_lt(x, y),
        (NodeView::Str(_), NodeView::Deref) => true,
        (NodeView::Deref, _) => false,
    }
}

/// No sequence is below itself.
pub proof fn lemma_chars_lt_irreflexive(a: Seq<char>)
    ensures
        !chars_lt(a, a),
    decreases a.len(),
{
    if a.len() > 0 {
        lemma_chars_lt_irreflexive(a.drop_first());
    }
}

/// Two sequences of which neither is below the other are equal.
pub proof fn lemma_chars_lt_total(a: Seq<char>, b: Seq<char>)
    ensures
        chars_lt(a, b) || chars_lt(b, a) || a == b,
    decreases a.len(),
{
    if a.len() == 0 || b.len() == 0 {
        assert(a.len() == 0 && b.len() == 0 ==> a =~= b);
    } else if a[0] == b[0] {
        lemma_chars_lt_total(a.drop_first(), b.drop_first());
        if a.drop_first() == b.drop_first() {
            assert(a =~= seq![a[0]] + a.drop_first());
            assert(b =~= seq![b[0]] + b.drop_first());
        }
    } else {
        assert((a[0] as int) != (b[0] as int));
    }
}

/// The order of sequences is transitive.
pub proof fn lemma_chars_lt_transitive(a: Seq<char>, b: Seq<char>, c: Seq<char>)
    requires
        chars_lt(a, b),
        chars_lt(b, c),
    ensures
        chars_lt(a, c),
    decreases a.len(),
{
    if a.len() > 0 && a[0] == b[0] && b[0] == c[0] {
        lemma_chars_lt_transitive(a.drop_first(), b.drop_first(), c.drop_first());
    }
}

/// No segment is below itself.
pub proof fn lemma_node_lt_irreflexive(a: NodeView)
    ensures
        !node_lt(a, a),
{
    if let NodeView::Str(s) = a {
        lemma_chars_lt_irreflexive(s);
    }
}

/// Two segments of which neither is below the other are equal.
pub proof fn lemma_node_lt_total(a: NodeView, b: NodeView)
    ensures
        node_lt(a, b) || node_lt(b, a) || a == b,
{
    if let NodeView::Str(s) = a {
        if let NodeView::Str(t) = b {
            lemma_chars_lt_total(s, t);
        }
    }
}

/// The order of segments is transitive.
pub proof fn lemma_node_lt_transitive(a: NodeView, b: NodeView, c: NodeView)
    requires
        node_lt(a, b),
        node_lt(b, c),
    ensures
        node_lt(a, c),
{
    if let NodeView::Str(s) = a {
        if let NodeView::Str(t) = b {
            if let NodeView::Str(u) = c {
                lemma_chars_lt_transitive(s, t, u);
            }
        }
    }
}

/// Whether `a` is strictly below `b` in the lexicographic order of their
/// characters.
pub fn str_lt(a: &str, b: &str) -> (r: bool)
    ensures
        r == chars_lt(a@, b@),
{
    let x = str_chars(a);
    let y = str_chars(b);
    let mut i: usize = 0;
    assert(x@.subrange(0, x@.len() as int) =~= x@);
    assert(y@.subrange(0, y@.len() as int) =~= y@);
    while i < x.len() && i < y.len() && x[i] == y[i]
        invariant
            i <= x@.len(),
            i <= y@.len(),
            chars_lt(x@.subrange(i as int, x@.len() as int), y@.subrange(i as int, y@.len() as int))
                == chars_lt(x@, y@),
        decreases x@.len() - i,
    {
        assert(x@.subrange(i as int, x@.len() as int).drop_first() =~= x@.subrange(
            i + 1,
            x@.len() as int,
        ));
        assert(y@.subrange(i as int, y@.len() as int).drop_first() =~= y@.subrange(
            i + 1,
            y@.len() as int,
        ));
        i += 1;
    }
    if i >= y.len() {
        false
    } else if i >= x.len() {
        true
    } else {
        x[i] < y[i]
    }
}

impl View for ProtoNode {
    type V = NodeView;

    open spec fn view(&self) -> NodeView {
        match self {
            ProtoNode::Num(n) => NodeView::Num(*n),
            ProtoNode::Str(s) => NodeView::Str(s@),
            ProtoNode::Deref => NodeView::Deref,
        }
    }
}

impl ProtoNode {
    /// The name segment `s`.
    pub fn str(s: &str) -> (r: Self)
        ensures
            r@ == NodeView::Str(s@),
    {
        ProtoNode::Str(String::from_str(s))
    }

    /// What the text of a segment is.
    pub open spec fn text(v: NodeView) -> Seq<char> {
        match v {
            NodeView::Num(n) => nat_digits(n as nat),
            NodeView::Str(s) => s,
            NodeView::Deref => Seq::empty(),
        }
    }

    /// The segment as text: an index in decimal, a name as it is, the
    /// dereference marker as the empty string.
    pub fn as_string(&self) -> (r: String)
        ensures
            r@ == Self::text(self@),
    {
        match self {
            ProtoNode::Num(n) => usize_to_string(*n),
            ProtoNode::Str(s) => s.clone(),
            ProtoNode::Deref => String::new(),
        }
    }

    /// What the index of a segment is.
    pub open spec fn index(v: NodeView) -> Option<usize> {
        match v {
            NodeView::Num(n) => Some(n),
            NodeView::Str(s) => parse_usize_spec(s),
            NodeView::Deref => None,
        }
    }

    /// The segment as an index: an index itself, or the number that a name
    /// spells in decimal.
    pub fn as_num(&self) -> (r: Option<usize>)
        ensures
            r == Self::index(self@),
    {
        match self {
            ProtoNode::Num(n) => Some(*n),
            ProtoNode::Str(s) => parse_usize(s.as_str()),
            ProtoNode::Deref => None,
        }
    }

    /// A copy of the segment.
    pub fn clone_node(&self) -> (r: Self)
        ensures
            r@ == self@,
    {
        match self {
            ProtoNode::Num(n) => ProtoNode::Num(*n),
            ProtoNode::Str(s) => ProtoNode::Str(s.clone()),
            ProtoNode::Deref => ProtoNode::Deref,
        }
    }

    /// Whether two segments are equal.
    pub fn same(&self, other: &ProtoNode) -> (r: bool)
        ensures
            r == (self@ == other@),
    {
        match (self, other) {
            (ProtoNode::Num(a), ProtoNode::Num(b)) => *a == *b,
            (ProtoNode::Str(a), ProtoNode::Str(b)) => *a == *b,
            (ProtoNode::Deref, ProtoNode::Deref) => true,
            _ => false,
        }
    }

    /// Whether this segment is strictly below `other`.
    pub fn less(&self, other: &ProtoNode) -> (r: bool)
        ensures
            r == node_lt(self@, other@),
    {
        match (self, other) {
            (ProtoNode::Num(a), ProtoNode::Num(b)) => *a < *b,
            (ProtoNode::Num(_), _) => true,
            (ProtoNode::Str(_), ProtoNode::Num(_)) => false,
            (ProtoNode::Str(a), ProtoNode::Str(b)) => str_lt(a.as_str(), b.as_str()),
            (ProtoNode::Str(_), ProtoNode::Deref) => true,
            (ProtoNode::Deref, _) => false,
        }
    }
}

impl PartialEq for ProtoNode {
    fn eq(&self, other: &ProtoNode) -> (r: bool) {
        self.same(other)
    }
}

impl vstd::std_specs::cmp::PartialEqSpecImpl for ProtoNode {
    open spec fn obeys_eq_spec() -> bool {
        true
    }

    open spec fn eq_spec(&self, other: &ProtoNode) -> bool {
        self@ == other@
    }
}

/// The values of a sequence of segments, element by element.
pub open spec fn nodes_view(l: Seq<ProtoNode>) -> Seq<NodeView> {
    Seq::new(l.len(), |i: int| l[i]@)
}

/// A path.
#[derive(Debug)]
pub struct Proto {
    pub v: Vec<ProtoNode>,
    /// How many bases above the current frame resolution starts.
    pub dots: usize,
    /// How many indirections resolution follows at the end of the walk.
    pub derefs: usize,
    /// Whether `dots` counts from the outermost base.
    pub root: bool,
}

/// The mathematical value of a [`Proto`].
pub struct ProtoView {
    pub v: Seq<NodeView>,
    pub dots: usize,
    pub derefs: usize,
    pub root: bool,
}

impl View for Proto {
    type V = ProtoView;

    open spec fn view(&self) -> ProtoView {
        ProtoView { v: nodes_view(self.v@), dots: self.dots, derefs: self.derefs, root: self.root }
    }
}

/// A copy of a list of segments.
pub fn clone_nodes(l: &Vec<ProtoNode>, from: usize, to: usize) -> (r: Vec<ProtoNode>)
    requires
        from <= to <= l@.len(),
    ensures
        nodes_view(r@) == nodes_view(l@).subrange(from as int, to as int),
{
    let mut r: Vec<ProtoNode> = Vec::new();
    let mut i: usize = from;
    while i < to
        invariant
            from <= i <= to <= l@.len(),
            r@.len() == i - from,
            forall|j: int| 0 <= j < i - from ==> (#[trigger] r@[j])@ == l@[from + j]@,
        decreases to - i,
    {
        r.push(l[i].clone_node());
        i += 1;
    }
    assert(nodes_view(r@) =~= nodes_view(l@).subrange(from as int, to as int));
    r
}

impl Proto {
    /// The empty path: no segment, no dot, no dereference, not rooted.
    pub fn new() -> (r: Self)
        ensures
            r@ == (ProtoView { v: Seq::empty(), dots: 0, derefs: 0, root: false }),
    {
        let r = Proto { v: Vec::new(), dots: 0, derefs: 0, root: false };
        assert(r@.v =~= Seq::empty());
        r
    }

    /// The path of the one name `s`.
    pub fn one(s: &str) -> (r: Self)
        ensures
            r@ == (ProtoView { v: seq![NodeView::Str(s@)], dots: 0, derefs: 0, root: false }),
    {
        let mut v: Vec<ProtoNode> = Vec::new();
        v.push(ProtoNode::str(s));
        let r = Proto { v, dots: 0, derefs: 0, root: false };
        assert(r@.v =~= seq![NodeView::Str(s@)]);
        r
    }

    /// The path of the one name `s`.
    pub fn str(s: &str) -> (r: Self)
        ensures
            r@ == (ProtoView { v: seq![NodeView::Str(s@)], dots: 0, derefs: 0, root: false }),
    {
        Proto::one(s)
    }

    /// The path of the one index `n`.
    pub fn num(n: usize) -> (r: Self)
        ensures
            r@ == (ProtoView { v: seq![NodeView::Num(n)], dots: 0, derefs: 0, root: false }),
    {
        let mut v: Vec<ProtoNode> = Vec::new();
        v.push(ProtoNode::Num(n));
        let r = Proto { v, dots: 0, derefs: 0, root: false };
        assert(r@.v =~= seq![NodeView::Num(n)]);
        r
    }

    /// The same path one base further up; the count saturates.
    pub fn dot(self) -> (r: Self)
        ensures
            r@ == (ProtoView {
                dots: if self.dots < usize::MAX {
                    (self.dots + 1) as usize
                } else {
                    self.dots
                },
                ..self@
            }),
    {
        let d: usize = if self.dots < usize::MAX {
            self.dots + 1
        } else {
            self.dots
        };
        Proto { v: self.v, dots: d, derefs: self.derefs, root: self.root }
    }

    /// The same path, resolved from the outermost base.
    pub fn rooted(self) -> (r: Self)
        ensures
            r@ == (ProtoView { root: true, ..self@ }),
    {
        Proto { v: self.v, dots: self.dots, derefs: self.derefs, root: true }
    }

    /// The same path with `n` more dereferences; the count saturates.
    pub fn with_deref(&self, n: usize) -> (r: Self)
        ensures
            r@ == (ProtoView {
                derefs: if self.derefs + n <= usize::MAX {
                    (self.derefs + n) as usize
                } else {
                    usize::MAX
                },
                ..self@
            }),
    {
        let d: usize = if self.derefs <= usize::MAX - n {
            self.derefs + n
        } else {
            usize::MAX
        };
        let v = clone_nodes(&self.v, 0, self.v.len());
        assert(nodes_view(self.v@).subrange(0, self.v@.len() as int) =~= nodes_view(self.v@));
        Proto { v, dots: self.dots, derefs: d, root: self.root }
    }

    /// The same path with exactly `n` dereferences.
    pub fn with_set_deref(&self, n: usize) -> (r: Self)
        ensures
            r@ == (ProtoView { derefs: n, ..self@ }),
    {
        let v = clone_nodes(&self.v, 0, self.v.len());
        assert(nodes_view(self.v@).subrange(0, self.v@.len() as int) =~= nodes_view(self.v@));
        Proto { v, dots: self.dots, derefs: n, root: self.root }
    }

    /// A copy of the path.
    pub fn clone_proto(&self) -> (r: Self)
        ensures
            r@ == self@,
    {
        self.with_set_deref(self.derefs)
    }

    /// What name a path has as a call of a built-in function: that of a
    /// path made of a single name segment.
    pub open spec fn api_name(p: ProtoView) -> Option<Seq<char>> {
        if p.v.len() == 1 && p.v[0] is Str {
            Some(p.v[0]->Str_0)
        } else {
            None
        }
    }

    /// The single name of the path, if it is made of one name segment.
    pub fn as_api_func_name(&self) -> (r: Option<&str>)
        ensures
            r is Some == Self::api_name(self@) is Some,
            r is Some ==> r->0@ == Self::api_name(self@)->0,
    {
        if self.v.len() != 1 {
            return None;
        }
        match &self.v[0] {
            ProtoNode::Str(s) => Some(s.as_str()),
            _ => None,
        }
    }

    /// The path without its last segment; the empty path stays empty.
    pub fn parent(&self) -> (r: Self)
        ensures
            r@ == (ProtoView {
                v: if self@.v.len() > 0 {
                    self@.v.drop_last()
                } else {
                    self@.v
                },
                ..self@
            }),
    {
        let n: usize = if self.v.len() > 0 {
            self.v.len() - 1
        } else {
            0
        };
        let v = clone_nodes(&self.v, 0, n);
        assert(nodes_view(self.v@).subrange(0, n as int) =~= if self@.v.len() > 0 {
            self@.v.drop_last()
        } else {
            self@.v
        });
        Proto { v, dots: self.dots, derefs: self.derefs, root: self.root }
    }

    /// What segment a value makes, if any: a string its name, a number the
    /// index of its magnitude.
    pub open spec fn node_of_view(v: ValueView) -> Option<NodeView> {
        match v {
            ValueView::Str(s) => Some(NodeView::Str(s)),
            ValueView::Num(n) => Some(NodeView::Num(vstd::math::abs(n as int) as usize)),
            _ => None,
        }
    }

    /// What segment a value makes, if any.
    pub open spec fn node_of(v: Value) -> Option<NodeView> {
        Self::node_of_view(v@)
    }

    /// Appends the segment that `v` makes. Only a string or a number makes
    /// one; with any other value the path stays as it is.
    pub fn push_val(&mut self, v: Value) -> (r: Result<(), ActionError>)
        ensures
            Self::node_of(v) is Some ==> r is Ok && final(self)@ == (ProtoView {
                v: old(self)@.v.push(Self::node_of(v)->0),
                ..old(self)@
            }),
            Self::node_of(v) is None ==> r is Err && r->Err_0@ == ActionErrorView::DoingErr(
                "proto parts must resolve to str or num"@,
            ) && final(self)@ == old(self)@,
    {
        match v {
            Value::Str(s) => {
                self.v.push(ProtoNode::Str(s));
                assert(self@.v =~= old(self)@.v.push(NodeView::Str(s@)));
                Ok(())
            },
            Value::Num(n) => {
                self.v.push(ProtoNode::Num(magnitude(n)));
                assert(self@.v =~= old(self)@.v.push(Self::node_of(v)->0));
                Ok(())
            },
            _ => Err(ActionError::new("proto parts must resolve to str or num")),
        }
    }

    /// A cursor over all segments of the path.
    pub fn pp<'a>(&'a self) -> (r: ProtoP<'a>)
        ensures
            r.rest() == self@.v,
            r.p == self,
            r.pos == 0,
            r.stop == self.v@.len(),
    {
        let r = ProtoP { p: self, pos: 0, stop: self.v.len() };
        assert(r.rest() =~= self@.v);
        r
    }

    /// Appends the segments that `pp` has left.
    pub fn extend(&mut self, pp: ProtoP)
        ensures
            final(self)@ == (ProtoView { v: old(self)@.v + pp.rest(), ..old(self)@ }),
    {
        let end: usize = pp.end();
        let mut i: usize = pp.pos;
        if i >= end {
            assert(self@.v =~= old(self)@.v + pp.rest());
            return ;
        }
        while i < end
            invariant
                pp.pos <= i <= end,
                end == pp.end_spec(),
                end <= pp.p.v@.len(),
                self.dots == old(self).dots,
                self.derefs == old(self).derefs,
                self.root == old(self).root,
                self@.v == old(self)@.v + pp.p@.v.subrange(pp.pos as int, i as int),
            decreases end - i,
        {
            let ghost before = self@.v;
            self.v.push(pp.p.v[i].clone_node());
            assert(self@.v =~= before.push(pp.p@.v[i as int]));
            assert(pp.p@.v.subrange(pp.pos as int, i + 1) =~= pp.p@.v.subrange(
                pp.pos as int,
                i as int,
            ).push(pp.p@.v[i as int]));
            i += 1;
            assert(self@.v =~= old(self)@.v + pp.p@.v.subrange(pp.pos as int, i as int));
        }
    }

    /// This path followed by the segments that `pp` has left.
    pub fn extend_new(&self, pp: ProtoP) -> (r: Self)
        ensures
            r@ == (ProtoView { v: self@.v + pp.rest(), ..self@ }),
    {
        let mut res = self.clone_proto();
        res.extend(pp);
        res
    }

    /// Whether two paths are equal.
    pub fn same(&self, other: &Proto) -> (r: bool)
        ensures
            r == (self@ == other@),
    {
        if self.dots != other.dots || self.derefs != other.derefs || self.root != other.root
            || self.v.len() != other.v.len() {
            assert(self@.v.len() == self.v@.len());
            assert(other@.v.len() == other.v@.len());
            return false;
        }
        let mut i: usize = 0;
        while i < self.v.len()
            invariant
                i <= self.v@.len(),
                self.v@.len() == other.v@.len(),
                forall|j: int| 0 <= j < i ==> (#[trigger] self.v@[j])@ == other.v@[j]@,
            decreases self.v@.len() - i,
        {
            if !self.v[i].same(&other.v[i]) {
                assert(self@.v[i as int] != other@.v[i as int]);
                return false;
            }
            i += 1;
        }
        assert(self@.v =~= other@.v);
        true
    }
}

impl PartialEq for Proto {
    fn eq(&self, other: &Proto) -> (r: bool) {
        self.same(other)
    }
}

impl vstd::std_specs::cmp::PartialEqSpecImpl for Proto {
    open spec fn obeys_eq_spec() -> bool {
        true
    }

    open spec fn eq_spec(&self, other: &Proto) -> bool {
        self@ == other@
    }
}

/// A cursor over the segments `pos..stop` of a path.
#[derive(Debug)]
pub struct ProtoP<'a> {
    pub p: &'a Proto,
    pub pos: usize,
    pub stop: usize,
}

impl<'a> ProtoP<'a> {
    /// Where the cursor ends: at `stop`, or at the end of the path if that
    /// comes first.
    pub open spec fn end_spec(&self) -> usize {
        if self.stop <= self.p.v@.len() {
            self.stop
        } else {
            self.p.v@.len() as usize
        }
    }

    /// The segments that the cursor has left.
    pub open spec fn rest(&self) -> Seq<NodeView> {
        if self.pos < self.end_spec() {
            self.p@.v.subrange(self.pos as int, self.end_spec() as int)
        } else {
            Seq::empty()
        }
    }

    /// Where the cursor ends.
    pub fn end(&self) -> (r: usize)
        ensures
            r == self.end_spec(),
    {
        if self.stop <= self.p.v.len() {
            self.stop
        } else {
            self.p.v.len()
        }
    }

    /// How many segments are left.
    pub fn remaining(&self) -> (r: usize)
        ensures
            r == self.rest().len(),
    {
        let end = self.end();
        if self.pos < end {
            end - self.pos
        } else {
            0
        }
    }

    /// The same cursor without its last segment.
    pub fn parent(&self) -> (r: Self)
        ensures
            r.p == self.p,
            r.pos == self.pos,
            r.rest() == if self.rest().len() > 0 {
                self.rest().drop_last()
            } else {
                self.rest()
            },
    {
        let end = self.end();
        let r = ProtoP {
            p: self.p,
            pos: self.pos,
            stop: if end >= 1 {
                end - 1
            } else {
                end
            },
        };
        assert(r.rest() =~= if self.rest().len() > 0 {
            self.rest().drop_last()
        } else {
            self.rest()
        });
        r
    }

    /// A copy of the cursor.
    pub fn clone_pp(&self) -> (r: Self)
        ensures
            r == *self,
    {
        ProtoP { p: self.p, pos: self.pos, stop: self.stop }
    }

    /// The next segment, if one is left; the cursor moves past it.
    pub fn next(&mut self) -> (r: Option<&'a ProtoNode>)
        ensures
            old(self).rest().len() == 0 ==> r is None && *final(self) == *old(self),
            old(self).rest().len() > 0 ==> r is Some && r->0@ == old(self).rest()[0]
                && final(self).rest() == old(self).rest().drop_first() && final(self).p == old(self).p,
    {
        let end = self.end();
        if self.pos < end {
            let n = self.pos;
            self.pos = n + 1;
            assert(self.rest() =~= old(self).rest().drop_first());
            Some(&self.p.v[n])
        } else {
            None
        }
    }
}

} // verus!
