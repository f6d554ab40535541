//! The dynamic values of the document and their arithmetic.

use vstd::prelude::*;
use crate::action::{Action, ActionView, actions_model};
use crate::ecs_ish::{GenData, GenManager};
use crate::error::{ActionError, ActionErrorView};
use crate::expr::{Expr, ExprView};
use crate::proto::{NodeView, ProtoNode};
use crate::text::{clone_strings, magnitude, same_strings, strings_view};
use crate::tree::{
    RefTree, TreeEntry, TreeView, lemma_tree_insert, tree_get, tree_insert, tree_remove,
    tree_sorted, tree_values,
};
use crate::action::{clone_actions, same_actions};
use crate::ecs_ish::ArenaView;

verus! {

/// A value of the document. Lists and maps hold handles into the arena,
/// not values.
#[derive(Debug)]
pub enum Value {
    Null,
    Bool(bool),
    Num(isize),
    Str(String),
    Ref(GenData),
    List(Vec<GenData>),
    Tree(RefTree),
    ExprDef(Vec<String>, Expr),
    FuncDef(Vec<String>, Vec<Action>),
}

/// The mathematical value of a [`Value`].
pub enum ValueView {
    Null,
    Bool(bool),
    Num(isize),
    Str(Seq<char>),
    Ref(GenData),
    List(Seq<GenData>),
    Tree(TreeView),
    ExprDef(Seq<Seq<char>>, ExprView),
    FuncDef(Seq<Seq<char>>, Seq<ActionView>),
}

impl ValueView {
    /// Whether a map's bindings are in order; every other value is well
    /// formed as it is.
    pub open spec fn wf(self) -> bool {
        self is Tree ==> tree_sorted(self->Tree_0)
    }

    /// The handles that the value holds, in order.
    pub open spec fn handles(self) -> Seq<GenData> {
        match self {
            ValueView::List(l) => l,
            ValueView::Tree(t) => tree_values(t),
            ValueView::Ref(r) => seq![r],
            _ => Seq::empty(),
        }
    }

    /// The handle under the segment `k`: a map's binding, a list's element
    /// at an index, the target of an indirection.
    pub open spec fn child(self, k: NodeView) -> Option<GenData> {
        match self {
            ValueView::Tree(t) => tree_get(t, k),
            ValueView::List(l) => if k is Num && k->Num_0 < l.len() {
                Some(l[k->Num_0 as int])
            } else {
                None
            },
            ValueView::Ref(r) => Some(r),
            _ => None,
        }
    }
}

impl View for Value {
    type V = ValueView;

    open spec fn view(&self) -> ValueView {
        match self {
            Value::Null => ValueView::Null,
            Value::Bool(b) => ValueView::Bool(*b),
            Value::Num(n) => ValueView::Num(*n),
            Value::Str(s) => ValueView::Str(s@),
            Value::Ref(r) => ValueView::Ref(*r),
            Value::List(l) => ValueView::List(l@),
            Value::Tree(t) => ValueView::Tree(t@),
            Value::ExprDef(p, e) => ValueView::ExprDef(strings_view(p@), e@),
            Value::FuncDef(p, b) => ValueView::FuncDef(strings_view(p@), actions_model(b@)),
        }
    }
}

impl Value {
    /// The empty map.
    pub fn map() -> (r: Self)
        ensures
            r@ == ValueView::Tree(Seq::empty()),
    {
        Value::Tree(RefTree::new())
    }

    /// The string value `s`.
    pub fn str(s: &str) -> (r: Self)
        ensures
            r@ == ValueView::Str(s@),
    {
        Value::Str(String::from_str(s))
    }

    /// The handle under the segment `pn`, if there is one.
    pub fn child_ref(&self, pn: &ProtoNode) -> (r: Option<&GenData>)
        ensures
            r is Some == self@.child(pn@) is Some,
            r is Some ==> *r->0 == self@.child(pn@)->0,
    {
        match self {
            Value::Tree(t) => t.get(pn),
            Value::List(v) => {
                if let ProtoNode::Num(n) = pn {
                    if *n < v.len() {
                        Some(&v[*n])
                    } else {
                        None
                    }
                } else {
                    None
                }
            },
            Value::Ref(v) => Some(v),
            _ => None,
        }
    }

    /// The handles that the value holds; the value itself is given up.
    pub fn gen_drop(self) -> (r: Vec<GenData>)
        ensures
            r@ == self@.handles(),
    {
        match self {
            Value::List(v) => v,
            Value::Tree(m) => m.into_values(),
            Value::Ref(r) => {
                let mut v: Vec<GenData> = Vec::new();
                v.push(r);
                v
            },
            _ => Vec::new(),
        }
    }
}

/// The quotient of `a` by `b`, rounded toward zero.
pub open spec fn trunc_div(a: int, b: int) -> int
    recommends
        b != 0,
{
    if a >= 0 && b > 0 {
        a / b
    } else if a < 0 && b > 0 {
        -((-a) / b)
    } else if a >= 0 && b < 0 {
        -(a / (-b))
    } else {
        (-a) / (-b)
    }
}

/// Whether `n` is a value of `isize`.
pub open spec fn fits(n: int) -> bool {
    isize::MIN <= n <= isize::MAX
}

/// Divides `a` by `b`, rounding toward zero.
pub fn div_trunc(a: isize, b: isize) -> (r: isize)
    requires
        b != 0,
        fits(trunc_div(a as int, b as int)),
    ensures
        r == trunc_div(a as int, b as int),
{
    let ma: usize = magnitude(a);
    let mb: usize = magnitude(b);
    let q: usize = ma / mb;
    if (a < 0) == (b < 0) {
        q as isize
    } else if q > isize::MAX as usize {
        isize::MIN
    } else {
        -(q as isize)
    }
}

impl ValueView {
    /// The name of the kind of the value.
    pub open spec fn kind(self) -> Seq<char> {
        match self {
            ValueView::Null => "Null"@,
            ValueView::Bool(_) => "Bool"@,
            ValueView::Num(_) => "Num"@,
            ValueView::Str(_) => "Str"@,
            ValueView::Ref(_) => "Ref"@,
            ValueView::List(_) => "List"@,
            ValueView::Tree(_) => "Map"@,
            ValueView::ExprDef(_, _) => "Expr"@,
            ValueView::FuncDef(_, _) => "Func"@,
        }
    }

    /// Whether the value is a boolean, a number or a string.
    pub open spec fn is_scalar(self) -> bool {
        self is Bool || self is Num || self is Str
    }
}

/// Structural equality of two values. Handles are equal when they name the
/// same slot at the same generation, whatever their strength.
pub open spec fn value_eq(a: ValueView, b: ValueView) -> bool {
    match (a, b) {
        (ValueView::Ref(x), ValueView::Ref(y)) => x.same_slot(y),
        (ValueView::List(x), ValueView::List(y)) => x.len() == y.len() && forall|i: int|
            0 <= i < x.len() ==> (#[trigger] x[i]).same_slot(y[i]),
        (ValueView::Tree(x), ValueView::Tree(y)) => x.len() == y.len() && forall|i: int|
            0 <= i < x.len() ==> (#[trigger] x[i]).0 == y[i].0 && x[i].1.same_slot(y[i].1),
        (ValueView::Ref(_), _) | (ValueView::List(_), _) | (ValueView::Tree(_), _) => false,
        _ => a == b,
    }
}

/// The message of a type error of the operation `op` on `a` and `b`.
pub open spec fn type_error_text(op: Seq<char>, a: ValueView, b: ValueView) -> Seq<char> {
    "Cannot "@ + op + " "@ + a.kind() + " and "@ + b.kind()
}

/// What an operation leaves: its result, and the arena after it.
pub struct Outcome {
    pub res: Result<ValueView, ActionErrorView>,
    pub arena: ArenaView,
}

/// The mathematical value of the result of an operation.
pub open spec fn result_view(r: Result<Value, ActionError>) -> Result<ValueView, ActionErrorView> {
    match r {
        Ok(v) => Ok(v@),
        Err(e) => Err(e@),
    }
}

/// The failure of an operation that cannot take `a` and `b`: a type error
/// that names both kinds, with every handle of both operands given up.
pub open spec fn type_failure(op: Seq<char>, a: ValueView, b: ValueView, g: ArenaView) -> Outcome {
    Outcome {
        res: Err(ActionErrorView::DoingErr(type_error_text(op, a, b))),
        arena: g.release(a.handles()).release(b.handles()),
    }
}

/// The failure of arithmetic whose result is no value of the number type.
pub open spec fn overflow_failure(g: ArenaView) -> Outcome {
    Outcome { res: Err(ActionErrorView::DoingErr("Number overflow"@)), arena: g }
}

/// The left map with every binding of the right map put in, first to last.
/// A handle that a binding of the right map displaces is given up at once.
pub open spec fn merge_trees(a: TreeView, b: TreeView, g: ArenaView) -> (TreeView, ArenaView)
    decreases b.len(),
{
    if b.len() == 0 {
        (a, g)
    } else {
        let d = tree_get(a, b[0].0);
        let g2 = if d is Some {
            g.release(seq![d->0])
        } else {
            g
        };
        merge_trees(tree_insert(a, b[0].0, b[0].1), b.drop_first(), g2)
    }
}

/// What a list element is compared with when elements are taken out.
pub enum Matcher {
    /// Elements that name this slot.
    Slot(GenData),
    /// Elements whose value equals this one.
    Val(ValueView),
}

/// Whether the element `e` is one that `m` asks for.
pub open spec fn hit(g: ArenaView, m: Matcher, e: GenData) -> bool {
    match m {
        Matcher::Slot(h) => e.same_slot(h),
        Matcher::Val(v) => g.get(e) is Some && value_eq(g.get(e)->0, v),
    }
}

/// The elements of `x`, in order, for which `hit` is `want`.
pub open spec fn pick(x: Seq<GenData>, g: ArenaView, m: Matcher, want: bool) -> Seq<GenData>
    decreases x.len(),
{
    if x.len() == 0 {
        x
    } else if hit(g, m, x.last()) == want {
        pick(x.drop_last(), g, m, want).push(x.last())
    } else {
        pick(x.drop_last(), g, m, want)
    }
}

/// Whether two list elements are equal: they name the same slot, or both
/// name values that are there and are structurally equal.
pub open spec fn elem_eq(g: ArenaView, a: GenData, b: GenData) -> bool {
    a.same_slot(b) || (g.get(a) is Some && g.get(b) is Some && value_eq(g.get(a)->0, g.get(b)->0))
}

/// The index of the first element of `x` that equals `r`, or the length of
/// `x` if none does.
pub open spec fn first_match(x: Seq<GenData>, r: GenData, g: ArenaView) -> nat
    decreases x.len(),
{
    if x.len() == 0 || elem_eq(g, x[0], r) {
        0
    } else {
        1 + first_match(x.drop_first(), r, g)
    }
}

/// The list `x` after, for each element of `y` in turn, the first element
/// equal to it was taken out; with the elements taken out, in that order.
pub open spec fn list_diff(x: Seq<GenData>, y: Seq<GenData>, g: ArenaView) -> (
    Seq<GenData>,
    Seq<GenData>,
)
    decreases y.len(),
{
    if y.len() == 0 {
        (x, Seq::empty())
    } else {
        let i = first_match(x, y[0], g) as int;
        if i < x.len() {
            let d = list_diff(x.remove(i), y.drop_first(), g);
            (d.0, seq![x[i]] + d.1)
        } else {
            list_diff(x, y.drop_first(), g)
        }
    }
}

/// What adding `b` to `a` leaves. Booleans are joined by "or", numbers
/// added, strings and lists concatenated; a scalar added to a list is stored
/// and appended, and an indirection added to a list is appended as it is;
/// the bindings of the right map are put into the left one.
pub open spec fn add_spec(a: ValueView, b: ValueView, g: ArenaView) -> Outcome {
    match (a, b) {
        (ValueView::Bool(x), ValueView::Bool(y)) => Outcome {
            res: Ok(ValueView::Bool(x || y)),
            arena: g,
        },
        (ValueView::Num(x), ValueView::Num(y)) => if fits(x + y) {
            Outcome { res: Ok(ValueView::Num((x + y) as isize)), arena: g }
        } else {
            overflow_failure(g)
        },
        (ValueView::Str(x), ValueView::Str(y)) => Outcome { res: Ok(ValueView::Str(x + y)), arena: g },
        (ValueView::List(x), ValueView::List(y)) => Outcome {
            res: Ok(ValueView::List(x + y)),
            arena: g,
        },
        (ValueView::List(x), ValueView::Ref(h)) => Outcome {
            res: Ok(ValueView::List(x.push(h))),
            arena: g,
        },
        (ValueView::List(x), _) => if b.is_scalar() {
            Outcome { res: Ok(ValueView::List(x.push(g.push_handle()))), arena: g.push(b) }
        } else {
            type_failure("add"@, a, b, g)
        },
        (ValueView::Tree(x), ValueView::Tree(y)) => Outcome {
            res: Ok(ValueView::Tree(merge_trees(x, y, g).0)),
            arena: merge_trees(x, y, g).1,
        },
        _ => type_failure("add"@, a, b, g),
    }
}

/// What subtracting `b` from `a` leaves. Numbers are subtracted. From a
/// list, a list takes one equal element for each of its own, a scalar takes
/// every element of its value, and an indirection every element that names
/// its slot; what is taken out is given up, and so are the handles of `b`.
/// From a map, a string takes the binding of that name.
pub open spec fn sub_spec(a: ValueView, b: ValueView, g: ArenaView) -> Outcome {
    match (a, b) {
        (ValueView::Num(x), ValueView::Num(y)) => if fits(x - y) {
            Outcome { res: Ok(ValueView::Num((x - y) as isize)), arena: g }
        } else {
            overflow_failure(g)
        },
        (ValueView::List(x), ValueView::List(y)) => Outcome {
            res: Ok(ValueView::List(list_diff(x, y, g).0)),
            arena: g.release(list_diff(x, y, g).1 + y),
        },
        (ValueView::List(x), ValueView::Ref(h)) => Outcome {
            res: Ok(ValueView::List(pick(x, g, Matcher::Slot(h), false))),
            arena: g.release(pick(x, g, Matcher::Slot(h), true).push(h)),
        },
        (ValueView::List(x), _) => if b.is_scalar() {
            Outcome {
                res: Ok(ValueView::List(pick(x, g, Matcher::Val(b), false))),
                arena: g.release(pick(x, g, Matcher::Val(b), true)),
            }
        } else {
            type_failure("subtract"@, a, b, g)
        },
        (ValueView::Tree(t), ValueView::Str(s)) => Outcome {
            res: Ok(ValueView::Tree(tree_remove(t, NodeView::Str(s)))),
            arena: match tree_get(t, NodeView::Str(s)) {
                Some(d) => g.release(seq![d]),
                None => g,
            },
        },
        _ => type_failure("subtract"@, a, b, g),
    }
}

/// What multiplying `a` by `b` leaves: booleans are joined by "and",
/// numbers multiplied.
pub open spec fn mul_spec(a: ValueView, b: ValueView, g: ArenaView) -> Outcome {
    match (a, b) {
        (ValueView::Bool(x), ValueView::Bool(y)) => Outcome {
            res: Ok(ValueView::Bool(x && y)),
            arena: g,
        },
        (ValueView::Num(x), ValueView::Num(y)) => if fits(x * y) {
            Outcome { res: Ok(ValueView::Num((x * y) as isize)), arena: g }
        } else {
            overflow_failure(g)
        },
        _ => type_failure("multiply"@, a, b, g),
    }
}

/// What dividing `a` by `b` leaves: the quotient of two numbers rounded
/// toward zero, and an error of its own when the divisor is zero.
pub open spec fn div_spec(a: ValueView, b: ValueView, g: ArenaView) -> Outcome {
    match (a, b) {
        (ValueView::Num(x), ValueView::Num(y)) => if y == 0 {
            Outcome { res: Err(ActionErrorView::DoingErr("Can't div by zero"@)), arena: g }
        } else if fits(trunc_div(x as int, y as int)) {
            Outcome { res: Ok(ValueView::Num(trunc_div(x as int, y as int) as isize)), arena: g }
        } else {
            overflow_failure(g)
        },
        _ => type_failure("divide"@, a, b, g),
    }
}

/// What negating `a` leaves: the number of opposite sign, or the other
/// boolean.
pub open spec fn neg_spec(a: ValueView, g: ArenaView) -> Outcome {
    match a {
        ValueView::Num(x) => if fits(-x) {
            Outcome { res: Ok(ValueView::Num((-x) as isize)), arena: g }
        } else {
            overflow_failure(g)
        },
        ValueView::Bool(b) => Outcome { res: Ok(ValueView::Bool(!b)), arena: g },
        _ => Outcome {
            res: Err(ActionErrorView::DoingErr("Cannot negate "@ + a.kind())),
            arena: g.release(a.handles()),
        },
    }
}

/// Builds the type error of the operation `op` on `a` and `b`.
pub fn type_error(op: &str, a: &Value, b: &Value) -> (r: ActionError)
    ensures
        r@ == ActionErrorView::DoingErr(type_error_text(op@, a@, b@)),
{
    let mut s = String::from_str("Cannot ");
    s.append(op);
    s.append(" ");
    s.append(a.kind_name());
    s.append(" and ");
    s.append(b.kind_name());
    ActionError::DoingErr(s)
}

/// Fails an operation on `a` and `b` with a type error, giving up the
/// handles of both.
pub fn fail_types(op: &str, a: Value, b: Value, gm: &mut GenManager) -> (r: Result<
    Value,
    ActionError,
>)
    requires
        old(gm)@.wf(),
    ensures
        final(gm)@.wf(),
        (Outcome { res: result_view(r), arena: final(gm)@ }) == type_failure(
            op@,
            a@,
            b@,
            old(gm)@,
        ),
{
    let e = type_error(op, &a, &b);
    gm.drop(a);
    gm.drop(b);
    Err(e)
}

impl Value {
    /// The name of the kind of the value.
    pub fn kind_name(&self) -> (r: &'static str)
        ensures
            r@ == self@.kind(),
    {
        match self {
            Value::Null => "Null",
            Value::Bool(_) => "Bool",
            Value::Num(_) => "Num",
            Value::Str(_) => "Str",
            Value::Ref(_) => "Ref",
            Value::List(_) => "List",
            Value::Tree(_) => "Map",
            Value::ExprDef(_, _) => "Expr",
            Value::FuncDef(_, _) => "Func",
        }
    }

    /// Whether the value is a boolean, a number or a string.
    pub fn is_scalar(&self) -> (r: bool)
        ensures
            r == self@.is_scalar(),
    {
        match self {
            Value::Bool(_) | Value::Num(_) | Value::Str(_) => true,
            _ => false,
        }
    }

    /// Whether two values are structurally equal.
    pub fn same(&self, other: &Value) -> (r: bool)
        ensures
            r == value_eq(self@, other@),
    {
        match (self, other) {
            (Value::Null, Value::Null) => true,
            (Value::Bool(a), Value::Bool(b)) => *a == *b,
            (Value::Num(a), Value::Num(b)) => *a == *b,
            (Value::Str(a), Value::Str(b)) => *a == *b,
            (Value::Ref(a), Value::Ref(b)) => a.pos == b.pos && a.gen == b.gen,
            (Value::List(a), Value::List(b)) => {
                if a.len() != b.len() {
                    return false;
                }
                let mut i: usize = 0;
                while i < a.len()
                    invariant
                        i <= a@.len(),
                        a@.len() == b@.len(),
                        self@ == ValueView::List(a@),
                        other@ == ValueView::List(b@),
                        forall|j: int| 0 <= j < i ==> (#[trigger] a@[j]).same_slot(b@[j]),
                    decreases a@.len() - i,
                {
                    if !(a[i].pos == b[i].pos && a[i].gen == b[i].gen) {
                        assert(!a@[i as int].same_slot(b@[i as int]));
                        return false;
                    }
                    i += 1;
                }
                true
            },
            (Value::Tree(a), Value::Tree(b)) => {
                if a.entries.len() != b.entries.len() {
                    return false;
                }
                let mut i: usize = 0;
                while i < a.entries.len()
                    invariant
                        i <= a@.len(),
                        a@.len() == b@.len(),
                        a@.len() == a.entries@.len(),
                        b@.len() == b.entries@.len(),
                        self@ == ValueView::Tree(a@),
                        other@ == ValueView::Tree(b@),
                        forall|j: int|
                            0 <= j < i ==> (#[trigger] a@[j]).0 == b@[j].0 && a@[j].1.same_slot(
                                b@[j].1,
                            ),
                    decreases a@.len() - i,
                {
                    let x = &a.entries[i];
                    let y = &b.entries[i];
                    if !(x.key.same(&y.key) && x.val.pos == y.val.pos && x.val.gen == y.val.gen) {
                        assert(a@[i as int] == (x.key@, x.val));
                        assert(b@[i as int] == (y.key@, y.val));
                        assert(!(a@[i as int].0 == b@[i as int].0 && a@[i as int].1.same_slot(
                            b@[i as int].1,
                        )));
                        return false;
                    }
                    i += 1;
                }
                true
            },
            (Value::ExprDef(p, e), Value::ExprDef(q, f)) => same_strings(p, q) && e.same(f),
            (Value::FuncDef(p, b), Value::FuncDef(q, c)) => same_strings(p, q) && same_actions(
                b,
                c,
            ),
            _ => false,
        }
    }

    /// Multiplies two values.
    pub fn try_mul(self, rhs: Value, gm: &mut GenManager) -> (r: Result<Value, ActionError>)
        requires
            old(gm)@.wf(),
        ensures
            final(gm)@.wf(),
            (Outcome { res: result_view(r), arena: final(gm)@ }) == mul_spec(
                self@,
                rhs@,
                old(gm)@,
            ),
    {
        match (&self, &rhs) {
            (Value::Bool(a), Value::Bool(b)) => Ok(Value::Bool(*a && *b)),
            (Value::Num(a), Value::Num(b)) => {
                match a.checked_mul(*b) {
                    Some(n) => Ok(Value::Num(n)),
                    None => Err(ActionError::new("Number overflow")),
                }
            },
            _ => fail_types("multiply", self, rhs, gm),
        }
    }

    /// Divides one value by another.
    pub fn try_div(self, rhs: Value, gm: &mut GenManager) -> (r: Result<Value, ActionError>)
        requires
            old(gm)@.wf(),
        ensures
            final(gm)@.wf(),
            (Outcome { res: result_view(r), arena: final(gm)@ }) == div_spec(
                self@,
                rhs@,
                old(gm)@,
            ),
    {
        match (&self, &rhs) {
            (Value::Num(a), Value::Num(b)) => {
                if *b == 0 {
                    Err(ActionError::new("Can't div by zero"))
                } else if *a == isize::MIN && *b == -1 {
                    assert((-(*a as int)) / (-(*b as int)) == -(*a as int)) by (nonlinear_arith)
                        requires
                            *b == -1,
                    ;
                    Err(ActionError::new("Number overflow"))
                } else {
                    assert(fits(trunc_div(*a as int, *b as int))) by (nonlinear_arith)
                        requires
                            *b != 0,
                            !(*a == isize::MIN && *b == -1),
                            isize::MIN <= *a <= isize::MAX,
                            isize::MIN <= *b <= isize::MAX,
                    ;
                    Ok(Value::Num(div_trunc(*a, *b)))
                }
            },
            _ => fail_types("divide", self, rhs, gm),
        }
    }

    /// Negates a value.
    pub fn try_neg(self, gm: &mut GenManager) -> (r: Result<Value, ActionError>)
        requires
            old(gm)@.wf(),
        ensures
            final(gm)@.wf(),
            (Outcome { res: result_view(r), arena: final(gm)@ }) == neg_spec(self@, old(gm)@),
    {
        match &self {
            Value::Num(v) => {
                if *v == isize::MIN {
                    Err(ActionError::new("Number overflow"))
                } else {
                    Ok(Value::Num(-*v))
                }
            },
            Value::Bool(b) => Ok(Value::Bool(!*b)),
            _ => {
                let mut s = String::from_str("Cannot negate ");
                s.append(self.kind_name());
                gm.drop(self);
                Err(ActionError::DoingErr(s))
            },
        }
    }
}

/// `first_match` is the index before which no element equals `r`.
pub proof fn lemma_first_match_is(x: Seq<GenData>, r: GenData, g: ArenaView, i: int)
    requires
        0 <= i <= x.len(),
        forall|k: int| 0 <= k < i ==> !elem_eq(g, #[trigger] x[k], r),
        i == x.len() || elem_eq(g, x[i], r),
    ensures
        first_match(x, r, g) == i,
    decreases i,
{
    if i > 0 {
        let t = x.drop_first();
        assert forall|k: int| 0 <= k < i - 1 implies !elem_eq(g, #[trigger] t[k], r) by {
            assert(t[k] == x[k + 1]);
        }
        assert(!elem_eq(g, x[0], r));
        lemma_first_match_is(t, r, g, i - 1);
    }
}

/// What a list element is compared with when elements are taken out.
pub enum Probe<'a> {
    /// Elements that name the slot of this handle.
    Slot(&'a GenData),
    /// Elements whose value equals this one.
    Val(&'a Value),
}

impl<'a> View for Probe<'a> {
    type V = Matcher;

    open spec fn view(&self) -> Matcher {
        match self {
            Probe::Slot(h) => Matcher::Slot(**h),
            Probe::Val(v) => Matcher::Val(v@),
        }
    }
}

/// Whether two list elements are equal.
pub fn same_elem(gm: &GenManager, a: &GenData, b: &GenData) -> (r: bool)
    ensures
        r == elem_eq(gm@, *a, *b),
{
    if a.pos == b.pos && a.gen == b.gen {
        return true;
    }
    match gm.get(a) {
        Some(x) => match gm.get(b) {
            Some(y) => x.same(y),
            None => false,
        },
        None => false,
    }
}

/// Parts a list into the elements that `probe` does not ask for and those
/// that it does, each in their order.
pub fn split_list(a: &Vec<GenData>, probe: Probe, gm: &GenManager) -> (r: (
    Vec<GenData>,
    Vec<GenData>,
))
    ensures
        r.0@ == pick(a@, gm@, probe@, false),
        r.1@ == pick(a@, gm@, probe@, true),
{
    let mut kept: Vec<GenData> = Vec::new();
    let mut gone: Vec<GenData> = Vec::new();
    let mut i: usize = 0;
    while i < a.len()
        invariant
            i <= a@.len(),
            kept@ == pick(a@.subrange(0, i as int), gm@, probe@, false),
            gone@ == pick(a@.subrange(0, i as int), gm@, probe@, true),
        decreases a@.len() - i,
    {
        let e = &a[i];
        let is_hit = match &probe {
            Probe::Slot(h) => e.pos == h.pos && e.gen == h.gen,
            Probe::Val(v) => match gm.get(e) {
                Some(x) => x.same(v),
                None => false,
            },
        };
        assert(is_hit == hit(gm@, probe@, *e));
        assert(a@.subrange(0, i + 1).drop_last() =~= a@.subrange(0, i as int));
        assert(a@.subrange(0, i + 1).last() == *e);
        if is_hit {
            gone.push(e.clone_ig());
        } else {
            kept.push(e.clone_ig());
        }
        i += 1;
    }
    assert(a@.subrange(0, i as int) =~= a@);
    (kept, gone)
}

impl Value {
    /// Adds `rhs` to the value.
    pub fn try_add(self, rhs: Value, gm: &mut GenManager) -> (r: Result<Value, ActionError>)
        requires
            old(gm)@.wf(),
            self@.wf(),
            rhs@.wf(),
        ensures
            final(gm)@.wf(),
            (Outcome { res: result_view(r), arena: final(gm)@ }) == add_spec(
                self@,
                rhs@,
                old(gm)@,
            ),
            r is Ok ==> r->Ok_0@.wf(),
    {
        match self {
            Value::Bool(a) => match rhs {
                Value::Bool(b) => Ok(Value::Bool(a || b)),
                other => fail_types("add", Value::Bool(a), other, gm),
            },
            Value::Num(a) => match rhs {
                Value::Num(b) => match a.checked_add(b) {
                    Some(n) => Ok(Value::Num(n)),
                    None => Err(ActionError::new("Number overflow")),
                },
                other => fail_types("add", Value::Num(a), other, gm),
            },
            Value::Str(a) => match rhs {
                Value::Str(b) => {
                    let mut a = a;
                    a.append(b.as_str());
                    Ok(Value::Str(a))
                },
                other => fail_types("add", Value::Str(a), other, gm),
            },
            Value::List(a) => match rhs {
                Value::List(b) => {
                    let mut a = a;
                    let mut b = b;
                    a.append(&mut b);
                    Ok(Value::List(a))
                },
                Value::Ref(h) => {
                    let mut a = a;
                    a.push(h);
                    Ok(Value::List(a))
                },
                other => {
                    if other.is_scalar() {
                        let mut a = a;
                        let h = gm.push(other);
                        a.push(h);
                        Ok(Value::List(a))
                    } else {
                        fail_types("add", Value::List(a), other, gm)
                    }
                },
            },
            Value::Tree(ma) => match rhs {
                Value::Tree(mb) => {
                    let mut ma = ma;
                    let ghost start = ma@;
                    let n = mb.entries.len();
                    let mut i: usize = 0;
                    assert(mb@.subrange(0, n as int) =~= mb@);
                    while i < n
                        invariant
                            i <= n,
                            n == mb@.len(),
                            n == mb.entries@.len(),
                            ma.wf(),
                            gm@.wf(),
                            merge_trees(ma@, mb@.subrange(i as int, n as int), gm@) == merge_trees(
                                start,
                                mb@,
                                old(gm)@,
                            ),
                        decreases n - i,
                    {
                        let k = mb.entries[i].key.clone_node();
                        let v = mb.entries[i].val.clone_ig();
                        let ghost rest = mb@.subrange(i as int, n as int);
                        assert(rest[0] == (k@, v));
                        assert(rest.drop_first() =~= mb@.subrange(i + 1, n as int));
                        if let Some(d) = ma.insert(k, v) {
                            gm.drop_ref(d);
                        }
                        i += 1;
                    }
                    assert(mb@.subrange(0, n as int) =~= mb@);
                    Ok(Value::Tree(ma))
                },
                other => fail_types("add", Value::Tree(ma), other, gm),
            },
            u => fail_types("add", u, rhs, gm),
        }
    }

    /// Subtracts `rhs` from the value.
    pub fn try_sub(self, rhs: Value, gm: &mut GenManager) -> (r: Result<Value, ActionError>)
        requires
            old(gm)@.wf(),
            self@.wf(),
            rhs@.wf(),
        ensures
            final(gm)@.wf(),
            (Outcome { res: result_view(r), arena: final(gm)@ }) == sub_spec(
                self@,
                rhs@,
                old(gm)@,
            ),
            r is Ok ==> r->Ok_0@.wf(),
    {
        match self {
            Value::Num(a) => match rhs {
                Value::Num(b) => match a.checked_sub(b) {
                    Some(n) => Ok(Value::Num(n)),
                    None => Err(ActionError::new("Number overflow")),
                },
                other => fail_types("subtract", Value::Num(a), other, gm),
            },
            Value::List(a) => match rhs {
                Value::List(b) => {
                    let mut left = a;
                    let mut gone: Vec<GenData> = Vec::new();
                    let ghost x0 = left@;
                    let n = b.len();
                    let mut j: usize = 0;
                    assert(b@.subrange(0, n as int) =~= b@);
                    assert(gone@ + list_diff(x0, b@, gm@).1 =~= list_diff(x0, b@, gm@).1);
                    while j < n
                        invariant
                            j <= n,
                            n == b@.len(),
                            gm@ == old(gm)@,
                            list_diff(x0, b@, gm@).0 == list_diff(
                                left@,
                                b@.subrange(j as int, n as int),
                                gm@,
                            ).0,
                            list_diff(x0, b@, gm@).1 == gone@ + list_diff(
                                left@,
                                b@.subrange(j as int, n as int),
                                gm@,
                            ).1,
                        decreases n - j,
                    {
                        let ghost rest = b@.subrange(j as int, n as int);
                        assert(rest[0] == b@[j as int]);
                        assert(rest.drop_first() =~= b@.subrange(j + 1, n as int));
                        let mut i: usize = 0;
                        while i < left.len() && !same_elem(gm, &left[i], &b[j])
                            invariant
                                i <= left@.len(),
                                j < b@.len(),
                                forall|k: int|
                                    0 <= k < i ==> !elem_eq(gm@, #[trigger] left@[k], b@[j as int]),
                            decreases left@.len() - i,
                        {
                            i += 1;
                        }
                        proof {
                            lemma_first_match_is(left@, b@[j as int], gm@, i as int);
                        }
                        if i < left.len() {
                            let ghost before = gone@;
                            let ghost tail = list_diff(left@.remove(i as int), rest.drop_first(), gm@).1;
                            let e = left.remove(i);
                            gone.push(e);
                            assert(gone@ + tail =~= before + (seq![e] + tail));
                        }
                        j += 1;
                    }
                    assert(b@.subrange(n as int, n as int) =~= Seq::<GenData>::empty());
                    assert(gone@ + Seq::<GenData>::empty() =~= gone@);
                    let mut b = b;
                    gone.append(&mut b);
                    gm.release(gone);
                    Ok(Value::List(left))
                },
                Value::Ref(h) => {
                    let (kept, gone) = split_list(&a, Probe::Slot(&h), gm);
                    let mut gone = gone;
                    gone.push(h);
                    gm.release(gone);
                    Ok(Value::List(kept))
                },
                other => {
                    if other.is_scalar() {
                        let (kept, gone) = split_list(&a, Probe::Val(&other), gm);
                        gm.release(gone);
                        Ok(Value::List(kept))
                    } else {
                        fail_types("subtract", Value::List(a), other, gm)
                    }
                },
            },
            Value::Tree(t) => match rhs {
                Value::Str(s) => {
                    let mut t = t;
                    let k = ProtoNode::Str(s);
                    if let Some(d) = t.remove(&k) {
                        gm.drop_ref(d);
                    }
                    Ok(Value::Tree(t))
                },
                other => fail_types("subtract", Value::Tree(t), other, gm),
            },
            u => fail_types("subtract", u, rhs, gm),
        }
    }
}

/// The sum of two numbers is the number of their sum, whenever that is a
/// value of the number type, and the arena is untouched.
pub proof fn lemma_add_numbers(a: isize, b: isize, g: ArenaView)
    requires
        fits(a + b),
    ensures
        add_spec(ValueView::Num(a), ValueView::Num(b), g) == (Outcome {
            res: Ok(ValueView::Num((a + b) as isize)),
            arena: g,
        }),
{
}

/// Dividing a number by zero fails with the division error, and the arena is
/// untouched.
pub proof fn lemma_div_by_zero(a: isize, g: ArenaView)
    ensures
        div_spec(ValueView::Num(a), ValueView::Num(0), g) == (Outcome {
            res: Err(ActionErrorView::DoingErr("Can't div by zero"@)),
            arena: g,
        }),
{
}

/// Merging keeps the order of the keys and the invariant of the arena;
/// every key of the right map is bound as the right map binds it, and every
/// other key as the left map does. No count grows and no empty slot is
/// filled.
pub proof fn lemma_merge_right_wins(a: TreeView, b: TreeView, g: ArenaView)
    requires
        tree_sorted(a),
        tree_sorted(b),
        g.wf(),
    ensures
        tree_sorted(merge_trees(a, b, g).0),
        merge_trees(a, b, g).1.wf(),
        forall|k: NodeView|
            tree_get(#[trigger] merge_trees(a, b, g).0, k) == if tree_get(b, k) is Some {
                tree_get(b, k)
            } else {
                tree_get(a, k)
            },
        merge_trees(a, b, g).1.items.len() == g.items.len(),
        forall|i: int|
            0 <= i < g.items.len() ==> {
                &&& (#[trigger] merge_trees(a, b, g).1.items[i]).gen == g.items[i].gen
                &&& merge_trees(a, b, g).1.items[i].rc <= g.items[i].rc
                &&& (g.items[i].val is None ==> merge_trees(a, b, g).1.items[i].val is None)
            },
    decreases b.len(),
{
    if b.len() > 0 {
        let d = tree_get(a, b[0].0);
        let g2 = if d is Some {
            g.release(seq![d->0])
        } else {
            g
        };
        if d is Some {
            g.lemma_release(seq![d->0]);
        }
        let a2 = tree_insert(a, b[0].0, b[0].1);
        lemma_tree_insert(a, b[0].0, b[0].1);
        let rest = b.drop_first();
        assert forall|i: int, j: int| 0 <= i < j < rest.len() implies crate::proto::node_lt(
            #[trigger] rest[i].0,
            #[trigger] rest[j].0,
        ) by {
            assert(rest[i] == b[i + 1] && rest[j] == b[j + 1]);
        }
        lemma_merge_right_wins(a2, rest, g2);
        let m = merge_trees(a, b, g);
        assert(m == merge_trees(a2, rest, g2));
        assert forall|k: NodeView| tree_get(#[trigger] merge_trees(a, b, g).0, k) == if tree_get(
            b,
            k,
        ) is Some {
            tree_get(b, k)
        } else {
            tree_get(a, k)
        } by {
            crate::tree::lemma_tree_get_at(b, 0);
            if k == b[0].0 {
                assert forall|i: int| 0 <= i < rest.len() implies (#[trigger] rest[i]).0 != k by {
                    assert(rest[i] == b[i + 1]);
                    crate::proto::lemma_node_lt_irreflexive(k);
                }
                crate::tree::lemma_tree_get_none(rest, k);
            } else {
                if tree_get(rest, k) is Some {
                    crate::tree::lemma_tree_get_some(rest, k);
                    let j = crate::tree::lower(rest, k) as int;
                    assert(rest[j] == b[j + 1]);
                    crate::tree::lemma_tree_get_at(b, j + 1);
                } else {
                    if tree_get(b, k) is Some {
                        crate::tree::lemma_tree_get_some(b, k);
                        let j = crate::tree::lower(b, k) as int;
                        assert(j > 0);
                        assert(rest[j - 1] == b[j]);
                        assert forall|i: int, j: int| 0 <= i < j < rest.len() implies crate::proto::node_lt(
                            #[trigger] rest[i].0,
                            #[trigger] rest[j].0,
                        ) by {
                            assert(rest[i] == b[i + 1] && rest[j] == b[j + 1]);
                        }
                        crate::tree::lemma_tree_get_at(rest, j - 1);
                    }
                }
            }
        }
    }
}

/// When the right map overwrites a binding of the left one, the handle that
/// was bound before is given up: if it was the one strong handle to its
/// value, the value is gone afterwards.
pub proof fn lemma_merge_releases(a: TreeView, b: TreeView, g: ArenaView, k: NodeView)
    requires
        tree_sorted(a),
        tree_sorted(b),
        g.wf(),
        tree_get(a, k) is Some,
        tree_get(b, k) is Some,
        tree_get(a, k)->0.strong,
        g.current(tree_get(a, k)->0),
        g.count(tree_get(a, k)->0) <= 1,
    ensures
        !merge_trees(a, b, g).1.live(tree_get(a, k)->0),
    decreases b.len(),
{
    let h = tree_get(a, k)->0;
    if b.len() > 0 {
        let d = tree_get(a, b[0].0);
        let g2 = if d is Some {
            g.release(seq![d->0])
        } else {
            g
        };
        if d is Some {
            g.lemma_release(seq![d->0]);
        }
        let a2 = tree_insert(a, b[0].0, b[0].1);
        lemma_tree_insert(a, b[0].0, b[0].1);
        let rest = b.drop_first();
        assert forall|i: int, j: int| 0 <= i < j < rest.len() implies crate::proto::node_lt(
            #[trigger] rest[i].0,
            #[trigger] rest[j].0,
        ) by {
            assert(rest[i] == b[i + 1] && rest[j] == b[j + 1]);
        }
        if k == b[0].0 {
            if g.count(h) == 1 {
                g.lemma_last_release(h);
            }
            assert(!g2.live(h));
            lemma_merge_right_wins(a2, rest, g2);
        } else {
            crate::tree::lemma_tree_get_some(b, k);
            let j = crate::tree::lower(b, k) as int;
            crate::tree::lemma_tree_get_at(b, 0);
            assert(j > 0);
            assert(rest[j - 1] == b[j]);
            crate::tree::lemma_tree_get_at(rest, j - 1);
            lemma_merge_releases(a2, rest, g2, k);
        }
    } else {
        crate::tree::lemma_tree_get_none(b, k);
    }
}

/// The handle `h` without ownership.
pub open spec fn weak(h: GenData) -> GenData {
    GenData { strong: false, ..h }
}

/// The value with every handle weak.
pub open spec fn weak_view(v: ValueView) -> ValueView {
    match v {
        ValueView::Ref(h) => ValueView::Ref(weak(h)),
        ValueView::List(l) => ValueView::List(Seq::new(l.len(), |i: int| weak(l[i]))),
        ValueView::Tree(t) => ValueView::Tree(Seq::new(t.len(), |i: int| (t[i].0, weak(t[i].1)))),
        _ => v,
    }
}

/// The handles `hs` made owning, first to last, and the arena after it. A
/// strong handle stays as it is. A weak handle whose value can be counted
/// once more becomes strong, and the count grows; any other stays weak.
pub open spec fn strengthen(hs: Seq<GenData>, g: ArenaView) -> (Seq<GenData>, ArenaView)
    decreases hs.len(),
{
    if hs.len() == 0 {
        (hs, g)
    } else {
        let s = strengthen(hs.drop_last(), g);
        let h = hs.last();
        if !h.strong && s.1.can_upgrade(h) {
            (s.0.push(GenData { strong: true, ..h }), s.1.upgrade(h))
        } else {
            (s.0.push(h), s.1)
        }
    }
}

/// Making handles owning keeps their number and the slots they name, and
/// keeps the invariant of the arena.
pub proof fn lemma_strengthen(hs: Seq<GenData>, g: ArenaView)
    requires
        g.wf(),
    ensures
        strengthen(hs, g).0.len() == hs.len(),
        forall|i: int| 0 <= i < hs.len() ==> (#[trigger] strengthen(hs, g).0[i]).same_slot(hs[i]),
        strengthen(hs, g).1.wf(),
    decreases hs.len(),
{
    if hs.len() > 0 {
        lemma_strengthen(hs.drop_last(), g);
    }
}

/// The value with every handle made owning, and the arena after it.
pub open spec fn strong_view(v: ValueView, g: ArenaView) -> (ValueView, ArenaView) {
    let s = strengthen(v.handles(), g);
    match v {
        ValueView::Ref(h) => (ValueView::Ref(s.0[0]), s.1),
        ValueView::List(l) => (ValueView::List(s.0), s.1),
        ValueView::Tree(t) => (ValueView::Tree(Seq::new(t.len(), |i: int| (t[i].0, s.0[i]))), s.1),
        _ => (v, g),
    }
}

/// Makes the handles of `l` owning, first to last.
pub fn strengthen_list(l: Vec<GenData>, gm: &mut GenManager) -> (r: Vec<GenData>)
    requires
        old(gm)@.wf(),
    ensures
        final(gm)@.wf(),
        (r@, final(gm)@) == strengthen(l@, old(gm)@),
{
    let mut out: Vec<GenData> = Vec::new();
    let mut i: usize = 0;
    while i < l.len()
        invariant
            i <= l@.len(),
            gm@.wf(),
            (out@, gm@) == strengthen(l@.subrange(0, i as int), old(gm)@),
        decreases l@.len() - i,
    {
        let h = &l[i];
        assert(l@.subrange(0, i + 1).drop_last() =~= l@.subrange(0, i as int));
        assert(l@.subrange(0, i + 1).last() == *h);
        if !h.strong && gm.upgrade(h) {
            out.push(GenData { pos: h.pos, gen: h.gen, strong: true });
        } else {
            out.push(h.clone_ig());
        }
        i += 1;
    }
    assert(l@.subrange(0, i as int) =~= l@);
    out
}

impl Value {
    /// A copy of the value whose handles own nothing.
    pub fn clone_weak(&self) -> (r: Value)
        ensures
            r@ == weak_view(self@),
    {
        match self {
            Value::Null => Value::Null,
            Value::Bool(b) => Value::Bool(*b),
            Value::Num(n) => Value::Num(*n),
            Value::Str(s) => Value::Str(s.clone()),
            Value::Ref(gd) => Value::Ref(gd.clone_weak()),
            Value::List(v) => {
                let mut out: Vec<GenData> = Vec::new();
                let mut i: usize = 0;
                while i < v.len()
                    invariant
                        i <= v@.len(),
                        out@.len() == i,
                        forall|j: int| 0 <= j < i ==> #[trigger] out@[j] == weak(v@[j]),
                    decreases v@.len() - i,
                {
                    out.push(v[i].clone_weak());
                    i += 1;
                }
                let r = Value::List(out);
                assert(r@->List_0 =~= weak_view(self@)->List_0);
                r
            },
            Value::Tree(m) => {
                let mut out: Vec<TreeEntry> = Vec::new();
                let mut i: usize = 0;
                while i < m.entries.len()
                    invariant
                        i <= m.entries@.len(),
                        out@.len() == i,
                        forall|j: int|
                            0 <= j < i ==> (#[trigger] out@[j]).key@ == m.entries@[j].key@
                                && out@[j].val == weak(m.entries@[j].val),
                    decreases m.entries@.len() - i,
                {
                    out.push(
                        TreeEntry {
                            key: m.entries[i].key.clone_node(),
                            val: m.entries[i].val.clone_weak(),
                        },
                    );
                    i += 1;
                }
                let r = Value::Tree(RefTree { entries: out });
                assert(r@->Tree_0 =~= weak_view(self@)->Tree_0);
                r
            },
            Value::ExprDef(p, e) => Value::ExprDef(clone_strings(p), e.clone_expr()),
            Value::FuncDef(p, a) => Value::FuncDef(clone_strings(p), clone_actions(a)),
        }
    }

    /// The value with every handle made owning: each weak handle whose value
    /// can be counted once more becomes strong, and the count grows.
    pub fn to_strong(self, gm: &mut GenManager) -> (r: Self)
        requires
            old(gm)@.wf(),
        ensures
            final(gm)@.wf(),
            (r@, final(gm)@) == strong_view(self@, old(gm)@),
            self@.wf() ==> r@.wf(),
    {
        match self {
            Value::List(l) => Value::List(strengthen_list(l, gm)),
            Value::Tree(m) => {
                proof {
                    lemma_strengthen(tree_values(m@), old(gm)@);
                }
                let mut hs: Vec<GenData> = Vec::new();
                let mut i: usize = 0;
                while i < m.entries.len()
                    invariant
                        i <= m.entries@.len(),
                        hs@.len() == i,
                        forall|j: int| 0 <= j < i ==> #[trigger] hs@[j] == m.entries@[j].val,
                    decreases m.entries@.len() - i,
                {
                    hs.push(m.entries[i].val.clone_ig());
                    i += 1;
                }
                assert(hs@ =~= tree_values(m@));
                let strong = strengthen_list(hs, gm);
                let mut m = m;
                let ghost keys = m@;
                let mut j: usize = 0;
                while j < m.entries.len()
                    invariant
                        j <= m.entries@.len(),
                        m.entries@.len() == strong@.len(),
                        m@.len() == keys.len(),
                        keys.len() == strong@.len(),
                        forall|k: int| 0 <= k < keys.len() ==> (#[trigger] m@[k]).0 == keys[k].0,
                        forall|k: int| 0 <= k < j ==> (#[trigger] m@[k]).1 == strong@[k],
                    decreases m.entries@.len() - j,
                {
                    let ghost before = m@;
                    let slot = &mut m.entries[j];
                    slot.val = strong[j].clone_ig();
                    assert forall|k: int| 0 <= k < keys.len() implies (#[trigger] m@[k]).0
                        == keys[k].0 by {
                        assert(before[k].0 == keys[k].0);
                    }
                    assert forall|k: int| 0 <= k < j + 1 implies (#[trigger] m@[k]).1
                        == strong@[k] by {
                        if k < j {
                            assert(before[k].1 == strong@[k]);
                        }
                    }
                    j += 1;
                }
                let r = Value::Tree(m);
                assert(r@->Tree_0 =~= strong_view(self@, old(gm)@).0->Tree_0);
                assert(self@.wf() ==> r@.wf()) by {
                    if self@.wf() {
                        assert forall|a: int, b: int|
                            0 <= a < b < r@->Tree_0.len() implies crate::proto::node_lt(
                            #[trigger] r@->Tree_0[a].0,
                            #[trigger] r@->Tree_0[b].0,
                        ) by {
                            assert(keys[a].0 == r@->Tree_0[a].0);
                            assert(keys[b].0 == r@->Tree_0[b].0);
                        }
                    }
                }
                r
            },
            Value::Ref(h) => {
                let mut l: Vec<GenData> = Vec::new();
                l.push(h);
                assert(l@ =~= seq![h]);
                proof {
                    lemma_strengthen(l@, old(gm)@);
                }
                let mut s = strengthen_list(l, gm);
                Value::Ref(s.pop().unwrap())
            },
            s => s,
        }
    }

    /// A copy of the value that owns what its handles name: every handle
    /// whose value can be counted once more is strong, and the count grew.
    pub fn clone_shallow(&self, gm: &mut GenManager) -> (r: Value)
        requires
            old(gm)@.wf(),
        ensures
            final(gm)@.wf(),
            (r@, final(gm)@) == strong_view(weak_view(self@), old(gm)@),
    {
        let res = self.clone_weak();
        res.to_strong(gm)
    }

    /// Binds `pn` to `gd` in a map, and hands back the handle bound before.
    /// Any other value takes no child and stays as it is.
    pub fn give_child(&mut self, pn: ProtoNode, gd: GenData) -> (r: Result<
        Option<GenData>,
        ActionError,
    >)
        requires
            old(self)@.wf(),
        ensures
            final(self)@.wf(),
            old(self)@ is Tree ==> r is Ok && r->Ok_0 == tree_get(old(self)@->Tree_0, pn@) && final(self)@ == ValueView::Tree(tree_insert(old(self)@->Tree_0, pn@, gd)),
            !(old(self)@ is Tree) ==> r is Err && r->Err_0@ == ActionErrorView::DoingErr(
                "Not childable type"@,
            ) && final(self)@ == old(self)@,
    {
        match self {
            Value::Tree(m) => Ok(m.insert(pn, gd)),
            _ => Err(ActionError::new("Not childable type")),
        }
    }

    /// Binds `pn` to `gd` in a map unless `pn` is bound already. Says
    /// whether it did, with a weak handle to what `pn` is bound to now. Any
    /// other value takes no child and stays as it is.
    pub fn try_give_child(&mut self, pn: &ProtoNode, gd: GenData) -> (r: Result<
        (bool, GenData),
        ActionError,
    >)
        requires
            old(self)@.wf(),
        ensures
            final(self)@.wf(),
            old(self)@ is Tree && tree_get(old(self)@->Tree_0, pn@) is Some ==> r is Ok && r->Ok_0
                == (false, weak(tree_get(old(self)@->Tree_0, pn@)->0)) && final(self)@ == old(self)@,
            old(self)@ is Tree && tree_get(old(self)@->Tree_0, pn@) is None ==> r is Ok && r->Ok_0
                == (true, weak(gd)) && final(self)@ == ValueView::Tree(
                tree_insert(old(self)@->Tree_0, pn@, gd),
            ),
            !(old(self)@ is Tree) ==> r is Err && r->Err_0@ == ActionErrorView::DoingErr(
                "Could not give Child"@,
            ) && final(self)@ == old(self)@,
    {
        let g_res = gd.clone_weak();
        match self {
            Value::Tree(m) => {
                if let Some(gr) = m.get(pn) {
                    return Ok((false, gr.clone_weak()));
                } else {
                    m.insert(pn.clone_node(), gd);
                    return Ok((true, g_res));
                }
            },
            _ => return Err(ActionError::new("Could not give Child")),
        }
    }
}

impl PartialEq for Value {
    fn eq(&self, other: &Value) -> (r: bool) {
        self.same(other)
    }
}

impl vstd::std_specs::cmp::PartialEqSpecImpl for Value {
    open spec fn obeys_eq_spec() -> bool {
        true
    }

    open spec fn eq_spec(&self, other: &Value) -> bool {
        value_eq(self@, other@)
    }
}

impl From<usize> for Value {
    fn from(n: usize) -> (r: Value) {
        if n > isize::MAX as usize {
            Value::Num(isize::MAX)
        } else {
            Value::Num(n as isize)
        }
    }
}

impl vstd::std_specs::convert::FromSpecImpl<usize> for Value {
    open spec fn obeys_from_spec() -> bool {
        true
    }

    /// The number `n`, or the largest number where `n` is beyond it.
    open spec fn from_spec(n: usize) -> Value {
        if n > isize::MAX as usize {
            Value::Num(isize::MAX)
        } else {
            Value::Num(n as isize)
        }
    }
}

} // verus!
