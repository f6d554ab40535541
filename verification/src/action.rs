//! Statements of the language.

use vstd::prelude::*;
use crate::expr::{Expr, ExprView, Op};

verus! {

/// Whether a finished block asks the enclosing function to return.
#[derive(Debug, Clone, Copy, PartialEq, Eq, Structural)]
pub enum AcReturn {
    No,
    Func,
}

/// One statement.
#[derive(Debug)]
pub enum Action {
    NoOp,
    Select(Expr),
    SetSelect(Expr, Expr),
    OpSet(Op, Expr, Expr),
    Assign(Expr, Expr),
    AddItem(isize, String),
    RemItem(isize, String),
    Resolve(Expr),
    Return(Expr),
}

/// The mathematical value of an [`Action`].
pub enum ActionView {
    NoOp,
    Select(ExprView),
    SetSelect(ExprView, ExprView),
    OpSet(Op, ExprView, ExprView),
    Assign(ExprView, ExprView),
    AddItem(int, Seq<char>),
    RemItem(int, Seq<char>),
    Resolve(ExprView),
    Return(ExprView),
}

/// The values of a sequence of statements, element by element.
pub open spec fn actions_model(l: Seq<Action>) -> Seq<ActionView>
    decreases l, 1nat,
{
    Seq::new(
        l.len(),
        |i: int|
            if 0 <= i < l.len() {
                l[i].model()
            } else {
                ActionView::NoOp
            },
    )
}

impl Action {
    /// The mathematical value of the statement.
    pub open spec fn model(&self) -> ActionView
        decreases self, 0nat,
    {
        match self {
            Action::NoOp => ActionView::NoOp,
            Action::Select(e) => ActionView::Select(e.model()),
            Action::SetSelect(p, v) => ActionView::SetSelect(p.model(), v.model()),
            Action::OpSet(o, p, v) => ActionView::OpSet(*o, p.model(), v.model()),
            Action::Assign(p, v) => ActionView::Assign(p.model(), v.model()),
            Action::AddItem(n, s) => ActionView::AddItem(*n as int, s@),
            Action::RemItem(n, s) => ActionView::RemItem(*n as int, s@),
            Action::Resolve(e) => ActionView::Resolve(e.model()),
            Action::Return(e) => ActionView::Return(e.model()),
        }
    }
}

impl View for Action {
    type V = ActionView;

    open spec fn view(&self) -> ActionView {
        self.model()
    }
}

impl Action {
    /// A copy of the statement.
    pub fn clone_action(&self) -> (r: Action)
        ensures
            r@ == self@,
        decreases self, 0nat,
    {
        match self {
            Action::NoOp => Action::NoOp,
            Action::Select(e) => Action::Select(e.clone_expr()),
            Action::SetSelect(p, v) => Action::SetSelect(p.clone_expr(), v.clone_expr()),
            Action::OpSet(o, p, v) => Action::OpSet(*o, p.clone_expr(), v.clone_expr()),
            Action::Assign(p, v) => Action::Assign(p.clone_expr(), v.clone_expr()),
            Action::AddItem(n, s) => Action::AddItem(*n, s.clone()),
            Action::RemItem(n, s) => Action::RemItem(*n, s.clone()),
            Action::Resolve(e) => Action::Resolve(e.clone_expr()),
            Action::Return(e) => Action::Return(e.clone_expr()),
        }
    }

    /// Whether two statements are structurally equal.
    pub fn same(&self, other: &Action) -> (r: bool)
        ensures
            r == (self@ == other@),
        decreases self, 0nat,
    {
        match (self, other) {
            (Action::NoOp, Action::NoOp) => true,
            (Action::Select(a), Action::Select(b)) => a.same(b),
            (Action::SetSelect(a, b), Action::SetSelect(c, d)) => a.same(c) && b.same(d),
            (Action::OpSet(o, a, b), Action::OpSet(p, c, d)) => *o == *p && a.same(c) && b.same(d),
            (Action::Assign(a, b), Action::Assign(c, d)) => a.same(c) && b.same(d),
            (Action::AddItem(n, s), Action::AddItem(m, t)) => *n == *m && *s == *t,
            (Action::RemItem(n, s), Action::RemItem(m, t)) => *n == *m && *s == *t,
            (Action::Resolve(a), Action::Resolve(b)) => a.same(b),
            (Action::Return(a), Action::Return(b)) => a.same(b),
            _ => false,
        }
    }
}

/// A copy of a list of statements.
pub fn clone_actions(l: &Vec<Action>) -> (r: Vec<Action>)
    ensures
        actions_model(r@) == actions_model(l@),
    decreases l, 1nat,
{
    let mut r: Vec<Action> = Vec::new();
    let mut i: usize = 0;
    while i < l.len()
        invariant
            i <= l@.len(),
            r@.len() == i,
            forall|j: int| 0 <= j < i ==> (#[trigger] r@[j])@ == l@[j]@,
        decreases l@.len() - i,
    {
        r.push(l[i].clone_action());
        i += 1;
    }
    assert(actions_model(r@) =~= actions_model(l@));
    r
}

/// Whether two lists of statements are equal element by element.
pub fn same_actions(a: &Vec<Action>, b: &Vec<Action>) -> (r: bool)
    ensures
        r == (actions_model(a@) == actions_model(b@)),
    decreases a, 1nat,
{
    if a.len() != b.len() {
        assert(actions_model(a@).len() != actions_model(b@).len());
        return false;
    }
    let mut i: usize = 0;
    while i < a.len()
        invariant
            i <= a@.len(),
            a@.len() == b@.len(),
            forall|j: int| 0 <= j < i ==> (#[trigger] a@[j])@ == b@[j]@,
        decreases a@.len() - i,
    {
        if !a[i].same(&b[i]) {
            assert(actions_model(a@)[i as int] != actions_model(b@)[i as int]);
            return false;
        }
        i += 1;
    }
    assert(actions_model(a@) =~= actions_model(b@));
    true
}

impl PartialEq for Action {
    fn eq(&self, other: &Action) -> (r: bool) {
        self.same(other)
    }
}

impl vstd::std_specs::cmp::PartialEqSpecImpl for Action {
    open spec fn obeys_eq_spec() -> bool {
        true
    }

    open spec fn eq_spec(&self, other: &Action) -> bool {
        self@ == other@
    }
}

} // verus!
