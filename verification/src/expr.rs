//! Expressions of the language, their operators, and their mathematical
//! values.

use vstd::prelude::*;
use crate::action::{Action, ActionView, actions_model, clone_actions, same_actions};
use crate::error::ActionError;
use crate::machine::{apply, eval_in, path_in, path_view, block_in, ran_view};
use crate::proto::Proto;
use crate::scope::{DICE_POOL, Eval, Scope, eval_view};
use crate::semantics::{
    MAX_DEPTH, PathEval, Ran, apply_op, block_spec, drawn, eval_path_spec, eval_spec,
};
use crate::text::{clone_strings, same_strings, strings_view};
use crate::value::{Value, ValueView};
use crate::action::AcReturn;

verus! {

/// A binary operator.
#[derive(Debug, Clone, Copy, PartialEq, Eq, Structural)]
pub enum Op {
    Add,
    Sub,
    Div,
    Mul,
    Greater,
    Less,
    Dot,
    Equal,
}

/// How far a returned value travels up the enclosing constructs.
#[derive(Debug, Clone, Copy, PartialEq, Eq, Structural)]
pub enum EvReturn {
    Func,
    Expr,
    No,
}

/// One `key: value` entry of a map literal.
#[derive(Debug)]
pub struct MapItem {
    pub k: String,
    pub v: Expr,
}

/// An expression.
#[derive(Debug)]
pub enum Expr {
    Bool(bool),
    Num(isize),
    Str(String),
    Ident(String),
    Oper(Op, Box<Expr>, Box<Expr>),
    Bracket(Box<Expr>),
    Neg(Box<Expr>),
    DotStart(Box<Expr>),
    Rooted(Box<Expr>),
    Deref(Box<Expr>),
    List(Vec<Expr>),
    Tree(Vec<MapItem>),
    If(Box<Expr>, Vec<Action>, Vec<Action>),
    Call(Box<Expr>, Vec<Expr>),
    ExprDef(Vec<String>, Box<Expr>),
    FuncDef(Vec<String>, Vec<Action>),
}

/// The mathematical value of a [`MapItem`].
pub struct MapItemView {
    pub k: Seq<char>,
    pub v: ExprView,
}

/// The mathematical value of an [`Expr`].
pub enum ExprView {
    Bool(bool),
    Num(int),
    Str(Seq<char>),
    Ident(Seq<char>),
    Oper(Op, Box<ExprView>, Box<ExprView>),
    Bracket(Box<ExprView>),
    Neg(Box<ExprView>),
    DotStart(Box<ExprView>),
    Rooted(Box<ExprView>),
    Deref(Box<ExprView>),
    List(Seq<ExprView>),
    Tree(Seq<MapItemView>),
    If(Box<ExprView>, Seq<ActionView>, Seq<ActionView>),
    Call(Box<ExprView>, Seq<ExprView>),
    ExprDef(Seq<Seq<char>>, Box<ExprView>),
    FuncDef(Seq<Seq<char>>, Seq<ActionView>),
}

/// The values of a sequence of expressions, element by element.
pub open spec fn exprs_model(l: Seq<Expr>) -> Seq<ExprView>
    decreases l, 1nat,
{
    Seq::new(
        l.len(),
        |i: int|
            if 0 <= i < l.len() {
                l[i].model()
            } else {
                ExprView::Bool(false)
            },
    )
}

/// The values of a sequence of map entries, element by element.
pub open spec fn items_model(l: Seq<MapItem>) -> Seq<MapItemView>
    decreases l, 1nat,
{
    Seq::new(
        l.len(),
        |i: int|
            if 0 <= i < l.len() {
                MapItemView { k: l[i].k@, v: l[i].v.model() }
            } else {
                MapItemView { k: Seq::empty(), v: ExprView::Bool(false) }
            },
    )
}

impl Expr {
    /// The mathematical value of the expression.
    pub open spec fn model(&self) -> ExprView
        decreases self, 0nat,
    {
        match self {
            Expr::Bool(b) => ExprView::Bool(*b),
            Expr::Num(n) => ExprView::Num(*n as int),
            Expr::Str(s) => ExprView::Str(s@),
            Expr::Ident(s) => ExprView::Ident(s@),
            Expr::Oper(o, a, b) => ExprView::Oper(*o, Box::new(a.model()), Box::new(b.model())),
            Expr::Bracket(a) => ExprView::Bracket(Box::new(a.model())),
            Expr::Neg(a) => ExprView::Neg(Box::new(a.model())),
            Expr::DotStart(a) => ExprView::DotStart(Box::new(a.model())),
            Expr::Rooted(a) => ExprView::Rooted(Box::new(a.model())),
            Expr::Deref(a) => ExprView::Deref(Box::new(a.model())),
            Expr::List(l) => ExprView::List(exprs_model(l@)),
            Expr::Tree(l) => ExprView::Tree(items_model(l@)),
            Expr::If(c, t, e) => ExprView::If(
                Box::new(c.model()),
                actions_model(t@),
                actions_model(e@),
            ),
            Expr::Call(f, a) => ExprView::Call(Box::new(f.model()), exprs_model(a@)),
            Expr::ExprDef(p, e) => ExprView::ExprDef(strings_view(p@), Box::new(e.model())),
            Expr::FuncDef(p, b) => ExprView::FuncDef(strings_view(p@), actions_model(b@)),
        }
    }
}

impl View for Expr {
    type V = ExprView;

    open spec fn view(&self) -> ExprView {
        self.model()
    }
}

impl Expr {
    /// A copy of the expression.
    pub fn clone_expr(&self) -> (r: Expr)
        ensures
            r@ == self@,
        decreases self, 0nat,
    {
        match self {
            Expr::Bool(b) => Expr::Bool(*b),
            Expr::Num(n) => Expr::Num(*n),
            Expr::Str(s) => Expr::Str(s.clone()),
            Expr::Ident(s) => Expr::Ident(s.clone()),
            Expr::Oper(o, a, b) => Expr::Oper(
                *o,
                Box::new(a.clone_expr()),
                Box::new(b.clone_expr()),
            ),
            Expr::Bracket(a) => Expr::Bracket(Box::new(a.clone_expr())),
            Expr::Neg(a) => Expr::Neg(Box::new(a.clone_expr())),
            Expr::DotStart(a) => Expr::DotStart(Box::new(a.clone_expr())),
            Expr::Rooted(a) => Expr::Rooted(Box::new(a.clone_expr())),
            Expr::Deref(a) => Expr::Deref(Box::new(a.clone_expr())),
            Expr::List(l) => Expr::List(clone_exprs(l)),
            Expr::Tree(l) => Expr::Tree(clone_items(l)),
            Expr::If(c, t, e) => Expr::If(
                Box::new(c.clone_expr()),
                clone_actions(t),
                clone_actions(e),
            ),
            Expr::Call(f, a) => Expr::Call(Box::new(f.clone_expr()), clone_exprs(a)),
            Expr::ExprDef(p, e) => Expr::ExprDef(clone_strings(p), Box::new(e.clone_expr())),
            Expr::FuncDef(p, b) => Expr::FuncDef(clone_strings(p), clone_actions(b)),
        }
    }

    /// Whether two expressions are structurally equal.
    pub fn same(&self, other: &Expr) -> (r: bool)
        ensures
            r == (self@ == other@),
        decreases self, 0nat,
    {
        match (self, other) {
            (Expr::Bool(a), Expr::Bool(b)) => *a == *b,
            (Expr::Num(a), Expr::Num(b)) => *a == *b,
            (Expr::Str(a), Expr::Str(b)) => *a == *b,
            (Expr::Ident(a), Expr::Ident(b)) => *a == *b,
            (Expr::Oper(o, a, b), Expr::Oper(p, c, d)) => *o == *p && a.same(c) && b.same(d),
            (Expr::Bracket(a), Expr::Bracket(b)) => a.same(b),
            (Expr::Neg(a), Expr::Neg(b)) => a.same(b),
            (Expr::DotStart(a), Expr::DotStart(b)) => a.same(b),
            (Expr::Rooted(a), Expr::Rooted(b)) => a.same(b),
            (Expr::Deref(a), Expr::Deref(b)) => a.same(b),
            (Expr::List(a), Expr::List(b)) => same_exprs(a, b),
            (Expr::Tree(a), Expr::Tree(b)) => same_items(a, b),
            (Expr::If(c, t, e), Expr::If(c2, t2, e2)) => c.same(c2) && same_actions(t, t2)
                && same_actions(e, e2),
            (Expr::Call(f, a), Expr::Call(g, b)) => f.same(g) && same_exprs(a, b),
            (Expr::ExprDef(p, e), Expr::ExprDef(q, f)) => same_strings(p, q) && e.same(f),
            (Expr::FuncDef(p, b), Expr::FuncDef(q, c)) => same_strings(p, q) && same_actions(b, c),
            _ => false,
        }
    }
}

/// A copy of a list of expressions.
pub fn clone_exprs(l: &Vec<Expr>) -> (r: Vec<Expr>)
    ensures
        exprs_model(r@) == exprs_model(l@),
    decreases l, 1nat,
{
    let mut r: Vec<Expr> = Vec::new();
    let mut i: usize = 0;
    while i < l.len()
        invariant
            i <= l@.len(),
            r@.len() == i,
            forall|j: int| 0 <= j < i ==> (#[trigger] r@[j])@ == l@[j]@,
        decreases l@.len() - i,
    {
        r.push(l[i].clone_expr());
        i += 1;
    }
    assert(exprs_model(r@) =~= exprs_model(l@));
    r
}

/// A copy of a list of map entries.
pub fn clone_items(l: &Vec<MapItem>) -> (r: Vec<MapItem>)
    ensures
        items_model(r@) == items_model(l@),
    decreases l, 1nat,
{
    let mut r: Vec<MapItem> = Vec::new();
    let mut i: usize = 0;
    while i < l.len()
        invariant
            i <= l@.len(),
            r@.len() == i,
            forall|j: int|
                0 <= j < i ==> (#[trigger] r@[j]).v@ == l@[j].v@ && r@[j].k@ == l@[j].k@,
        decreases l@.len() - i,
    {
        r.push(MapItem { k: l[i].k.clone(), v: l[i].v.clone_expr() });
        i += 1;
    }
    assert(items_model(r@) =~= items_model(l@));
    r
}

/// Whether two lists of expressions are equal element by element.
pub fn same_exprs(a: &Vec<Expr>, b: &Vec<Expr>) -> (r: bool)
    ensures
        r == (exprs_model(a@) == exprs_model(b@)),
    decreases a, 1nat,
{
    if a.len() != b.len() {
        assert(exprs_model(a@).len() != exprs_model(b@).len());
        return false;
    }
    let mut i: usize = 0;
    while i < a.len()
        invariant
            i <= a@.len(),
            a@.len() == b@.len(),
            forall|j: int| 0 <= j < i ==> (#[trigger] a@[j])@ == b@[j]@,
        decreases a@.len() - i,
    {
        if !a[i].same(&b[i]) {
            assert(exprs_model(a@)[i as int] != exprs_model(b@)[i as int]);
            return false;
        }
        i += 1;
    }
    assert(exprs_model(a@) =~= exprs_model(b@));
    true
}

/// Whether two lists of map entries are equal element by element.
pub fn same_items(a: &Vec<MapItem>, b: &Vec<MapItem>) -> (r: bool)
    ensures
        r == (items_model(a@) == items_model(b@)),
    decreases a, 1nat,
{
    if a.len() != b.len() {
        assert(items_model(a@).len() != items_model(b@).len());
        return false;
    }
    let mut i: usize = 0;
    while i < a.len()
        invariant
            i <= a@.len(),
            a@.len() == b@.len(),
            forall|j: int|
                0 <= j < i ==> (#[trigger] a@[j]).v@ == b@[j].v@ && a@[j].k@ == b@[j].k@,
        decreases a@.len() - i,
    {
        if !(a[i].k == b[i].k && a[i].v.same(&b[i].v)) {
            assert(items_model(a@)[i as int] != items_model(b@)[i as int]);
            return false;
        }
        i += 1;
    }
    assert(items_model(a@) =~= items_model(b@));
    true
}

/// How tightly an operator binds its operands against the operator to
/// its right: the higher, the sooner it yields.
pub open spec fn op_rank(o: Op) -> int {
    match o {
        Op::Dot => 0,
        Op::Add => 10,
        Op::Sub => 9,
        Op::Mul => 8,
        Op::Div => 7,
        Op::Greater => 6,
        Op::Less => 5,
        Op::Equal => 4,
    }
}

/// The spelling of an operator.
pub open spec fn op_text(o: Op) -> Seq<char> {
    match o {
        Op::Dot => "."@,
        Op::Add => "+"@,
        Op::Sub => "-"@,
        Op::Mul => "*"@,
        Op::Div => "/"@,
        Op::Greater => ">"@,
        Op::Less => "<"@,
        Op::Equal => "=="@,
    }
}

/// What evaluating a binary operation leaves: the operands are evaluated,
/// the left one first, and the operator is applied to their values.
pub open spec fn binary_spec(o: Op, a: ExprView, b: ExprView, s: crate::scope::ScopeView) -> Eval {
    let x = eval_spec(a, s, MAX_DEPTH as nat);
    match x.res {
        Err(_) => x,
        Ok(xv) => {
            let y = eval_spec(b, x.scope, MAX_DEPTH as nat);
            match y.res {
                Err(er) => Eval { res: Err(er), scope: y.scope.drop_value(xv) },
                Ok(yv) => Eval {
                    res: apply_op(o, xv, yv, y.scope.arena).res,
                    scope: y.scope.with_arena(apply_op(o, xv, yv, y.scope.arena).arena),
                },
            }
        },
    }
}

impl Op {
    /// The rank of the operator.
    pub fn rank(&self) -> (r: i32)
        ensures
            r == op_rank(*self),
    {
        match self {
            Op::Dot => 0,
            Op::Add => 10,
            Op::Sub => 9,
            Op::Mul => 8,
            Op::Div => 7,
            Op::Greater => 6,
            Op::Less => 5,
            Op::Equal => 4,
        }
    }

    /// The spelling of the operator.
    pub fn to_str(&self) -> (r: &'static str)
        ensures
            r@ == op_text(*self),
    {
        match self {
            Op::Dot => ".",
            Op::Add => "+",
            Op::Sub => "-",
            Op::Mul => "*",
            Op::Div => "/",
            Op::Greater => ">",
            Op::Less => "<",
            Op::Equal => "==",
        }
    }

    /// Draws numbers for dice, then evaluates `a` and `b`, the left one
    /// first, and applies the operator to their values.
    pub fn eval(&self, a: &Expr, b: &Expr, sc: &mut Scope) -> (r: Result<Value, ActionError>)
        requires
            old(sc)@.wf(),
        ensures
            final(sc)@.wf(),
            exists|rolls: Seq<u64>|
                drawn(old(sc)@.rolls, rolls, DICE_POOL as nat) && (Eval { res: eval_view(r), scope: final(sc)@ }) == binary_spec(
                    *self,
                    a@,
                    b@,
                    #[trigger] old(sc)@.with_rolls(rolls),
                ),
            r is Ok ==> r->Ok_0@.wf(),
    {
        sc.draw_dice(DICE_POOL);
        let ghost start = sc@;
        assert(start == old(sc)@.with_rolls(start.rolls));
        let x = match eval_in(a, sc, MAX_DEPTH) {
            Ok(x) => x,
            Err(er) => {
                return Err(er);
            },
        };
        let y = match eval_in(b, sc, MAX_DEPTH) {
            Ok(y) => y,
            Err(er) => {
                sc.gm.drop(x);
                return Err(er);
            },
        };
        apply(*self, x, y, &mut sc.gm)
    }
}

/// The expression with `lf` and the operator `op` put to its left: they
/// go below every operator at the left edge whose rank is at least that
/// of `op`, and above the first whose rank is lower. A dot before a call
/// goes into the path of the function that is called.
pub open spec fn add_left_spec(e: ExprView, lf: ExprView, op: Op) -> ExprView
    decreases e,
{
    match e {
        ExprView::Oper(sop, sa, sb) => if op_rank(sop) >= op_rank(op) {
            ExprView::Oper(sop, Box::new(add_left_spec(*sa, lf, op)), sb)
        } else {
            ExprView::Oper(op, Box::new(lf), Box::new(e))
        },
        ExprView::Call(f, args) => if op == Op::Dot {
            ExprView::Call(Box::new(add_left_spec(*f, lf, op)), args)
        } else {
            ExprView::Oper(op, Box::new(lf), Box::new(e))
        },
        _ => ExprView::Oper(op, Box::new(lf), Box::new(e)),
    }
}

/// What running an expression as a statement leaves: a condition leaves
/// what its block leaves, with the word on returning; any other expression
/// leaves its value.
pub open spec fn eval_action_spec(e: ExprView, s: crate::scope::ScopeView) -> Ran {
    match e {
        ExprView::If(c, t, el) => {
            let r = eval_spec(*c, s, MAX_DEPTH as nat);
            match r.res {
                Err(er) => Ran { res: Err(er), scope: r.scope },
                Ok(ValueView::Bool(true)) => block_spec(t, r.scope, MAX_DEPTH as nat),
                Ok(ValueView::Bool(false)) => block_spec(el, r.scope, MAX_DEPTH as nat),
                Ok(v) => Ran {
                    res: Err(
                        crate::error::ActionErrorView::DoingErr("If only works on bool expr"@),
                    ),
                    scope: r.scope.drop_value(v),
                },
            }
        },
        _ => {
            let r = eval_spec(e, s, MAX_DEPTH as nat);
            Ran {
                res: match r.res {
                    Ok(v) => Ok((AcReturn::No, v)),
                    Err(er) => Err(er),
                },
                scope: r.scope,
            }
        },
    }
}

impl Expr {
    /// The negation of `e`.
    pub fn neg(e: Expr) -> (r: Self)
        ensures
            r@ == ExprView::Neg(Box::new(e@)),
    {
        Expr::Neg(Box::new(e))
    }

    /// Puts `lf` and the operator `op` to the left of the expression.
    pub fn add_left(self, lf: Expr, op: Op) -> (r: Self)
        ensures
            r@ == add_left_spec(self@, lf@, op),
        decreases self,
    {
        match self {
            Expr::Oper(sop, sa, sb) => {
                if sop.rank() >= op.rank() {
                    Expr::Oper(sop, Box::new((*sa).add_left(lf, op)), sb)
                } else {
                    Expr::Oper(op, Box::new(lf), Box::new(Expr::Oper(sop, sa, sb)))
                }
            },
            Expr::Call(f, args) => {
                if op == Op::Dot {
                    Expr::Call(Box::new((*f).add_left(lf, op)), args)
                } else {
                    Expr::Oper(op, Box::new(lf), Box::new(Expr::Call(f, args)))
                }
            },
            e => Expr::Oper(op, Box::new(lf), Box::new(e)),
        }
    }

    /// Draws numbers for dice, then evaluates the expression as a path.
    pub fn eval_path(&self, sc: &mut Scope) -> (r: Result<Proto, ActionError>)
        requires
            old(sc)@.wf(),
        ensures
            final(sc)@.wf(),
            exists|rolls: Seq<u64>|
                drawn(old(sc)@.rolls, rolls, DICE_POOL as nat) && (PathEval {
                    res: path_view(r),
                    scope: final(sc)@,
                }) == eval_path_spec(self@, #[trigger] old(sc)@.with_rolls(rolls), MAX_DEPTH as nat),
    {
        sc.draw_dice(DICE_POOL);
        let ghost start = sc@;
        assert(start == old(sc)@.with_rolls(start.rolls));
        let r = path_in(self, sc, MAX_DEPTH);
        assert((PathEval { res: path_view(r), scope: sc@ }) == eval_path_spec(
            self@,
            old(sc)@.with_rolls(start.rolls),
            MAX_DEPTH as nat,
        ));
        r
    }

    /// Draws numbers for dice, then evaluates the expression: the result
    /// is that of the expression with the numbers drawn at hand.
    pub fn eval(&self, sc: &mut Scope) -> (r: Result<Value, ActionError>)
        requires
            old(sc)@.wf(),
        ensures
            final(sc)@.wf(),
            exists|rolls: Seq<u64>|
                drawn(old(sc)@.rolls, rolls, DICE_POOL as nat) && (Eval { res: eval_view(r), scope: final(sc)@ }) == eval_spec(
                    self@,
                    #[trigger] old(sc)@.with_rolls(rolls),
                    MAX_DEPTH as nat,
                ),
            r is Ok ==> r->Ok_0@.wf(),
    {
        sc.draw_dice(DICE_POOL);
        let ghost start = sc@;
        assert(start == old(sc)@.with_rolls(start.rolls));
        let r = eval_in(self, sc, MAX_DEPTH);
        assert((Eval { res: eval_view(r), scope: sc@ }) == eval_spec(
            self@,
            old(sc)@.with_rolls(start.rolls),
            MAX_DEPTH as nat,
        ));
        r
    }

    /// Draws numbers for dice, then runs the expression as a statement.
    pub fn eval_action(&self, sc: &mut Scope) -> (r: Result<(AcReturn, Value), ActionError>)
        requires
            old(sc)@.wf(),
        ensures
            final(sc)@.wf(),
            exists|rolls: Seq<u64>|
                drawn(old(sc)@.rolls, rolls, DICE_POOL as nat) && (Ran { res: ran_view(r), scope: final(sc)@ }) == eval_action_spec(
                    self@,
                    #[trigger] old(sc)@.with_rolls(rolls),
                ),
    {
        sc.draw_dice(DICE_POOL);
        let ghost start = sc@;
        assert(start == old(sc)@.with_rolls(start.rolls));
        let r = match self {
            Expr::If(c, t, el) => match eval_in(c, sc, MAX_DEPTH) {
                Err(er) => Err(er),
                Ok(Value::Bool(true)) => block_in(t, sc, MAX_DEPTH),
                Ok(Value::Bool(false)) => block_in(el, sc, MAX_DEPTH),
                Ok(v) => {
                    sc.gm.drop(v);
                    Err(ActionError::new("If only works on bool expr"))
                },
            },
            _ => match eval_in(self, sc, MAX_DEPTH) {
                Ok(v) => Ok((AcReturn::No, v)),
                Err(er) => Err(er),
            },
        };
        assert((Ran { res: ran_view(r), scope: sc@ }) == eval_action_spec(
            self@,
            old(sc)@.with_rolls(start.rolls),
        ));
        r
    }
}

impl PartialEq for Expr {
    fn eq(&self, other: &Expr) -> (r: bool) {
        self.same(other)
    }
}

impl vstd::std_specs::cmp::PartialEqSpecImpl for Expr {
    open spec fn obeys_eq_spec() -> bool {
        true
    }

    open spec fn eq_spec(&self, other: &Expr) -> bool {
        self@ == other@
    }
}

impl core::str::FromStr for Expr {
    type Err = crate::error::LineError;

    fn from_str(s: &str) -> (r: Result<Expr, crate::error::LineError>) {
        match crate::parse::parse_expr_text(s) {
            Some(e) => Ok(e),
            None => Err(crate::error::LineError::new("Could not read expression", 0)),
        }
    }
}

impl Op {
    /// The operator that `s` spells, if it spells one.
    pub fn parse(s: &str) -> (r: Option<Op>)
        ensures
            r is Some ==> s@ == op_text(r->0),
            r is None ==> forall|o: Op| s@ != #[trigger] op_text(o),
    {
        if crate::text::str_is(s, "+") {
            Some(Op::Add)
        } else if crate::text::str_is(s, "-") {
            Some(Op::Sub)
        } else if crate::text::str_is(s, "/") {
            Some(Op::Div)
        } else if crate::text::str_is(s, "*") {
            Some(Op::Mul)
        } else if crate::text::str_is(s, ">") {
            Some(Op::Greater)
        } else if crate::text::str_is(s, "<") {
            Some(Op::Less)
        } else if crate::text::str_is(s, ".") {
            Some(Op::Dot)
        } else if crate::text::str_is(s, "==") {
            Some(Op::Equal)
        } else {
            None
        }
    }
}

} // verus!
