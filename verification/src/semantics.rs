//! The meaning of expressions and statements: what evaluating one leaves
//! in a context, written over the mathematical values of both.

use vstd::prelude::*;
use crate::action::{AcReturn, ActionView};
use crate::ecs_ish::{ArenaView, GenData};
use crate::error::ActionErrorView;
use crate::expr::{ExprView, MapItemView, Op};
use crate::proto::{NodeView, Proto, ProtoView};
use crate::scope::{Eval, ScopeView, fail};
use crate::tree::{TreeView, tree_get, tree_insert, tree_values};
use crate::value::{
    Outcome, ValueView, add_spec, div_spec, fits, mul_spec, neg_spec, strong_view, sub_spec,
    type_failure, value_eq, weak_view,
};

verus! {

/// The budget of an evaluation that starts at the top. Each call of a
/// function takes two units of what is left, for as long as it runs, so
/// that calls nest at most to half that depth.
pub const MAX_DEPTH: usize = 128;

/// What the evaluation of a path expression leaves.
pub struct PathEval {
    pub res: Result<ProtoView, ActionErrorView>,
    pub scope: ScopeView,
}

/// What a run of statements leaves: its value, with the word on whether
/// the enclosing function is to return.
pub struct Ran {
    pub res: Result<(AcReturn, ValueView), ActionErrorView>,
    pub scope: ScopeView,
}

/// What the evaluation of the elements of a list leaves.
pub struct Handles {
    pub res: Result<Seq<GenData>, ActionErrorView>,
    pub scope: ScopeView,
}

/// What the evaluation of the entries of a map leaves.
pub struct Entries {
    pub res: Result<TreeView, ActionErrorView>,
    pub scope: ScopeView,
}

/// What the evaluation of the arguments of a call leaves.
pub struct Many {
    pub res: Result<Seq<ValueView>, ActionErrorView>,
    pub scope: ScopeView,
}

/// The path made of the one segment `n`.
pub open spec fn node_path(n: NodeView) -> ProtoView {
    ProtoView { v: seq![n], dots: 0, derefs: 0, root: false }
}

/// The path made of the one name `s`.
pub open spec fn name_path(s: Seq<char>) -> ProtoView {
    node_path(NodeView::Str(s))
}

/// The path `p` one base further up.
pub open spec fn dotted(p: ProtoView) -> ProtoView {
    ProtoView {
        dots: if p.dots < usize::MAX {
            (p.dots + 1) as usize
        } else {
            p.dots
        },
        ..p
    }
}

/// The path `p` with one more dereference.
pub open spec fn dereffed(p: ProtoView) -> ProtoView {
    ProtoView {
        derefs: if p.derefs < usize::MAX {
            (p.derefs + 1) as usize
        } else {
            p.derefs
        },
        ..p
    }
}

/// The arena after the handles of each value of `vs` were given up, the
/// last value first.
pub open spec fn release_values(g: ArenaView, vs: Seq<ValueView>) -> ArenaView
    decreases vs.len(),
{
    if vs.len() == 0 {
        g
    } else {
        release_values(g.release(vs.last().handles()), vs.drop_last())
    }
}

impl ScopeView {
    /// The context after the handles of `v` were given up.
    pub open spec fn drop_value(self, v: ValueView) -> ScopeView {
        self.with_arena(self.arena.release(v.handles()))
    }

    /// The context after the handles of each value of `vs` were given up.
    pub open spec fn drop_values(self, vs: Seq<ValueView>) -> ScopeView {
        self.with_arena(release_values(self.arena, vs))
    }

    /// The context after `v` was written at the name `name` of the
    /// innermost frame; a write that fails leaves what it leaves.
    pub open spec fn bind(self, name: Seq<char>, v: ValueView) -> ScopeView {
        self.with_arena(self.set(name_path(name), v).arena)
    }
}

/// Whether `e` is read as a path wherever it stands.
pub open spec fn path_like(e: ExprView) -> bool {
    e is Ident || e is DotStart || e is Rooted || e is Deref || (e is Oper && e->Oper_0 == Op::Dot)
}

/// The place of an expression in the order by which evaluation ends.
pub open spec fn rank(e: ExprView) -> nat {
    if path_like(e) {
        3
    } else {
        1
    }
}

/// What a binary operator makes of two values. The four arithmetic
/// operators go by the rules of the values; the two relations compare two
/// numbers and fail on anything else; equality is structural. All of them
/// give up the handles of operands that do not go into the result.
pub open spec fn apply_op(o: Op, x: ValueView, y: ValueView, g: ArenaView) -> Outcome {
    match o {
        Op::Add => add_spec(x, y, g),
        Op::Sub => sub_spec(x, y, g),
        Op::Mul => mul_spec(x, y, g),
        Op::Div => div_spec(x, y, g),
        Op::Greater => match (x, y) {
            (ValueView::Num(a), ValueView::Num(b)) => Outcome {
                res: Ok(ValueView::Bool(a > b)),
                arena: g,
            },
            _ => type_failure("compare"@, x, y, g),
        },
        Op::Less => match (x, y) {
            (ValueView::Num(a), ValueView::Num(b)) => Outcome {
                res: Ok(ValueView::Bool(a < b)),
                arena: g,
            },
            _ => type_failure("compare"@, x, y, g),
        },
        Op::Equal => Outcome {
            res: Ok(ValueView::Bool(value_eq(x, y))),
            arena: g.release(x.handles()).release(y.handles()),
        },
        Op::Dot => Outcome {
            res: Err(ActionErrorView::DoingErr("Could not appy .= operation"@)),
            arena: g.release(x.handles()).release(y.handles()),
        },
    }
}

/// The face that a die of `sides` sides shows for the number `raw` that was
/// drawn for it.
pub open spec fn face(raw: u64, sides: int) -> int
    recommends
        sides > 0,
{
    raw as int % sides + 1
}

/// What rolling the dice `vs[i..]` leaves: the sum of `acc` and of their
/// faces, and the numbers that are still at hand. Each die takes the last
/// of the numbers that were drawn. Only a positive number names a die, and
/// without a number at hand no die is rolled.
pub open spec fn roll_all(vs: Seq<ValueView>, i: nat, rolls: Seq<u64>, acc: int) -> (
    Result<int, ActionErrorView>,
    Seq<u64>,
)
    decreases vs.len() - i,
{
    if i >= vs.len() {
        (Ok(acc), rolls)
    } else {
        match vs[i as int] {
            ValueView::Num(n) => if n > 0 {
                if rolls.len() == 0 {
                    (Err(ActionErrorView::DoingErr("no dice at hand"@)), rolls)
                } else if fits(acc + face(rolls.last(), n as int)) {
                    roll_all(vs, i + 1, rolls.drop_last(), acc + face(rolls.last(), n as int))
                } else {
                    (Err(ActionErrorView::DoingErr("Number overflow"@)), rolls.drop_last())
                }
            } else {
                (Err(ActionErrorView::DoingErr("d needs num sides"@)), rolls)
            },
            _ => (Err(ActionErrorView::DoingErr("d needs num sides"@)), rolls),
        }
    }
}

/// What the built-in `d` leaves: the sum of one roll for each argument.
pub open spec fn dice_spec(vs: Seq<ValueView>, s: ScopeView) -> Eval {
    let r = roll_all(vs, 0, s.rolls, 0);
    Eval {
        res: match r.0 {
            Ok(n) => Ok(ValueView::Num(n as isize)),
            Err(e) => Err(e),
        },
        scope: (ScopeView { rolls: r.1, ..s }).drop_values(vs),
    }
}

/// Which of its last two arguments the built-in `if` picks: the second of
/// three when the first is true or a positive number, else the third.
pub open spec fn if_pick(c: ValueView) -> int {
    match c {
        ValueView::Bool(true) => 1,
        ValueView::Num(n) => if n > 0 {
            1
        } else {
            2
        },
        _ => 2,
    }
}

/// What the built-in `if` leaves: the argument it picks; every other
/// argument is given up.
pub open spec fn if_spec(vs: Seq<ValueView>, s: ScopeView) -> Eval {
    if vs.len() < 3 {
        fail("if requires 3 params"@, s.drop_values(vs))
    } else {
        Eval {
            res: Ok(vs[if_pick(vs[0])]),
            scope: s.drop_values(vs.remove(if_pick(vs[0]))),
        }
    }
}

/// The context after the file `name` was noted as one to load, to be run
/// in `target` where there is one, and the arguments were given up.
pub open spec fn noted(name: Seq<char>, target: Option<GenData>, vs: Seq<ValueView>, s: ScopeView) -> Eval {
    Eval {
        res: Ok(ValueView::Null),
        scope: (ScopeView {
            loads: s.loads.push(crate::scope::LoadView { name: name, target: target }),
            ..s
        }).drop_values(vs),
    }
}

/// What the built-in `load` leaves: the file named by its first argument
/// joins the files that wait to be loaded. A second argument must be an
/// indirection, and names the slot that the file is to be run in. With any
/// other argument nothing is noted.
pub open spec fn load_spec(vs: Seq<ValueView>, s: ScopeView) -> Eval {
    if vs.len() == 0 {
        fail("load needs a file name"@, s)
    } else {
        match vs[0] {
            ValueView::Str(f) => if vs.len() == 1 {
                noted(f, None, vs, s)
            } else {
                match vs[1] {
                    ValueView::Ref(h) => noted(f, Some(crate::value::weak(h)), vs, s),
                    _ => fail("target should be proto"@, s.drop_values(vs)),
                }
            },
            _ => fail("filename should be string"@, s.drop_values(vs)),
        }
    }
}

/// What the built-in `link` leaves for values: its first argument, which
/// must be an indirection; the other arguments are given up.
pub open spec fn link_values_spec(vs: Seq<ValueView>, s: ScopeView) -> Eval {
    if vs.len() > 0 && vs[0] is Ref {
        Eval { res: Ok(vs[0]), scope: s.drop_values(vs.remove(0)) }
    } else {
        fail("can only link on protos"@, s.drop_values(vs))
    }
}

/// What the built-in `link` leaves for the path `p`: an indirection to the
/// slot that `p` names, owning it where it can be counted once more.
pub open spec fn link_spec(p: ProtoView, s: ScopeView) -> Eval {
    match s.find(p) {
        None => fail("can only link on protos"@, s),
        Some(h) => Eval {
            res: Ok(ValueView::Ref(GenData { strong: s.arena.can_upgrade(h), ..h })),
            scope: s.with_arena(s.arena.upgrade(h)),
        },
    }
}

/// Whether `name` is the name of a built-in function.
pub open spec fn is_builtin(name: Seq<char>) -> bool {
    name == "d"@ || name == "if"@ || name == "load"@ || name == "link"@ || name == "foreach"@
        || name == "fold"@
}

/// The context after the arguments `args[i..]` were bound to the names
/// `params[i..]` in the innermost frame, one by one. An argument without a
/// name is given up; a name without an argument stays unbound.
pub open spec fn bind_args(params: Seq<Seq<char>>, args: Seq<ValueView>, i: nat, s: ScopeView) -> ScopeView
    decreases args.len() - i,
{
    if i >= args.len() {
        s
    } else if i < params.len() {
        bind_args(params, args, i + 1, s.bind(params[i as int], args[i as int]))
    } else {
        bind_args(params, args, i + 1, s.drop_value(args[i as int]))
    }
}

/// How many rounds an iteration over `src` makes: one for each element of
/// a list, or as many as a number says.
pub open spec fn rounds(src: ValueView) -> nat {
    match src {
        ValueView::List(l) => if l.len() <= isize::MAX {
            l.len()
        } else {
            isize::MAX as nat
        },
        ValueView::Num(n) => if n > 0 {
            n as nat
        } else {
            0
        },
        _ => 0,
    }
}

/// The context of round `i` of an iteration over `src` with its value: a
/// copy of the element of a list that owns what its handles name (nothing,
/// where the element is gone), or the number of the round.
pub open spec fn round_value(src: ValueView, i: nat, s: ScopeView) -> Eval {
    match src {
        ValueView::List(l) => match s.arena.get(l[i as int]) {
            Some(v) => Eval {
                res: Ok(strong_view(weak_view(v), s.arena).0),
                scope: s.with_arena(strong_view(weak_view(v), s.arena).1),
            },
            None => Eval { res: Ok(ValueView::Null), scope: s },
        },
        _ => Eval { res: Ok(ValueView::Num(i as isize)), scope: s },
    }
}

/// The context after the key and the value of a round were bound: to `k`
/// and `v` where the function names no parameter; the value alone to the
/// one parameter; key and value to the first two of more.
pub open spec fn bind_round(params: Seq<Seq<char>>, key: ValueView, val: ValueView, s: ScopeView) -> ScopeView {
    if params.len() == 0 {
        s.bind("k"@, key).bind("v"@, val)
    } else if params.len() == 1 {
        s.bind(params[0], val)
    } else {
        s.bind(params[0], key).bind(params[1], val)
    }
}

/// What evaluating the path expression `e` leaves: the path that it
/// spells. A name or a string is one name segment and a number one index;
/// a leading dot, colon or dollar sets the metadata; a dot between two
/// paths joins their segments under the metadata of the left one. Any
/// other expression is evaluated, and its value must make a segment.
pub open spec fn eval_path_spec(e: ExprView, s: ScopeView, fuel: nat) -> PathEval
    decreases fuel, e, 2nat,
{
    match e {
        ExprView::Num(n) => PathEval {
            res: Ok(node_path(NodeView::Num(vstd::math::abs(n) as usize))),
            scope: s,
        },
        ExprView::Str(x) => PathEval { res: Ok(name_path(x)), scope: s },
        ExprView::Ident(x) => PathEval { res: Ok(name_path(x)), scope: s },
        ExprView::Rooted(a) => {
            let r = eval_path_spec(*a, s, fuel);
            match r.res {
                Ok(p) => PathEval { res: Ok(ProtoView { root: true, ..p }), scope: r.scope },
                Err(_) => r,
            }
        },
        ExprView::Deref(a) => {
            let r = eval_path_spec(*a, s, fuel);
            match r.res {
                Ok(p) => PathEval { res: Ok(dereffed(p)), scope: r.scope },
                Err(_) => r,
            }
        },
        ExprView::DotStart(a) => {
            let r = eval_path_spec(*a, s, fuel);
            match r.res {
                Ok(p) => PathEval { res: Ok(dotted(p)), scope: r.scope },
                Err(_) => r,
            }
        },
        ExprView::Oper(o, a, b) => if o == Op::Dot {
            let ra = eval_path_spec(*a, s, fuel);
            match ra.res {
                Err(_) => ra,
                Ok(pa) => {
                    let rb = eval_path_spec(*b, ra.scope, fuel);
                    match rb.res {
                        Err(_) => rb,
                        Ok(pb) => PathEval {
                            res: Ok(ProtoView { v: pa.v + pb.v, ..pa }),
                            scope: rb.scope,
                        },
                    }
                },
            }
        } else {
            value_path(eval_spec(e, s, fuel))
        },
        _ => value_path(eval_spec(e, s, fuel)),
    }
}

/// The path of the one segment that an evaluated value makes.
pub open spec fn value_path(r: Eval) -> PathEval {
    match r.res {
        Err(e) => PathEval { res: Err(e), scope: r.scope },
        Ok(v) => match Proto::node_of_view(v) {
            Some(n) => PathEval { res: Ok(node_path(n)), scope: r.scope },
            None => PathEval {
                res: Err(ActionErrorView::DoingErr("Could not treat as proto"@)),
                scope: r.scope.drop_value(v),
            },
        },
    }
}

/// The value of a run of statements, without the word on returning.
pub open spec fn ran_value(r: Ran) -> Eval {
    Eval {
        res: match r.res {
            Ok(x) => Ok(x.1),
            Err(e) => Err(e),
        },
        scope: r.scope,
    }
}

/// What evaluating the elements `l[i..]` of a list leaves: each value is
/// stored, and its handle joins `acc`. When one fails the handles gathered
/// so far are given up.
pub open spec fn eval_items_spec(l: Seq<ExprView>, i: nat, acc: Seq<GenData>, s: ScopeView, fuel: nat) -> Handles
    decreases fuel, l, l.len() - i,
{
    if i >= l.len() {
        Handles { res: Ok(acc), scope: s }
    } else {
        let r = eval_spec(l[i as int], s, fuel);
        match r.res {
            Err(e) => Handles { res: Err(e), scope: r.scope.with_arena(r.scope.arena.release(acc)) },
            Ok(v) => eval_items_spec(
                l,
                i + 1,
                acc.push(r.scope.arena.push_handle()),
                r.scope.with_arena(r.scope.arena.push(v)),
                fuel,
            ),
        }
    }
}

/// What evaluating the entries `l[i..]` of a map leaves: each value is
/// stored and bound to its key in `acc`; a handle bound to the key before
/// is given up. When one fails the handles bound so far are given up.
pub open spec fn eval_entries_spec(l: Seq<MapItemView>, i: nat, acc: TreeView, s: ScopeView, fuel: nat) -> Entries
    decreases fuel, l, l.len() - i,
{
    if i >= l.len() {
        Entries { res: Ok(acc), scope: s }
    } else {
        let r = eval_spec(l[i as int].v, s, fuel);
        match r.res {
            Err(e) => Entries {
                res: Err(e),
                scope: r.scope.with_arena(r.scope.arena.release(tree_values(acc))),
            },
            Ok(v) => {
                let k = NodeView::Str(l[i as int].k);
                let g = r.scope.arena.push(v);
                let g2 = match tree_get(acc, k) {
                    Some(d) => g.release(seq![d]),
                    None => g,
                };
                eval_entries_spec(
                    l,
                    i + 1,
                    tree_insert(acc, k, r.scope.arena.push_handle()),
                    r.scope.with_arena(g2),
                    fuel,
                )
            },
        }
    }
}

/// What evaluating the arguments `l[i..]` of a call leaves: their values
/// after those of `acc`. When one fails the values gathered so far are
/// given up.
pub open spec fn eval_args_spec(l: Seq<ExprView>, i: nat, acc: Seq<ValueView>, s: ScopeView, fuel: nat) -> Many
    decreases fuel, l, l.len() - i,
{
    if i >= l.len() {
        Many { res: Ok(acc), scope: s }
    } else {
        let r = eval_spec(l[i as int], s, fuel);
        match r.res {
            Err(e) => Many { res: Err(e), scope: r.scope.drop_values(acc) },
            Ok(v) => eval_args_spec(l, i + 1, acc.push(v), r.scope, fuel),
        }
    }
}

/// What evaluating the expression `e` leaves. Literals are their values.
/// A path is read. An operator is applied to the values of its operands,
/// the left one first. The elements of a list and the entries of a map are
/// stored in the arena. A condition runs one of its two blocks in a frame
/// of its own. A definition is the function or expression that it writes.
pub open spec fn eval_spec(e: ExprView, s: ScopeView, fuel: nat) -> Eval
    decreases fuel, e, rank(e),
{
    match e {
        ExprView::Bool(b) => Eval { res: Ok(ValueView::Bool(b)), scope: s },
        ExprView::Num(n) => Eval { res: Ok(ValueView::Num(n as isize)), scope: s },
        ExprView::Str(x) => Eval { res: Ok(ValueView::Str(x)), scope: s },
        ExprView::Bracket(a) => eval_spec(*a, s, fuel),
        ExprView::Neg(a) => {
            let r = eval_spec(*a, s, fuel);
            match r.res {
                Err(_) => r,
                Ok(v) => Eval {
                    res: neg_spec(v, r.scope.arena).res,
                    scope: r.scope.with_arena(neg_spec(v, r.scope.arena).arena),
                },
            }
        },
        ExprView::Ident(_) | ExprView::DotStart(_) | ExprView::Rooted(_) | ExprView::Deref(_) => {
            let p = eval_path_spec(e, s, fuel);
            match p.res {
                Err(er) => Eval { res: Err(er), scope: p.scope },
                Ok(pv) => p.scope.read(pv),
            }
        },
        ExprView::Oper(o, a, b) => if o == Op::Dot {
            let p = eval_path_spec(e, s, fuel);
            match p.res {
                Err(er) => Eval { res: Err(er), scope: p.scope },
                Ok(pv) => p.scope.read(pv),
            }
        } else {
            let x = eval_spec(*a, s, fuel);
            match x.res {
                Err(_) => x,
                Ok(xv) => {
                    let y = eval_spec(*b, x.scope, fuel);
                    match y.res {
                        Err(er) => Eval { res: Err(er), scope: y.scope.drop_value(xv) },
                        Ok(yv) => Eval {
                            res: apply_op(o, xv, yv, y.scope.arena).res,
                            scope: y.scope.with_arena(apply_op(o, xv, yv, y.scope.arena).arena),
                        },
                    }
                },
            }
        },
        ExprView::List(l) => {
            let r = eval_items_spec(l, 0, Seq::empty(), s, fuel);
            Eval {
                res: match r.res {
                    Ok(hs) => Ok(ValueView::List(hs)),
                    Err(er) => Err(er),
                },
                scope: r.scope,
            }
        },
        ExprView::Tree(l) => {
            let r = eval_entries_spec(l, 0, Seq::empty(), s, fuel);
            Eval {
                res: match r.res {
                    Ok(t) => Ok(ValueView::Tree(t)),
                    Err(er) => Err(er),
                },
                scope: r.scope,
            }
        },
        ExprView::If(c, t, el) => {
            let r = eval_spec(*c, s, fuel);
            match r.res {
                Err(_) => r,
                Ok(ValueView::Bool(true)) => ran_value(block_spec(t, r.scope, fuel)),
                Ok(ValueView::Bool(false)) => ran_value(block_spec(el, r.scope, fuel)),
                Ok(v) => fail("If only works on bool expr"@, r.scope.drop_value(v)),
            }
        },
        ExprView::Call(_, _) => call_spec(e, s, fuel),
        ExprView::ExprDef(p, b) => Eval { res: Ok(ValueView::ExprDef(p, *b)), scope: s },
        ExprView::FuncDef(p, b) => Eval { res: Ok(ValueView::FuncDef(p, b)), scope: s },
    }
}

/// What the call `e` leaves. The name of a built-in function is taken
/// before any lookup. Any other path must name a function, which is run on
/// the values of the arguments, or a stored expression, which is evaluated
/// in a frame of its own.
pub open spec fn call_spec(e: ExprView, s: ScopeView, fuel: nat) -> Eval
    decreases fuel, e, 0nat,
{
    match e {
        ExprView::Call(f, args) => {
            let p = eval_path_spec(*f, s, fuel);
            match p.res {
                Err(er) => Eval { res: Err(er), scope: p.scope },
                Ok(pv) => if Proto::api_name(pv) == Some("link"@) {
                    link_call_spec(args, p.scope, fuel)
                } else {
                    plain_call_spec(pv, args, p.scope, fuel)
                },
            }
        },
        _ => fail("not a function"@, s),
    }
}

/// What a call of the built-in `link` leaves: its first argument is read as
/// a path, not as a value.
pub open spec fn link_call_spec(args: Seq<ExprView>, s: ScopeView, fuel: nat) -> Eval
    decreases fuel, args, 0nat,
{
    if args.len() == 0 {
        fail("can only link on protos"@, s)
    } else {
        let t = eval_path_spec(args[0], s, fuel);
        match t.res {
            Err(er) => Eval { res: Err(er), scope: t.scope },
            Ok(tv) => link_spec(tv, t.scope),
        }
    }
}

/// What a call of anything but `link` leaves: the arguments are evaluated,
/// first to last, and what the path names is called on their values. The
/// call takes two units of the budget that is left.
pub open spec fn plain_call_spec(p: ProtoView, args: Seq<ExprView>, s: ScopeView, fuel: nat) -> Eval
    decreases fuel, args, args.len() + 1,
{
    let a = eval_args_spec(args, 0, Seq::empty(), s, fuel);
    match a.res {
        Err(er) => Eval { res: Err(er), scope: a.scope },
        Ok(vs) => if fuel < 2 {
            fail("recursion too deep"@, a.scope.drop_values(vs))
        } else {
            invoke_spec(p, vs, a.scope, (fuel - 1) as nat)
        },
    }
}

/// What calling what the path `p` names on the values `vs` leaves: a
/// built-in function by its name, or else the function or the stored
/// expression that the path leads to.
pub open spec fn invoke_spec(p: ProtoView, vs: Seq<ValueView>, s: ScopeView, fuel: nat) -> Eval
    decreases fuel, vs, 1nat,
{
    if Proto::api_name(p) is Some && is_builtin(Proto::api_name(p)->0) {
        builtin_spec(Proto::api_name(p)->0, vs, s, fuel)
    } else if fuel == 0 {
        fail("recursion too deep"@, s.drop_values(vs))
    } else {
        match s.get(p) {
            Some(ValueView::FuncDef(params, body)) => method_spec(
                p,
                params,
                body,
                vs,
                s,
                (fuel - 1) as nat,
            ),
            Some(ValueView::ExprDef(_, ex)) => {
                let r = eval_spec(ex, s.drop_values(vs).push_frame(), (fuel - 1) as nat);
                Eval { res: r.res, scope: r.scope.pop_frame() }
            },
            _ => fail("not a function"@, s.drop_values(vs)),
        }
    }
}

/// What a built-in function leaves for the values `vs`. A call in the
/// language reads the argument of `link` as a path instead.
pub open spec fn builtin_spec(name: Seq<char>, vs: Seq<ValueView>, s: ScopeView, fuel: nat) -> Eval
    decreases fuel, vs, 0nat,
{
    if name == "d"@ {
        dice_spec(vs, s)
    } else if name == "if"@ {
        if_spec(vs, s)
    } else if name == "load"@ {
        load_spec(vs, s)
    } else if name == "link"@ {
        link_values_spec(vs, s)
    } else if name == "foreach"@ {
        if vs.len() != 2 {
            fail("FoldEach requires at least 2 params"@, s.drop_values(vs))
        } else {
            iterate_spec(None, vs[0], vs[1], s, fuel)
        }
    } else if name == "fold"@ {
        if vs.len() != 3 {
            fail("Fold requires 3 params : foldvar,iterble,func"@, s.drop_values(vs))
        } else {
            iterate_spec(Some(vs[0]), vs[1], vs[2], s, fuel)
        }
    } else {
        fail("can only link on protos"@, s.drop_values(vs))
    }
}

/// The context after an iteration could not start: what it was given is
/// given up.
pub open spec fn drop_iteration(seed: Option<ValueView>, src: ValueView, func: ValueView, s: ScopeView) -> ScopeView {
    let s1 = s.drop_value(func).drop_value(src);
    match seed {
        Some(v) => s1.drop_value(v),
        None => s1,
    }
}

/// What an iteration leaves. The function `func` is run once for each
/// element of the list `src`, or as many times as the number `src` says,
/// in one frame of its own. The accumulator `fold` of that frame starts
/// as `seed`, where there is one, and takes every value but nothing that a
/// round returns. The iteration leaves the accumulator, or nothing where
/// it was never set.
pub open spec fn iterate_spec(seed: Option<ValueView>, src: ValueView, func: ValueView, s: ScopeView, fuel: nat) -> Eval
    decreases fuel, func, 0nat,
{
    if !(func is FuncDef) {
        fail("foreach needs a function"@, drop_iteration(seed, src, func, s))
    } else if !(src is List || src is Num) {
        fail("Must be list for iterator right now"@, drop_iteration(seed, src, func, s))
    } else if fuel == 0 {
        fail("recursion too deep"@, drop_iteration(seed, src, func, s))
    } else {
        let s1 = s.push_frame();
        let s2 = match seed {
            Some(v) => s1.bind("fold"@, v),
            None => s1,
        };
        let r = rounds_spec(src, 0, func->FuncDef_0, func->FuncDef_1, s2, (fuel - 1) as nat);
        match r.res {
            Err(er) => Eval { res: Err(er), scope: r.scope.pop_frame().drop_value(src) },
            Ok(_) => {
                let acc = r.scope.read(name_path("fold"@));
                Eval {
                    res: match acc.res {
                        Ok(v) => Ok(v),
                        Err(_) => Ok(ValueView::Null),
                    },
                    scope: acc.scope.pop_frame().drop_value(src),
                }
            },
        }
    }
}

/// What the rounds `i..` of an iteration leave.
pub open spec fn rounds_spec(src: ValueView, i: nat, params: Seq<Seq<char>>, body: Seq<ActionView>, s: ScopeView, fuel: nat) -> Eval
    decreases fuel, body, body.len() + 1 + rounds(src) - i,
{
    if i >= rounds(src) {
        Eval { res: Ok(ValueView::Null), scope: s }
    } else {
        let val = round_value(src, i, s);
        let s1 = bind_round(params, ValueView::Num(i as isize), val.res->Ok_0, val.scope);
        let r = actions_spec(body, 0, s1, fuel);
        match r.res {
            Err(er) => Eval { res: Err(er), scope: r.scope },
            Ok(x) => rounds_spec(
                src,
                i + 1,
                params,
                body,
                if x.1 is Null {
                    r.scope
                } else {
                    r.scope.bind("fold"@, x.1)
                },
                fuel,
            ),
        }
    }
}

/// What running the function with the parameters `params` and the body
/// `body` on the arguments `args` leaves: the arguments are bound in a new
/// frame, the body is run there, and the frame is left whatever came of it.
pub open spec fn run_func_spec(params: Seq<Seq<char>>, body: Seq<ActionView>, args: Seq<ValueView>, s: ScopeView, fuel: nat) -> Eval
    decreases fuel, body, body.len() + 2,
{
    let r = actions_spec(body, 0, bind_args(params, args, 0, s.push_frame()), fuel);
    Eval { res: ran_value(r).res, scope: r.scope.pop_frame() }
}

/// The path without its last segment: that of the value that a function
/// at the path belongs to.
pub open spec fn receiver_path(p: ProtoView) -> ProtoView {
    ProtoView {
        v: if p.v.len() > 0 {
            p.v.drop_last()
        } else {
            p.v
        },
        ..p
    }
}

/// What running the function found at the path `p` on the arguments
/// `args` leaves. It is run like any function, in a frame that also binds
/// `self` to an indirection to the value that the function belongs to,
/// which is what the path without its last segment names in the context of
/// the call.
pub open spec fn method_spec(p: ProtoView, params: Seq<Seq<char>>, body: Seq<ActionView>, args: Seq<ValueView>, s: ScopeView, fuel: nat) -> Eval
    decreases fuel, body, body.len() + 2,
{
    let recv = link_spec(receiver_path(p), s);
    let s1 = bind_args(params, args, 0, recv.scope.push_frame());
    let s2 = match recv.res {
        Ok(v) => s1.bind("self"@, v),
        Err(_) => s1,
    };
    let r = actions_spec(body, 0, s2, fuel);
    Eval { res: ran_value(r).res, scope: r.scope.pop_frame() }
}

/// What running the statements `acts` in a frame of their own leaves.
pub open spec fn block_spec(acts: Seq<ActionView>, s: ScopeView, fuel: nat) -> Ran
    decreases fuel, acts, acts.len() + 1,
{
    let r = actions_spec(acts, 0, s.push_frame(), fuel);
    Ran { res: r.res, scope: r.scope.pop_frame() }
}

/// What running the statements `acts[i..]` leaves. A statement that
/// resolves or returns a value ends the run with that value; the value of
/// any other statement is given up. A run that reaches its end leaves
/// nothing.
pub open spec fn actions_spec(acts: Seq<ActionView>, i: nat, s: ScopeView, fuel: nat) -> Ran
    decreases fuel, acts, acts.len() - i,
{
    if i >= acts.len() {
        Ran { res: Ok((AcReturn::No, ValueView::Null)), scope: s }
    } else {
        let r = action_spec(acts[i as int], s, fuel);
        match r.res {
            Err(e) => Ran { res: Err(e), scope: r.scope },
            Ok(v) => match acts[i as int] {
                ActionView::Resolve(_) => Ran { res: Ok((AcReturn::No, v)), scope: r.scope },
                ActionView::Return(_) => Ran { res: Ok((AcReturn::Func, v)), scope: r.scope },
                _ => actions_spec(acts, i + 1, r.scope.drop_value(v), fuel),
            },
        }
    }
}

/// What writing an evaluated value at an evaluated path leaves.
pub open spec fn assign(s: ScopeView, p: ProtoView, v: ValueView) -> Eval {
    Eval {
        res: match s.set(p, v).res {
            Ok(_) => Ok(ValueView::Null),
            Err(e) => Err(e),
        },
        scope: s.with_arena(s.set(p, v).arena),
    }
}

/// What selecting the path `p` leaves, after an empty map was written there
/// if the path named nothing.
pub open spec fn select_or_make(s: ScopeView, p: ProtoView) -> Eval {
    if s.find(p) is None {
        let w = assign(s, p, ValueView::Tree(Seq::empty()));
        match w.res {
            Err(_) => w,
            Ok(_) => w.scope.select(p),
        }
    } else {
        s.select(p)
    }
}

/// What running the statement `a` leaves.
pub open spec fn action_spec(a: ActionView, s: ScopeView, fuel: nat) -> Eval
    decreases fuel, a, 0nat,
{
    match a {
        ActionView::NoOp => Eval { res: Ok(ValueView::Null), scope: s },
        ActionView::Assign(pe, ve) => {
            let p = eval_path_spec(pe, s, fuel);
            match p.res {
                Err(er) => Eval { res: Err(er), scope: p.scope },
                Ok(pv) => {
                    let v = eval_spec(ve, p.scope, fuel);
                    match v.res {
                        Err(_) => v,
                        Ok(vv) => assign(v.scope, pv, vv),
                    }
                },
            }
        },
        ActionView::Resolve(e) => eval_spec(e, s, fuel),
        ActionView::Return(e) => eval_spec(e, s, fuel),
        ActionView::Select(pe) => {
            let p = eval_path_spec(pe, s, fuel);
            match p.res {
                Err(er) => Eval { res: Err(er), scope: p.scope },
                Ok(pv) => select_or_make(p.scope, pv),
            }
        },
        ActionView::SetSelect(pe, ve) => {
            let p = eval_path_spec(pe, s, fuel);
            match p.res {
                Err(er) => Eval { res: Err(er), scope: p.scope },
                Ok(pv) => {
                    let v = eval_spec(ve, p.scope, fuel);
                    match v.res {
                        Err(_) => v,
                        Ok(vv) => {
                            let w = assign(v.scope, pv, vv);
                            match w.res {
                                Err(_) => w,
                                Ok(_) => select_or_make(w.scope, pv),
                            }
                        },
                    }
                },
            }
        },
        ActionView::AddItem(n, id) => s.bump(n, id),
        ActionView::RemItem(n, id) => if fits(-n) {
            s.bump(-n, id)
        } else {
            fail("Number overflow"@, s)
        },
        ActionView::OpSet(o, lf, rt) => {
            let p = eval_path_spec(lf, s, fuel);
            match p.res {
                Err(er) => Eval { res: Err(er), scope: p.scope },
                Ok(pv) => if (o == Op::Add || o == Op::Sub) && p.scope.target(pv) is Err {
                    let v = eval_spec(rt, p.scope, fuel);
                    match v.res {
                        Err(_) => v,
                        Ok(vv) => if o == Op::Sub {
                            let n = neg_spec(vv, v.scope.arena);
                            match n.res {
                                Err(er) => Eval { res: Err(er), scope: v.scope.with_arena(n.arena) },
                                Ok(nv) => assign(v.scope.with_arena(n.arena), pv, nv),
                            }
                        } else {
                            assign(v.scope, pv, vv)
                        },
                    }
                } else {
                    let x = p.scope.read(pv);
                    match x.res {
                        Err(_) => x,
                        Ok(xv) => {
                            let y = eval_spec(rt, x.scope, fuel);
                            match y.res {
                                Err(er) => Eval { res: Err(er), scope: y.scope.drop_value(xv) },
                                Ok(yv) => {
                                    let r = apply_op(o, xv, yv, y.scope.arena);
                                    match r.res {
                                        Err(er) => Eval {
                                            res: Err(er),
                                            scope: y.scope.with_arena(r.arena),
                                        },
                                        Ok(rv) => assign(y.scope.with_arena(r.arena), pv, rv),
                                    }
                                },
                            }
                        },
                    }
                },
            }
        },
    }
}

/// What running statements for a user leaves: the lines to show, and the
/// context.
pub struct Shown {
    pub lines: Seq<Seq<char>>,
    pub scope: ScopeView,
}

/// The lines after the outcome `r` of one statement was shown after
/// `out`: the text of a value other than nothing, or the report of an
/// error.
pub open spec fn shown_after(r: Eval, out: Seq<Seq<char>>) -> Seq<Seq<char>> {
    match r.res {
        Ok(ValueView::Null) => out,
        Ok(v) => out.push(
            crate::print::value_text(v, 0, r.scope.arena, crate::print::MAX_PRINT_DEPTH as nat),
        ),
        Err(e) => out.push("Error "@ + e.text()),
    }
}

/// The context after the outcome `r` of one statement was shown: a value
/// shown is given up.
pub open spec fn after_shown(r: Eval) -> ScopeView {
    match r.res {
        Ok(v) => r.scope.drop_value(v),
        Err(_) => r.scope,
    }
}

/// What running one statement for a user leaves, after the lines `out`: the
/// statement is run by itself; a value other than nothing is shown as its
/// text and then given up; an error is shown as its report.
#[verifier::opaque]
pub open spec fn show_one(a: ActionView, s: ScopeView, out: Seq<Seq<char>>) -> Shown {
    Shown {
        lines: shown_after(action_spec(a, s, MAX_DEPTH as nat), out),
        scope: after_shown(action_spec(a, s, MAX_DEPTH as nat)),
    }
}

/// Whether the numbers `after` are what drawing for dice leaves of the
/// numbers `before`: the numbers that were at hand, below new ones, and at
/// least `n` in all.
pub open spec fn drawn(before: Seq<u64>, after: Seq<u64>, n: nat) -> bool {
    after.len() >= n && after.len() >= before.len() && after.subrange(0, before.len() as int)
        == before
}

/// What running the statements of `acts` from `from` on for a user
/// leaves, one for each element of `pools`: before a statement is run, the
/// numbers at hand for dice become those of its element of `pools`.
#[verifier::opaque]
pub open spec fn ran_lines(acts: Seq<ActionView>, from: nat, pools: Seq<Seq<u64>>, s: ScopeView) -> Shown
    decreases pools.len(),
{
    if pools.len() == 0 || from + pools.len() > acts.len() {
        Shown { lines: Seq::empty(), scope: s }
    } else {
        let before = ran_lines(acts, from, pools.drop_last(), s);
        show_one(
            acts[from + pools.len() - 1],
            before.scope.with_rolls(pools.last()),
            before.lines,
        )
    }
}

/// Whether each element of `pools` is what drawing for dice leaves of the
/// numbers that were at hand before its statement, in the run that
/// `ran_lines` describes.
#[verifier::opaque]
pub open spec fn pools_drawn(acts: Seq<ActionView>, from: nat, pools: Seq<Seq<u64>>, s: ScopeView) -> bool
    decreases pools.len(),
{
    pools.len() == 0 || (pools_drawn(acts, from, pools.drop_last(), s) && drawn(
        ran_lines(acts, from, pools.drop_last(), s).scope.rolls,
        pools.last(),
        crate::scope::DICE_POOL as nat,
    ))
}

/// Whether the lines `lines` and the context `fin` are what running all
/// statements of `acts` for a user from the context `start` leaves, for
/// some numbers that were drawn for dice before each statement.
pub open spec fn shown(acts: Seq<ActionView>, lines: Seq<Seq<char>>, fin: ScopeView, start: ScopeView) -> bool {
    exists|pools: Seq<Seq<u64>>|
        pools.len() == acts.len() && #[trigger] pools_drawn(acts, 0, pools, start) && (Shown {
            lines: lines,
            scope: fin,
        }) == ran_lines(acts, 0, pools, start)
}

/// What running the statements of `acts` from `from` on for a user
/// leaves, one for each element of `pools`, when the run stops behind the
/// first statement after which a file waits to be loaded: the first
/// statement is run in any case, and each further one only while no file
/// waits. Before a statement is run, the numbers at hand for dice become
/// those of its element of `pools`.
#[verifier::opaque]
pub open spec fn ran_some(acts: Seq<ActionView>, from: nat, pools: Seq<Seq<u64>>, s: ScopeView) -> Shown
    decreases pools.len(),
{
    if pools.len() == 0 || from + pools.len() > acts.len() {
        Shown { lines: Seq::empty(), scope: s }
    } else {
        let before = ran_some(acts, from, pools.drop_last(), s);
        if pools.len() > 1 && before.scope.loads.len() > 0 {
            before
        } else {
            show_one(
                acts[from + pools.len() - 1],
                before.scope.with_rolls(pools.last()),
                before.lines,
            )
        }
    }
}

/// Whether each element of `pools` is what drawing for dice leaves of the
/// numbers that were at hand before its statement, in the run that
/// `ran_some` describes.
#[verifier::opaque]
pub open spec fn some_drawn(acts: Seq<ActionView>, from: nat, pools: Seq<Seq<u64>>, s: ScopeView) -> bool
    decreases pools.len(),
{
    pools.len() == 0 || (some_drawn(acts, from, pools.drop_last(), s) && drawn(
        ran_some(acts, from, pools.drop_last(), s).scope.rolls,
        pools.last(),
        crate::scope::DICE_POOL as nat,
    ))
}

/// Whether the lines `lines`, the context `fin` and the index `next` are
/// what running the statements of `acts` from `from` on for a user leaves,
/// for some numbers that were drawn for dice before each statement, when the
/// run stops behind the first statement after which a file waits to be
/// loaded: `next` is the index of the statement to go on with. Every
/// statement before `next` was run, and the run went on to the end unless a
/// file waits.
pub open spec fn stepped(
    acts: Seq<ActionView>,
    from: nat,
    lines: Seq<Seq<char>>,
    next: nat,
    fin: ScopeView,
    start: ScopeView,
) -> bool {
    if from >= acts.len() {
        lines == Seq::<Seq<char>>::empty() && next == from && fin == start
    } else {
        exists|pools: Seq<Seq<u64>>|
            {
                &&& from + pools.len() == next
                &&& pools.len() > 0
                &&& next <= acts.len()
                &&& #[trigger] some_drawn(acts, from, pools, start)
                &&& (Shown { lines: lines, scope: fin }) == ran_some(acts, from, pools, start)
                &&& (next == acts.len() || fin.loads.len() > 0)
                &&& (pools.len() == 1 || ran_some(
                    acts,
                    from,
                    pools.drop_last(),
                    start,
                ).scope.loads.len() == 0)
            }
    }
}

/// A run of no statement leaves the context as it was and shows nothing.
pub proof fn lemma_ran_none(acts: Seq<ActionView>, from: nat, s: ScopeView)
    ensures
        ran_lines(acts, from, Seq::empty(), s) == (Shown { lines: Seq::empty(), scope: s }),
        pools_drawn(acts, from, Seq::empty(), s),
        ran_some(acts, from, Seq::empty(), s) == (Shown { lines: Seq::empty(), scope: s }),
        some_drawn(acts, from, Seq::empty(), s),
{
    reveal(ran_lines);
    reveal(pools_drawn);
    reveal(ran_some);
    reveal(some_drawn);
}

/// A run of one more statement is the run so far, then that statement with
/// its numbers at hand.
pub proof fn lemma_ran_step(
    acts: Seq<ActionView>,
    from: nat,
    pools: Seq<Seq<u64>>,
    rolls: Seq<u64>,
    s: ScopeView,
)
    requires
        from + pools.len() < acts.len(),
    ensures
        ran_lines(acts, from, pools.push(rolls), s) == show_one(
            acts[(from + pools.len()) as int],
            ran_lines(acts, from, pools, s).scope.with_rolls(rolls),
            ran_lines(acts, from, pools, s).lines,
        ),
        pools_drawn(acts, from, pools.push(rolls), s) == (pools_drawn(acts, from, pools, s)
            && drawn(
            ran_lines(acts, from, pools, s).scope.rolls,
            rolls,
            crate::scope::DICE_POOL as nat,
        )),
        pools.push(rolls).drop_last() == pools,
{
    reveal(ran_lines);
    reveal(pools_drawn);
    assert(pools.push(rolls).drop_last() =~= pools);
    assert(pools.push(rolls).last() == rolls);
}

/// A stepping run of one more statement, where no file waits or no
/// statement was run yet, is the run so far, then that statement with its
/// numbers at hand.
pub proof fn lemma_some_step(
    acts: Seq<ActionView>,
    from: nat,
    pools: Seq<Seq<u64>>,
    rolls: Seq<u64>,
    s: ScopeView,
)
    requires
        from + pools.len() < acts.len(),
        pools.len() == 0 || ran_some(acts, from, pools, s).scope.loads.len() == 0,
    ensures
        ran_some(acts, from, pools.push(rolls), s) == show_one(
            acts[(from + pools.len()) as int],
            ran_some(acts, from, pools, s).scope.with_rolls(rolls),
            ran_some(acts, from, pools, s).lines,
        ),
        some_drawn(acts, from, pools.push(rolls), s) == (some_drawn(acts, from, pools, s)
            && drawn(
            ran_some(acts, from, pools, s).scope.rolls,
            rolls,
            crate::scope::DICE_POOL as nat,
        )),
        pools.push(rolls).drop_last() == pools,
{
    reveal(ran_some);
    reveal(some_drawn);
    assert(pools.push(rolls).drop_last() =~= pools);
    assert(pools.push(rolls).last() == rolls);
}

} // verus!
