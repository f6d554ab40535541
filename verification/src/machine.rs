//! The evaluator: the executable counterpart of the meaning of
//! expressions and statements. Its functions roll dice from the numbers
//! that are at hand in the context, and so return what the meaning says
//! for those numbers; the methods of `Scope` and `Expr` that call them draw
//! numbers first.

use vstd::prelude::*;
use crate::action::{AcReturn, Action, actions_model, clone_actions};
use crate::ecs_ish::{GenData, GenManager};
use crate::error::{ActionError, ActionErrorView};
use crate::expr::{Expr, MapItem, Op, exprs_model, items_model};
use crate::proto::{Proto, ProtoNode, ProtoView};
use crate::scope::{Eval, Scope, eval_view};
use crate::semantics::{
    Entries, Handles, Many, PathEval, Ran, action_spec, actions_spec, apply_op, bind_args,
    bind_round, block_spec, builtin_spec, call_spec, drop_iteration, eval_args_spec,
    eval_entries_spec, eval_items_spec, eval_path_spec, eval_spec, invoke_spec, is_builtin,
    iterate_spec, link_call_spec, plain_call_spec, rank, release_values, round_value,
    method_spec, rounds, rounds_spec, run_func_spec, select_or_make, value_path, assign,
};
use crate::text::{clone_strings, magnitude, str_is, strings_view};
use crate::api_funcs::{if_expr, link, link_values, load, roll};
use crate::tree::RefTree;
use crate::value::{Outcome, Value, ValueView, fail_types, result_view};

verus! {

/// The mathematical values of a sequence of values, element by element.
pub open spec fn values_view(l: Seq<Value>) -> Seq<ValueView> {
    Seq::new(l.len(), |i: int| l[i]@)
}

/// Whether every value of a sequence is well formed.
pub open spec fn values_wf(l: Seq<Value>) -> bool {
    forall|i: int| 0 <= i < l.len() ==> (#[trigger] l[i])@.wf()
}

/// The mathematical value of an evaluated path.
pub open spec fn path_view(r: Result<Proto, ActionError>) -> Result<ProtoView, ActionErrorView> {
    match r {
        Ok(p) => Ok(p@),
        Err(e) => Err(e@),
    }
}

/// The mathematical value of the result of a run of statements.
pub open spec fn ran_view(r: Result<(AcReturn, Value), ActionError>) -> Result<
    (AcReturn, ValueView),
    ActionErrorView,
> {
    match r {
        Ok(x) => Ok((x.0, x.1@)),
        Err(e) => Err(e@),
    }
}

/// Gives up the handles of each value of `vs`, the last value first.
pub fn drop_values(sc: &mut Scope, vs: Vec<Value>)
    requires
        old(sc)@.wf(),
    ensures
        final(sc)@.wf(),
        final(sc)@ == old(sc)@.drop_values(values_view(vs@)),
{
    let mut vs = vs;
    let ghost all = values_view(vs@);
    while vs.len() > 0
        invariant
            sc@.wf(),
            sc@.bases == old(sc)@.bases,
            sc@.loads == old(sc)@.loads,
            sc@.rolls == old(sc)@.rolls,
            release_values(sc@.arena, values_view(vs@)) == release_values(old(sc)@.arena, all),
        decreases vs@.len(),
    {
        let ghost before = values_view(vs@);
        let v = vs.pop().unwrap();
        assert(values_view(vs@) =~= before.drop_last());
        assert(before.last() == v@);
        sc.gm.drop(v);
    }
}

/// Applies a binary operator to two values.
pub fn apply(o: Op, x: Value, y: Value, gm: &mut GenManager) -> (r: Result<Value, ActionError>)
    requires
        old(gm)@.wf(),
        x@.wf(),
        y@.wf(),
    ensures
        final(gm)@.wf(),
        (Outcome { res: result_view(r), arena: final(gm)@ }) == apply_op(o, x@, y@, old(gm)@),
        r is Ok ==> r->Ok_0@.wf(),
{
    match o {
        Op::Add => x.try_add(y, gm),
        Op::Sub => x.try_sub(y, gm),
        Op::Mul => x.try_mul(y, gm),
        Op::Div => x.try_div(y, gm),
        Op::Greater => match (&x, &y) {
            (Value::Num(a), Value::Num(b)) => Ok(Value::Bool(*a > *b)),
            _ => fail_types("compare", x, y, gm),
        },
        Op::Less => match (&x, &y) {
            (Value::Num(a), Value::Num(b)) => Ok(Value::Bool(*a < *b)),
            _ => fail_types("compare", x, y, gm),
        },
        Op::Equal => {
            let same = x.same(&y);
            gm.drop(x);
            gm.drop(y);
            Ok(Value::Bool(same))
        },
        Op::Dot => {
            gm.drop(x);
            gm.drop(y);
            Err(ActionError::new("Could not appy .= operation"))
        },
    }
}

/// Writes `v` at the name `name` of the innermost frame.
pub fn bind(sc: &mut Scope, name: &str, v: Value)
    requires
        old(sc)@.wf(),
        v@.wf(),
    ensures
        final(sc)@.wf(),
        final(sc)@ == old(sc)@.bind(name@, v@),
{
    let p = Proto::one(name);
    let _ = sc.set(&p, v);
}

/// Binds the arguments to the names of the parameters in the innermost
/// frame, one by one.
pub fn bind_all(sc: &mut Scope, pnames: &Vec<String>, params: Vec<Value>)
    requires
        old(sc)@.wf(),
        values_wf(params@),
    ensures
        final(sc)@.wf(),
        final(sc)@ == bind_args(strings_view(pnames@), values_view(params@), 0, old(sc)@),
{
    let ghost names = strings_view(pnames@);
    let ghost all = values_view(params@);
    let n = params.len();
    let mut rev = params;
    let mut i: usize = 0;
    // take the arguments from the front, one by one
    while i < n
        invariant
            i <= n,
            n == all.len(),
            rev@.len() == n - i,
            names == strings_view(pnames@),
            sc@.wf(),
            values_wf(rev@),
            forall|j: int| 0 <= j < rev@.len() ==> (#[trigger] rev@[j])@ == all[i + j],
            bind_args(names, all, i as nat, sc@) == bind_args(names, all, 0, old(sc)@),
        decreases n - i,
    {
        let ghost before = rev@;
        let v = rev.remove(0);
        assert forall|j: int| 0 <= j < rev@.len() implies (#[trigger] rev@[j])@ == all[i + 1
            + j] by {
            assert(rev@[j] == before[j + 1]);
        }
        assert(values_wf(rev@)) by {
            assert forall|j: int| 0 <= j < rev@.len() implies (#[trigger] rev@[j])@.wf() by {
                assert(rev@[j] == before[j + 1]);
            }
        }
        assert(v == before[0]);
        if i < pnames.len() {
            bind(sc, pnames[i].as_str(), v);
        } else {
            sc.gm.drop(v);
        }
        i += 1;
    }
}

/// The path of the one segment that the value `v` makes.
pub fn to_path(v: Value, sc: &mut Scope) -> (r: Result<Proto, ActionError>)
    requires
        old(sc)@.wf(),
    ensures
        final(sc)@.wf(),
        (PathEval { res: path_view(r), scope: final(sc)@ }) == value_path(
            Eval { res: Ok(v@), scope: old(sc)@ },
        ),
{
    match v {
        Value::Str(s) => Ok(Proto::str(s.as_str())),
        Value::Num(n) => Ok(Proto::num(magnitude(n))),
        other => {
            sc.gm.drop(other);
            Err(ActionError::new("Could not treat as proto"))
        },
    }
}

/// What a call found under the path of its function.
enum Callee {
    Func(Vec<String>, Vec<Action>),
    Stored(Expr),
    Nothing,
}

/// Evaluates the path expression `e`.
pub fn path_in(e: &Expr, sc: &mut Scope, fuel: usize) -> (r: Result<Proto, ActionError>)
    requires
        old(sc)@.wf(),
    ensures
        final(sc)@.wf(),
        (PathEval { res: path_view(r), scope: final(sc)@ }) == eval_path_spec(
            e@,
            old(sc)@,
            fuel as nat,
        ),
    decreases fuel, e, 2nat,
{
    match e {
        Expr::Num(n) => Ok(Proto::num(magnitude(*n))),
        Expr::Str(s) => Ok(Proto::str(s.as_str())),
        Expr::Ident(s) => Ok(Proto::str(s.as_str())),
        Expr::Rooted(a) => match path_in(a, sc, fuel) {
            Ok(p) => Ok(p.rooted()),
            Err(er) => Err(er),
        },
        Expr::Deref(a) => match path_in(a, sc, fuel) {
            Ok(p) => Ok(p.with_deref(1)),
            Err(er) => Err(er),
        },
        Expr::DotStart(a) => match path_in(a, sc, fuel) {
            Ok(p) => Ok(p.dot()),
            Err(er) => Err(er),
        },
        Expr::Oper(o, a, b) => {
            if *o == Op::Dot {
                let pa = match path_in(a, sc, fuel) {
                    Ok(p) => p,
                    Err(er) => {
                        return Err(er);
                    },
                };
                let pb = match path_in(b, sc, fuel) {
                    Ok(p) => p,
                    Err(er) => {
                        return Err(er);
                    },
                };
                Ok(pa.extend_new(pb.pp()))
            } else {
                match eval_in(e, sc, fuel) {
                    Ok(v) => to_path(v, sc),
                    Err(er) => Err(er),
                }
            }
        },
        _ => match eval_in(e, sc, fuel) {
            Ok(v) => to_path(v, sc),
            Err(er) => Err(er),
        },
    }
}

/// Evaluates the elements `l[i..]` of a list into the arena.
pub fn items_in(l: &Vec<Expr>, i: usize, acc: Vec<GenData>, sc: &mut Scope, fuel: usize) -> (r:
    Result<Vec<GenData>, ActionError>)
    requires
        old(sc)@.wf(),
    ensures
        final(sc)@.wf(),
        (Handles {
            res: match r {
                Ok(hs) => Ok(hs@),
                Err(er) => Err(er@),
            },
            scope: final(sc)@,
        }) == eval_items_spec(exprs_model(l@), i as nat, acc@, old(sc)@, fuel as nat),
    decreases fuel, l, l@.len() + 1,
{
    let ghost start = acc@;
    let mut out = acc;
    let mut k: usize = i;
    while k < l.len()
        invariant
            sc@.wf(),
            start == acc@,
            eval_items_spec(exprs_model(l@), k as nat, out@, sc@, fuel as nat) == eval_items_spec(
                exprs_model(l@),
                i as nat,
                start,
                old(sc)@,
                fuel as nat,
            ),
        decreases l@.len() - k,
    {
        match eval_in(&l[k], sc, fuel) {
            Err(er) => {
                sc.gm.release(out);
                return Err(er);
            },
            Ok(v) => {
                let h = sc.gm.push(v);
                out.push(h);
            },
        }
        k += 1;
    }
    Ok(out)
}

/// Evaluates the entries `l[i..]` of a map into the arena.
pub fn entries_in(l: &Vec<MapItem>, i: usize, acc: RefTree, sc: &mut Scope, fuel: usize) -> (r:
    Result<RefTree, ActionError>)
    requires
        old(sc)@.wf(),
        acc.wf(),
    ensures
        final(sc)@.wf(),
        (Entries {
            res: match r {
                Ok(t) => Ok(t@),
                Err(er) => Err(er@),
            },
            scope: final(sc)@,
        }) == eval_entries_spec(items_model(l@), i as nat, acc@, old(sc)@, fuel as nat),
        r is Ok ==> r->Ok_0.wf(),
    decreases fuel, l, l@.len() + 1,
{
    let ghost start = acc@;
    let mut out = acc;
    let mut k: usize = i;
    while k < l.len()
        invariant
            sc@.wf(),
            out.wf(),
            start == acc@,
            eval_entries_spec(items_model(l@), k as nat, out@, sc@, fuel as nat)
                == eval_entries_spec(items_model(l@), i as nat, start, old(sc)@, fuel as nat),
        decreases l@.len() - k,
    {
        match eval_in(&l[k].v, sc, fuel) {
            Err(er) => {
                sc.gm.release(out.into_values());
                return Err(er);
            },
            Ok(v) => {
                let h = sc.gm.push(v);
                if let Some(d) = out.insert(ProtoNode::Str(l[k].k.clone()), h) {
                    sc.gm.drop_ref(d);
                }
            },
        }
        k += 1;
    }
    Ok(out)
}

/// Evaluates the arguments `l[i..]` of a call.
pub fn args_in(l: &Vec<Expr>, i: usize, acc: Vec<Value>, sc: &mut Scope, fuel: usize) -> (r:
    Result<Vec<Value>, ActionError>)
    requires
        old(sc)@.wf(),
        values_wf(acc@),
    ensures
        final(sc)@.wf(),
        (Many {
            res: match r {
                Ok(vs) => Ok(values_view(vs@)),
                Err(er) => Err(er@),
            },
            scope: final(sc)@,
        }) == eval_args_spec(exprs_model(l@), i as nat, values_view(acc@), old(sc)@, fuel as nat),
        r is Ok ==> values_wf(r->Ok_0@),
    decreases fuel, l, l@.len() + 1,
{
    let ghost start = values_view(acc@);
    let mut out = acc;
    let mut k: usize = i;
    while k < l.len()
        invariant
            sc@.wf(),
            values_wf(out@),
            start == values_view(acc@),
            eval_args_spec(exprs_model(l@), k as nat, values_view(out@), sc@, fuel as nat)
                == eval_args_spec(exprs_model(l@), i as nat, start, old(sc)@, fuel as nat),
        decreases l@.len() - k,
    {
        match eval_in(&l[k], sc, fuel) {
            Err(er) => {
                drop_values(sc, out);
                return Err(er);
            },
            Ok(v) => {
                let ghost before = values_view(out@);
                out.push(v);
                assert(values_view(out@) =~= before.push(v@));
            },
        }
        k += 1;
    }
    Ok(out)
}

/// Evaluates the expression `e`.
pub fn eval_in(e: &Expr, sc: &mut Scope, fuel: usize) -> (r: Result<Value, ActionError>)
    requires
        old(sc)@.wf(),
    ensures
        final(sc)@.wf(),
        (Eval { res: eval_view(r), scope: final(sc)@ }) == eval_spec(e@, old(sc)@, fuel as nat),
        r is Ok ==> r->Ok_0@.wf(),
    decreases fuel, e, rank(e@),
{
    match e {
        Expr::Bool(b) => Ok(Value::Bool(*b)),
        Expr::Num(n) => Ok(Value::Num(*n)),
        Expr::Str(s) => Ok(Value::Str(s.clone())),
        Expr::Bracket(a) => eval_in(a, sc, fuel),
        Expr::Neg(a) => match eval_in(a, sc, fuel) {
            Err(er) => Err(er),
            Ok(v) => v.try_neg(&mut sc.gm),
        },
        Expr::Ident(_) | Expr::DotStart(_) | Expr::Rooted(_) | Expr::Deref(_) => {
            match path_in(e, sc, fuel) {
                Err(er) => Err(er),
                Ok(p) => sc.read(&p),
            }
        },
        Expr::Oper(o, a, b) => {
            if *o == Op::Dot {
                match path_in(e, sc, fuel) {
                    Err(er) => Err(er),
                    Ok(p) => sc.read(&p),
                }
            } else {
                let x = match eval_in(a, sc, fuel) {
                    Ok(x) => x,
                    Err(er) => {
                        return Err(er);
                    },
                };
                let y = match eval_in(b, sc, fuel) {
                    Ok(y) => y,
                    Err(er) => {
                        sc.gm.drop(x);
                        return Err(er);
                    },
                };
                apply(*o, x, y, &mut sc.gm)
            }
        },
        Expr::List(l) => match items_in(l, 0, Vec::new(), sc, fuel) {
            Ok(hs) => Ok(Value::List(hs)),
            Err(er) => Err(er),
        },
        Expr::Tree(l) => match entries_in(l, 0, RefTree::new(), sc, fuel) {
            Ok(t) => Ok(Value::Tree(t)),
            Err(er) => Err(er),
        },
        Expr::If(c, t, el) => match eval_in(c, sc, fuel) {
            Err(er) => Err(er),
            Ok(Value::Bool(true)) => match block_in(t, sc, fuel) {
                Ok(x) => Ok(x.1),
                Err(er) => Err(er),
            },
            Ok(Value::Bool(false)) => match block_in(el, sc, fuel) {
                Ok(x) => Ok(x.1),
                Err(er) => Err(er),
            },
            Ok(v) => {
                sc.gm.drop(v);
                Err(ActionError::new("If only works on bool expr"))
            },
        },
        Expr::Call(_, _) => call_in(e, sc, fuel),
        Expr::ExprDef(p, b) => Ok(Value::ExprDef(clone_strings(p), b.clone_expr())),
        Expr::FuncDef(p, b) => Ok(Value::FuncDef(clone_strings(p), clone_actions(b))),
    }
}

/// Evaluates the call `e`.
pub fn call_in(e: &Expr, sc: &mut Scope, fuel: usize) -> (r: Result<Value, ActionError>)
    requires
        old(sc)@.wf(),
    ensures
        final(sc)@.wf(),
        (Eval { res: eval_view(r), scope: final(sc)@ }) == call_spec(e@, old(sc)@, fuel as nat),
        r is Ok ==> r->Ok_0@.wf(),
    decreases fuel, e, 0nat,
{
    match e {
        Expr::Call(f, args) => {
            let p = match path_in(f, sc, fuel) {
                Ok(p) => p,
                Err(er) => {
                    return Err(er);
                },
            };
            if is_name(&p, "link") {
                link_call_in(args, sc, fuel)
            } else {
                plain_call_in(&p, args, sc, fuel)
            }
        },
        _ => Err(ActionError::new("not a function")),
    }
}

/// Evaluates a call of the built-in `link`.
pub fn link_call_in(args: &Vec<Expr>, sc: &mut Scope, fuel: usize) -> (r: Result<
    Value,
    ActionError,
>)
    requires
        old(sc)@.wf(),
    ensures
        final(sc)@.wf(),
        (Eval { res: eval_view(r), scope: final(sc)@ }) == link_call_spec(
            exprs_model(args@),
            old(sc)@,
            fuel as nat,
        ),
        r is Ok ==> r->Ok_0@.wf(),
    decreases fuel, args, 0nat,
{
    if args.len() == 0 {
        return Err(ActionError::new("can only link on protos"));
    }
    match path_in(&args[0], sc, fuel) {
        Err(er) => Err(er),
        Ok(t) => link(sc, &t),
    }
}

/// Evaluates a call of anything but `link`.
pub fn plain_call_in(p: &Proto, args: &Vec<Expr>, sc: &mut Scope, fuel: usize) -> (r: Result<
    Value,
    ActionError,
>)
    requires
        old(sc)@.wf(),
    ensures
        final(sc)@.wf(),
        (Eval { res: eval_view(r), scope: final(sc)@ }) == plain_call_spec(
            p@,
            exprs_model(args@),
            old(sc)@,
            fuel as nat,
        ),
        r is Ok ==> r->Ok_0@.wf(),
    decreases fuel, args, args@.len() + 2,
{
    let acc: Vec<Value> = Vec::new();
    assert(values_view(acc@) =~= Seq::<ValueView>::empty());
    let vs = match args_in(args, 0, acc, sc, fuel) {
        Ok(vs) => vs,
        Err(er) => {
            return Err(er);
        },
    };
    if fuel < 2 {
        drop_values(sc, vs);
        return Err(ActionError::new("recursion too deep"));
    }
    invoke_in(p, vs, sc, fuel - 1)
}

/// Whether the path `p` is the single name `name`.
pub fn is_name(p: &Proto, name: &str) -> (r: bool)
    ensures
        r == (Proto::api_name(p@) == Some(name@)),
{
    match p.as_api_func_name() {
        Some(n) => str_is(n, name),
        None => false,
    }
}

/// Whether the path `p` is the name of a built-in function.
pub fn names_builtin(p: &Proto) -> (r: bool)
    ensures
        r == (Proto::api_name(p@) is Some && is_builtin(Proto::api_name(p@)->0)),
{
    is_name(p, "d") || is_name(p, "if") || is_name(p, "load") || is_name(p, "link") || is_name(
        p,
        "foreach",
    ) || is_name(p, "fold")
}

/// Looks up what a call is to run.
fn find_callee(sc: &Scope, p: &Proto) -> (r: Callee)
    ensures
        match sc@.get(p@) {
            Some(ValueView::FuncDef(params, body)) => r matches Callee::Func(pn, b)
                && strings_view(pn@) == params && actions_model(b@) == body,
            Some(ValueView::ExprDef(_, ex)) => r matches Callee::Stored(x) && x@ == ex,
            _ => r is Nothing,
        },
{
    match sc.get(p) {
        Some(Value::FuncDef(pn, body)) => Callee::Func(clone_strings(pn), clone_actions(body)),
        Some(Value::ExprDef(_, ex)) => Callee::Stored(ex.clone_expr()),
        _ => Callee::Nothing,
    }
}

/// Calls what the path `p` names on the values `vs`.
pub fn invoke_in(p: &Proto, vs: Vec<Value>, sc: &mut Scope, fuel: usize) -> (r: Result<
    Value,
    ActionError,
>)
    requires
        old(sc)@.wf(),
        values_wf(vs@),
    ensures
        final(sc)@.wf(),
        (Eval { res: eval_view(r), scope: final(sc)@ }) == invoke_spec(
            p@,
            values_view(vs@),
            old(sc)@,
            fuel as nat,
        ),
        r is Ok ==> r->Ok_0@.wf(),
    decreases fuel, vs, 1nat,
{
    if names_builtin(p) {
        let name = String::from_str(p.as_api_func_name().unwrap());
        return builtin_in(name.as_str(), vs, sc, fuel);
    }
    if fuel == 0 {
        drop_values(sc, vs);
        return Err(ActionError::new("recursion too deep"));
    }
    match find_callee(sc, p) {
        Callee::Func(pn, body) => method_in(p, &pn, &body, vs, sc, fuel - 1),
        Callee::Stored(ex) => {
            drop_values(sc, vs);
            sc.push_frame();
            let r = eval_in(&ex, sc, fuel - 1);
            sc.pop_frame();
            r
        },
        Callee::Nothing => {
            drop_values(sc, vs);
            Err(ActionError::new("not a function"))
        },
    }
}

/// Runs a built-in function on the values `vs`.
pub fn builtin_in(name: &str, vs: Vec<Value>, sc: &mut Scope, fuel: usize) -> (r: Result<
    Value,
    ActionError,
>)
    requires
        old(sc)@.wf(),
        values_wf(vs@),
    ensures
        final(sc)@.wf(),
        (Eval { res: eval_view(r), scope: final(sc)@ }) == builtin_spec(
            name@,
            values_view(vs@),
            old(sc)@,
            fuel as nat,
        ),
        r is Ok ==> r->Ok_0@.wf(),
    decreases fuel, vs, 0nat,
{
    if str_is(name, "d") {
        roll(sc, vs)
    } else if str_is(name, "if") {
        if_expr(sc, vs)
    } else if str_is(name, "load") {
        load(sc, vs)
    } else if str_is(name, "link") {
        link_values(sc, vs)
    } else if str_is(name, "foreach") {
        if vs.len() != 2 {
            drop_values(sc, vs);
            return Err(ActionError::new("FoldEach requires at least 2 params"));
        }
        let mut vs = vs;
        let ghost all = vs@;
        let func = vs.pop().unwrap();
        let src = vs.pop().unwrap();
        assert(func == all[1] && src == all[0]);
        iterate_in(None, src, func, sc, fuel)
    } else if str_is(name, "fold") {
        if vs.len() != 3 {
            drop_values(sc, vs);
            return Err(ActionError::new("Fold requires 3 params : foldvar,iterble,func"));
        }
        let mut vs = vs;
        let ghost all = vs@;
        let func = vs.pop().unwrap();
        let src = vs.pop().unwrap();
        let seed = vs.pop().unwrap();
        assert(func == all[2] && src == all[1] && seed == all[0]);
        iterate_in(Some(seed), src, func, sc, fuel)
    } else {
        drop_values(sc, vs);
        Err(ActionError::new("can only link on protos"))
    }
}

/// The mathematical value of an optional value.
pub open spec fn seed_view(seed: Option<Value>) -> Option<ValueView> {
    match seed {
        Some(v) => Some(v@),
        None => None,
    }
}

/// Gives up what an iteration that cannot start was given.
fn drop_start(seed: Option<Value>, src: Value, func: Value, sc: &mut Scope)
    requires
        old(sc)@.wf(),
    ensures
        final(sc)@.wf(),
        final(sc)@ == drop_iteration(seed_view(seed), src@, func@, old(sc)@),
{
    sc.gm.drop(func);
    sc.gm.drop(src);
    if let Some(v) = seed {
        sc.gm.drop(v);
    }
}

/// Runs the function `func` once for each round of an iteration over
/// `src`, with the accumulator starting as `seed`.
pub fn iterate_in(seed: Option<Value>, src: Value, func: Value, sc: &mut Scope, fuel: usize) -> (r:
    Result<Value, ActionError>)
    requires
        old(sc)@.wf(),
        seed is Some ==> seed->0@.wf(),
    ensures
        final(sc)@.wf(),
        (Eval { res: eval_view(r), scope: final(sc)@ }) == iterate_spec(
            seed_view(seed),
            src@,
            func@,
            old(sc)@,
            fuel as nat,
        ),
        r is Ok ==> r->Ok_0@.wf(),
    decreases fuel, func, 0nat,
{
    let parts = match &func {
        Value::FuncDef(p, b) => Some((clone_strings(p), clone_actions(b))),
        _ => None,
    };
    let (params, body) = match parts {
        Some(x) => x,
        None => {
            drop_start(seed, src, func, sc);
            return Err(ActionError::new("foreach needs a function"));
        },
    };
    let iterable = match &src {
        Value::List(_) | Value::Num(_) => true,
        _ => false,
    };
    if !iterable {
        drop_start(seed, src, func, sc);
        return Err(ActionError::new("Must be list for iterator right now"));
    }
    if fuel == 0 {
        drop_start(seed, src, func, sc);
        return Err(ActionError::new("recursion too deep"));
    }
    sc.push_frame();
    if let Some(v) = seed {
        bind(sc, "fold", v);
    }
    match rounds_in(&src, 0, &params, &body, sc, fuel - 1) {
        Err(er) => {
            sc.pop_frame();
            sc.gm.drop(src);
            Err(er)
        },
        Ok(_) => {
            let acc = sc.read(&Proto::one("fold"));
            sc.pop_frame();
            sc.gm.drop(src);
            match acc {
                Ok(v) => Ok(v),
                Err(_) => Ok(Value::Null),
            }
        },
    }
}

/// How many rounds an iteration over `src` makes.
pub fn count_rounds(src: &Value) -> (r: usize)
    ensures
        r == rounds(src@),
        r <= isize::MAX,
{
    match src {
        Value::List(l) => if l.len() <= isize::MAX as usize {
            l.len()
        } else {
            isize::MAX as usize
        },
        Value::Num(n) => if *n > 0 {
            *n as usize
        } else {
            0
        },
        _ => 0,
    }
}

/// The value of round `i` of an iteration over `src`.
pub fn round_value_in(src: &Value, i: usize, sc: &mut Scope) -> (r: Value)
    requires
        old(sc)@.wf(),
        i < rounds(src@),
    ensures
        final(sc)@.wf(),
        (Eval { res: Ok(r@), scope: final(sc)@ }) == round_value(src@, i as nat, old(sc)@),
        r@.wf(),
{
    match src {
        Value::List(l) => match sc.gm.get(&l[i]) {
            Some(v) => {
                proof {
                    crate::scope::lemma_weak_wf(v@);
                }
                let w = v.clone_weak();
                w.to_strong(&mut sc.gm)
            },
            None => Value::Null,
        },
        _ => Value::Num(i as isize),
    }
}

/// Binds the key and the value of a round.
pub fn bind_round_in(params: &Vec<String>, key: Value, val: Value, sc: &mut Scope)
    requires
        old(sc)@.wf(),
        key@.wf(),
        val@.wf(),
    ensures
        final(sc)@.wf(),
        final(sc)@ == bind_round(strings_view(params@), key@, val@, old(sc)@),
{
    if params.len() == 0 {
        bind(sc, "k", key);
        bind(sc, "v", val);
    } else if params.len() == 1 {
        bind(sc, params[0].as_str(), val);
    } else {
        bind(sc, params[0].as_str(), key);
        bind(sc, params[1].as_str(), val);
    }
}

/// Takes the value that a round returned into the accumulator.
pub fn keep_round(v: Value, sc: &mut Scope)
    requires
        old(sc)@.wf(),
        v@.wf(),
    ensures
        final(sc)@.wf(),
        final(sc)@ == if v@ is Null {
            old(sc)@
        } else {
            old(sc)@.bind("fold"@, v@)
        },
{
    match v {
        Value::Null => {},
        other => {
            bind(sc, "fold", other);
        },
    }
}

/// Runs the rounds `i..` of an iteration.
pub fn rounds_in(
    src: &Value,
    i: usize,
    params: &Vec<String>,
    body: &Vec<Action>,
    sc: &mut Scope,
    fuel: usize,
) -> (r: Result<Value, ActionError>)
    requires
        old(sc)@.wf(),
    ensures
        final(sc)@.wf(),
        (Eval { res: eval_view(r), scope: final(sc)@ }) == rounds_spec(
            src@,
            i as nat,
            strings_view(params@),
            actions_model(body@),
            old(sc)@,
            fuel as nat,
        ),
        r is Ok ==> r->Ok_0@.wf(),
    decreases fuel, body, body@.len() + 1,
{
    let count = count_rounds(src);
    let mut k: usize = i;
    while k < count
        invariant
            sc@.wf(),
            count == rounds(src@),
            rounds_spec(
                src@,
                k as nat,
                strings_view(params@),
                actions_model(body@),
                sc@,
                fuel as nat,
            ) == rounds_spec(
                src@,
                i as nat,
                strings_view(params@),
                actions_model(body@),
                old(sc)@,
                fuel as nat,
            ),
        decreases count - k,
    {
        let val = round_value_in(src, k, sc);
        bind_round_in(params, Value::Num(k as isize), val, sc);
        match actions_in(body, 0, sc, fuel) {
            Err(er) => {
                return Err(er);
            },
            Ok(x) => {
                keep_round(x.1, sc);
            },
        }
        k += 1;
    }
    Ok(Value::Null)
}

/// Runs the function with the parameters `pnames` and the body `body` on
/// the arguments `params`.
pub fn run_func_in(
    pnames: &Vec<String>,
    body: &Vec<Action>,
    params: Vec<Value>,
    sc: &mut Scope,
    fuel: usize,
) -> (r: Result<Value, ActionError>)
    requires
        old(sc)@.wf(),
        values_wf(params@),
    ensures
        final(sc)@.wf(),
        (Eval { res: eval_view(r), scope: final(sc)@ }) == run_func_spec(
            strings_view(pnames@),
            actions_model(body@),
            values_view(params@),
            old(sc)@,
            fuel as nat,
        ),
        r is Ok ==> r->Ok_0@.wf(),
    decreases fuel, body, body@.len() + 2,
{
    sc.push_frame();
    bind_all(sc, pnames, params);
    let r = actions_in(body, 0, sc, fuel);
    sc.pop_frame();
    match r {
        Ok(x) => Ok(x.1),
        Err(er) => Err(er),
    }
}

/// Runs the function found at the path `p` on the arguments `params`,
/// with `self` bound to what the function belongs to.
pub fn method_in(
    p: &Proto,
    pnames: &Vec<String>,
    body: &Vec<Action>,
    params: Vec<Value>,
    sc: &mut Scope,
    fuel: usize,
) -> (r: Result<Value, ActionError>)
    requires
        old(sc)@.wf(),
        values_wf(params@),
    ensures
        final(sc)@.wf(),
        (Eval { res: eval_view(r), scope: final(sc)@ }) == method_spec(
            p@,
            strings_view(pnames@),
            actions_model(body@),
            values_view(params@),
            old(sc)@,
            fuel as nat,
        ),
        r is Ok ==> r->Ok_0@.wf(),
    decreases fuel, body, body@.len() + 2,
{
    let recv = link(sc, &p.parent());
    sc.push_frame();
    bind_all(sc, pnames, params);
    match recv {
        Ok(v) => {
            bind(sc, "self", v);
        },
        Err(_) => {},
    }
    let r = actions_in(body, 0, sc, fuel);
    sc.pop_frame();
    match r {
        Ok(x) => Ok(x.1),
        Err(er) => Err(er),
    }
}

/// Runs the statements `acts` in a frame of their own.
pub fn block_in(acts: &Vec<Action>, sc: &mut Scope, fuel: usize) -> (r: Result<
    (AcReturn, Value),
    ActionError,
>)
    requires
        old(sc)@.wf(),
    ensures
        final(sc)@.wf(),
        (Ran { res: ran_view(r), scope: final(sc)@ }) == block_spec(
            actions_model(acts@),
            old(sc)@,
            fuel as nat,
        ),
        r is Ok ==> (r->Ok_0).1@.wf(),
    decreases fuel, acts, acts@.len() + 1,
{
    sc.push_frame();
    let r = actions_in(acts, 0, sc, fuel);
    sc.pop_frame();
    r
}

/// Runs the statements `acts[i..]`.
pub fn actions_in(acts: &Vec<Action>, i: usize, sc: &mut Scope, fuel: usize) -> (r: Result<
    (AcReturn, Value),
    ActionError,
>)
    requires
        old(sc)@.wf(),
    ensures
        final(sc)@.wf(),
        (Ran { res: ran_view(r), scope: final(sc)@ }) == actions_spec(
            actions_model(acts@),
            i as nat,
            old(sc)@,
            fuel as nat,
        ),
        r is Ok ==> (r->Ok_0).1@.wf(),
    decreases fuel, acts, acts@.len(),
{
    let mut k: usize = i;
    while k < acts.len()
        invariant
            sc@.wf(),
            actions_spec(actions_model(acts@), k as nat, sc@, fuel as nat) == actions_spec(
                actions_model(acts@),
                i as nat,
                old(sc)@,
                fuel as nat,
            ),
        decreases acts@.len() - k,
    {
        let v = match action_in(&acts[k], sc, fuel) {
            Ok(v) => v,
            Err(er) => {
                return Err(er);
            },
        };
        match &acts[k] {
            Action::Resolve(_) => {
                return Ok((AcReturn::No, v));
            },
            Action::Return(_) => {
                return Ok((AcReturn::Func, v));
            },
            _ => {
                sc.gm.drop(v);
            },
        }
        k += 1;
    }
    Ok((AcReturn::No, Value::Null))
}

/// Writes the value `v` at the path `p`.
pub fn assign_in(sc: &mut Scope, p: &Proto, v: Value) -> (r: Result<Value, ActionError>)
    requires
        old(sc)@.wf(),
        v@.wf(),
    ensures
        final(sc)@.wf(),
        (Eval { res: eval_view(r), scope: final(sc)@ }) == assign(old(sc)@, p@, v@),
        r is Ok ==> r->Ok_0@.wf(),
{
    match sc.set(p, v) {
        Ok(_) => Ok(Value::Null),
        Err(er) => Err(er),
    }
}

/// Runs the statement `a`.
pub fn action_in(a: &Action, sc: &mut Scope, fuel: usize) -> (r: Result<Value, ActionError>)
    requires
        old(sc)@.wf(),
    ensures
        final(sc)@.wf(),
        (Eval { res: eval_view(r), scope: final(sc)@ }) == action_spec(a@, old(sc)@, fuel as nat),
        r is Ok ==> r->Ok_0@.wf(),
    decreases fuel, a, 0nat,
{
    match a {
        Action::NoOp => Ok(Value::Null),
        Action::Assign(pe, ve) => {
            let p = match path_in(pe, sc, fuel) {
                Ok(p) => p,
                Err(er) => {
                    return Err(er);
                },
            };
            match eval_in(ve, sc, fuel) {
                Err(er) => Err(er),
                Ok(v) => assign_in(sc, &p, v),
            }
        },
        Action::Resolve(e) => eval_in(e, sc, fuel),
        Action::Return(e) => eval_in(e, sc, fuel),
        Action::Select(pe) => match path_in(pe, sc, fuel) {
            Err(er) => Err(er),
            Ok(p) => sc.colon_select(&p),
        },
        Action::SetSelect(pe, ve) => {
            let p = match path_in(pe, sc, fuel) {
                Ok(p) => p,
                Err(er) => {
                    return Err(er);
                },
            };
            let v = match eval_in(ve, sc, fuel) {
                Ok(v) => v,
                Err(er) => {
                    return Err(er);
                },
            };
            match assign_in(sc, &p, v) {
                Err(er) => Err(er),
                Ok(_) => sc.colon_select(&p),
            }
        },
        Action::AddItem(n, id) => sc.bump(*n, id.as_str()),
        Action::RemItem(n, id) => {
            if *n == isize::MIN {
                Err(ActionError::new("Number overflow"))
            } else {
                sc.bump(-*n, id.as_str())
            }
        },
        Action::OpSet(o, lf, rt) => {
            let p = match path_in(lf, sc, fuel) {
                Ok(p) => p,
                Err(er) => {
                    return Err(er);
                },
            };
            if (*o == Op::Add || *o == Op::Sub) && sc.target(&p).is_err() {
                let v = match eval_in(rt, sc, fuel) {
                    Ok(v) => v,
                    Err(er) => {
                        return Err(er);
                    },
                };
                if *o == Op::Sub {
                    match v.try_neg(&mut sc.gm) {
                        Err(er) => Err(er),
                        Ok(nv) => assign_in(sc, &p, nv),
                    }
                } else {
                    assign_in(sc, &p, v)
                }
            } else {
                let x = match sc.read(&p) {
                    Ok(x) => x,
                    Err(er) => {
                        return Err(er);
                    },
                };
                let y = match eval_in(rt, sc, fuel) {
                    Ok(y) => y,
                    Err(er) => {
                        sc.gm.drop(x);
                        return Err(er);
                    },
                };
                match apply(*o, x, y, &mut sc.gm) {
                    Err(er) => Err(er),
                    Ok(rv) => assign_in(sc, &p, rv),
                }
            }
        },
    }
}

} // verus!
