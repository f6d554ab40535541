//! The built-in functions of the language.

use vstd::prelude::*;
use crate::ecs_ish::GenData;
use crate::error::{ActionError, ActionErrorView};
use crate::machine::{builtin_in, drop_values, values_view, values_wf};
use crate::proto::Proto;
use crate::text::str_is;
use crate::scope::{DICE_POOL, Eval, Load, Scope, eval_view};
use crate::semantics::{
    MAX_DEPTH, builtin_spec, dice_spec, face, if_spec, is_builtin, link_spec, link_values_spec,
    load_spec, roll_all,
};
use crate::value::{Value, ValueView};

verus! {

/// The face that a die of `sides` sides shows for the number `raw` that was
/// drawn for it.
pub fn die_face(raw: u64, sides: isize) -> (r: isize)
    requires
        sides > 0,
    ensures
        r == face(raw, sides as int),
        1 <= r <= sides,
{
    let m: u64 = raw % (sides as u64);
    (m as isize) + 1
}

/// The built-in `d`, called by itself: draws a number for each die where
/// fewer are at hand, then rolls one die for each argument, which says how
/// many sides the die has, and returns the sum of the faces.
pub fn d(sc: &mut Scope, params: Vec<Value>) -> (r: Result<Value, ActionError>)
    requires
        old(sc)@.wf(),
    ensures
        final(sc)@.wf(),
        exists|rolls: Seq<u64>|
            crate::semantics::drawn(old(sc)@.rolls, rolls, params@.len()) && (Eval {
                res: eval_view(r),
                scope: final(sc)@,
            }) == dice_spec(values_view(params@), #[trigger] old(sc)@.with_rolls(rolls)),
        r is Ok ==> r->Ok_0@.wf(),
{
    sc.draw_dice(params.len());
    let ghost start = sc@;
    assert(start == old(sc)@.with_rolls(start.rolls));
    let r = roll(sc, params);
    assert((Eval { res: eval_view(r), scope: sc@ }) == dice_spec(
        values_view(params@),
        old(sc)@.with_rolls(start.rolls),
    ));
    r
}

/// Rolls one die for each argument, which says how many sides the die has,
/// and returns the sum of the faces. Each die takes one of the numbers that
/// are at hand for dice, the last one first.
pub fn roll(sc: &mut Scope, params: Vec<Value>) -> (r: Result<Value, ActionError>)
    requires
        old(sc)@.wf(),
    ensures
        final(sc)@.wf(),
        final(sc)@ == dice_spec(values_view(params@), old(sc)@).scope,
        eval_view(r) == dice_spec(values_view(params@), old(sc)@).res,
        r is Ok ==> r->Ok_0@.wf(),
{
    let ghost vs = values_view(params@);
    let mut acc: isize = 0;
    let mut i: usize = 0;
    let mut failed: Option<ActionError> = None;
    while i < params.len() && failed.is_none()
        invariant
            i <= params@.len(),
            vs == values_view(params@),
            sc@.wf(),
            sc@.bases == old(sc)@.bases,
            sc@.loads == old(sc)@.loads,
            sc@.arena == old(sc)@.arena,
            failed is None ==> roll_all(vs, i as nat, sc@.rolls, acc as int) == roll_all(
                vs,
                0,
                old(sc)@.rolls,
                0,
            ),
            failed is Some ==> roll_all(vs, 0, old(sc)@.rolls, 0) == (
                Err::<int, ActionErrorView>(failed->0@),
                sc@.rolls,
            ),
        decreases params@.len() - i + (if failed is None { 1nat } else { 0nat }),
    {
        match &params[i] {
            Value::Num(n) => {
                if *n > 0 {
                    let ghost before = sc@.rolls;
                    match sc.rolls.pop() {
                        None => {
                            failed = Some(ActionError::new("no dice at hand"));
                        },
                        Some(raw) => {
                            assert(sc@.rolls =~= before.drop_last());
                            let f = die_face(raw, *n);
                            match acc.checked_add(f) {
                                Some(sum) => {
                                    acc = sum;
                                    i += 1;
                                },
                                None => {
                                    failed = Some(ActionError::new("Number overflow"));
                                },
                            }
                        },
                    }
                } else {
                    failed = Some(ActionError::new("d needs num sides"));
                }
            },
            _ => {
                failed = Some(ActionError::new("d needs num sides"));
            },
        }
    }
    drop_values(sc, params);
    match failed {
        Some(e) => Err(e),
        None => Ok(Value::Num(acc)),
    }
}

/// The built-in `if`: of three arguments, returns the second when the
/// first is true or a positive number, and the third otherwise.
pub fn if_expr(sc: &mut Scope, params: Vec<Value>) -> (r: Result<Value, ActionError>)
    requires
        old(sc)@.wf(),
        values_wf(params@),
    ensures
        final(sc)@.wf(),
        final(sc)@ == if_spec(values_view(params@), old(sc)@).scope,
        eval_view(r) == if_spec(values_view(params@), old(sc)@).res,
        r is Ok ==> r->Ok_0@.wf(),
{
    if params.len() < 3 {
        drop_values(sc, params);
        return Err(ActionError::new("if requires 3 params"));
    }
    let pick: usize = match &params[0] {
        Value::Bool(true) => 1,
        Value::Num(n) => if *n > 0 {
            1
        } else {
            2
        },
        _ => 2,
    };
    let mut params = params;
    let ghost before = values_view(params@);
    let ghost items = params@;
    let v = params.remove(pick);
    assert(values_view(params@) =~= before.remove(pick as int));
    assert(v == items[pick as int]);
    drop_values(sc, params);
    Ok(v)
}

/// The built-in `load`: notes the file named by the first argument as one
/// to be loaded, to be run in the slot that a second argument names.
pub fn load(sc: &mut Scope, params: Vec<Value>) -> (r: Result<Value, ActionError>)
    requires
        old(sc)@.wf(),
    ensures
        final(sc)@.wf(),
        final(sc)@ == load_spec(values_view(params@), old(sc)@).scope,
        eval_view(r) == load_spec(values_view(params@), old(sc)@).res,
        r is Ok ==> r->Ok_0@.wf(),
{
    if params.len() == 0 {
        return Err(ActionError::new("load needs a file name"));
    }
    let name = match &params[0] {
        Value::Str(s) => s.clone(),
        _ => {
            drop_values(sc, params);
            return Err(ActionError::new("filename should be string"));
        },
    };
    let target: Option<GenData> = if params.len() == 1 {
        None
    } else {
        match &params[1] {
            Value::Ref(h) => Some(h.clone_weak()),
            _ => {
                drop_values(sc, params);
                return Err(ActionError::new("target should be proto"));
            },
        }
    };
    let ghost before = sc@.loads;
    let note = Load { name, target };
    let ghost nv = note@;
    sc.loads.push(note);
    assert(sc@.loads =~= before.push(nv));
    drop_values(sc, params);
    Ok(Value::Null)
}

/// The built-in `link` on values: returns its first argument, which must
/// be an indirection, and gives up the others.
pub fn link_values(sc: &mut Scope, params: Vec<Value>) -> (r: Result<Value, ActionError>)
    requires
        old(sc)@.wf(),
        values_wf(params@),
    ensures
        final(sc)@.wf(),
        final(sc)@ == link_values_spec(values_view(params@), old(sc)@).scope,
        eval_view(r) == link_values_spec(values_view(params@), old(sc)@).res,
        r is Ok ==> r->Ok_0@.wf(),
{
    let is_ref = params.len() > 0 && match &params[0] {
        Value::Ref(_) => true,
        _ => false,
    };
    if !is_ref {
        drop_values(sc, params);
        return Err(ActionError::new("can only link on protos"));
    }
    let mut params = params;
    let ghost before = values_view(params@);
    let ghost items = params@;
    let v = params.remove(0);
    assert(values_view(params@) =~= before.remove(0));
    assert(v == items[0]);
    drop_values(sc, params);
    Ok(v)
}

/// The built-in `link`: an indirection to the slot that the path `p`
/// names.
pub fn link(sc: &mut Scope, p: &Proto) -> (r: Result<Value, ActionError>)
    requires
        old(sc)@.wf(),
    ensures
        final(sc)@.wf(),
        final(sc)@ == link_spec(p@, old(sc)@).scope,
        eval_view(r) == link_spec(p@, old(sc)@).res,
        r is Ok ==> r->Ok_0@.wf(),
{
    match sc.get_ref(p) {
        None => Err(ActionError::new("can only link on protos")),
        Some(h) => {
            let strong = sc.gm.upgrade(&h);
            Ok(Value::Ref(GenData { pos: h.pos, gen: h.gen, strong }))
        },
    }
}

/// Whether `name` is the name of a built-in function.
pub fn is_api_func(name: &str) -> (r: bool)
    ensures
        r == is_builtin(name@),
{
    str_is(name, "d") || str_is(name, "if") || str_is(name, "load") || str_is(name, "link")
        || str_is(name, "foreach") || str_is(name, "fold")
}

/// What `run_api_func` leaves for a name and its arguments: nothing for a
/// name that is no built-in function, and else what the function leaves.
pub open spec fn api_spec(fname: Seq<char>, vs: Seq<ValueView>, s: crate::scope::ScopeView) -> Option<
    Eval,
> {
    if is_builtin(fname) {
        Some(builtin_spec(fname, vs, s, (MAX_DEPTH - 1) as nat))
    } else {
        None
    }
}

/// Runs the built-in function `fname` on the values `params`, if there is
/// one of that name, after drawing numbers for dice. The values are handed
/// back with a name that is none, and nothing is drawn.
pub fn run_api_func(fname: &str, scope: &mut Scope, params: Vec<Value>) -> (r: Result<
    Result<Value, ActionError>,
    Vec<Value>,
>)
    requires
        old(scope)@.wf(),
        values_wf(params@),
    ensures
        final(scope)@.wf(),
        is_builtin(fname@) ==> r is Ok && exists|rolls: Seq<u64>|
            crate::semantics::drawn(old(scope)@.rolls, rolls, DICE_POOL as nat) && Some(
                Eval { res: eval_view(r->Ok_0), scope: final(scope)@ },
            ) == api_spec(fname@, values_view(params@), #[trigger] old(scope)@.with_rolls(rolls)),
        !is_builtin(fname@) ==> r == Err::<Result<Value, ActionError>, Vec<Value>>(params)
            && final(scope)@ == old(scope)@,
{
    if is_api_func(fname) {
        scope.draw_dice(DICE_POOL);
        let ghost start = scope@;
        assert(start == old(scope)@.with_rolls(start.rolls));
        let v = builtin_in(fname, params, scope, MAX_DEPTH - 1);
        assert(Some(Eval { res: eval_view(v), scope: scope@ }) == api_spec(
            fname@,
            values_view(params@),
            old(scope)@.with_rolls(start.rolls),
        ));
        Ok(v)
    } else {
        Err(params)
    }
}

/// What the built-in function `fname` leaves for the values `vs` when it
/// runs in a frame of its own, which is left again.
pub open spec fn in_frame_spec(fname: Seq<char>, vs: Seq<ValueView>, s: crate::scope::ScopeView) -> Eval {
    let e = builtin_spec(fname, vs, s.push_frame(), (MAX_DEPTH - 1) as nat);
    Eval { res: e.res, scope: e.scope.pop_frame() }
}

/// Runs the built-in function `fname` on the values `params` in a frame of
/// its own, after drawing numbers for dice. The values are handed back with
/// a name that is none, and nothing is drawn.
pub fn run_api_expr(fname: &str, scope: &mut Scope, params: Vec<Value>) -> (r: Result<
    Result<Value, ActionError>,
    Vec<Value>,
>)
    requires
        old(scope)@.wf(),
        values_wf(params@),
    ensures
        final(scope)@.wf(),
        is_builtin(fname@) ==> r is Ok && exists|rolls: Seq<u64>|
            crate::semantics::drawn(old(scope)@.rolls, rolls, DICE_POOL as nat) && (Eval {
                res: eval_view(r->Ok_0),
                scope: final(scope)@,
            }) == in_frame_spec(
                fname@,
                values_view(params@),
                #[trigger] old(scope)@.with_rolls(rolls),
            ),
        !is_builtin(fname@) ==> r == Err::<Result<Value, ActionError>, Vec<Value>>(params)
            && final(scope)@ == old(scope)@.push_frame().pop_frame(),
{
    if is_api_func(fname) {
        scope.draw_dice(DICE_POOL);
        let ghost start = scope@;
        assert(start == old(scope)@.with_rolls(start.rolls));
        scope.push_frame();
        let v = builtin_in(fname, params, scope, MAX_DEPTH - 1);
        scope.pop_frame();
        assert((Eval { res: eval_view(v), scope: scope@ }) == in_frame_spec(
            fname@,
            values_view(params@),
            old(scope)@.with_rolls(start.rolls),
        ));
        Ok(v)
    } else {
        scope.push_frame();
        scope.pop_frame();
        Err(params)
    }
}

/// What `fold` leaves for its arguments: the seed, what to iterate over,
/// and the function.
pub open spec fn fold_spec(vs: Seq<ValueView>, s: crate::scope::ScopeView) -> Eval {
    builtin_spec("fold"@, vs, s, (MAX_DEPTH - 1) as nat)
}

/// The built-in `fold`, called by itself: draws numbers for dice, then, of
/// three arguments, iterates over the second with the third, the
/// accumulator starting as the first.
pub fn fold(sc: &mut Scope, params: Vec<Value>) -> (r: Result<Value, ActionError>)
    requires
        old(sc)@.wf(),
        values_wf(params@),
    ensures
        final(sc)@.wf(),
        exists|rolls: Seq<u64>|
            crate::semantics::drawn(old(sc)@.rolls, rolls, DICE_POOL as nat) && (Eval { res: eval_view(r), scope: final(sc)@ }) == fold_spec(
                values_view(params@),
                #[trigger] old(sc)@.with_rolls(rolls),
            ),
{
    sc.draw_dice(DICE_POOL);
    let ghost start = sc@;
    assert(start == old(sc)@.with_rolls(start.rolls));
    let r = builtin_in("fold", params, sc, MAX_DEPTH - 1);
    assert((Eval { res: eval_view(r), scope: sc@ }) == fold_spec(
        values_view(params@),
        old(sc)@.with_rolls(start.rolls),
    ));
    r
}

/// What `for_each` leaves for its arguments: what to iterate over, and the
/// function.
pub open spec fn for_each_spec(vs: Seq<ValueView>, s: crate::scope::ScopeView) -> Eval {
    builtin_spec("foreach"@, vs, s, (MAX_DEPTH - 1) as nat)
}

/// The built-in `foreach`, called by itself: draws numbers for dice, then,
/// of two arguments, iterates over the first with the second.
pub fn for_each(sc: &mut Scope, params: Vec<Value>) -> (r: Result<Value, ActionError>)
    requires
        old(sc)@.wf(),
        values_wf(params@),
    ensures
        final(sc)@.wf(),
        exists|rolls: Seq<u64>|
            crate::semantics::drawn(old(sc)@.rolls, rolls, DICE_POOL as nat) && (Eval { res: eval_view(r), scope: final(sc)@ }) == for_each_spec(
                values_view(params@),
                #[trigger] old(sc)@.with_rolls(rolls),
            ),
{
    sc.draw_dice(DICE_POOL);
    let ghost start = sc@;
    assert(start == old(sc)@.with_rolls(start.rolls));
    let r = builtin_in("foreach", params, sc, MAX_DEPTH - 1);
    assert((Eval { res: eval_view(r), scope: sc@ }) == for_each_spec(
        values_view(params@),
        old(sc)@.with_rolls(start.rolls),
    ));
    r
}

} // verus!
