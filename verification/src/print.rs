//! The text of expressions, statements and values.

use vstd::prelude::*;
use crate::action::{Action, ActionView, actions_model};
use crate::ecs_ish::{ArenaView, GenData, GenManager};
use crate::expr::{Expr, ExprView, MapItem, MapItemView, exprs_model, items_model, op_text};
use crate::proto::{ProtoNode};
use crate::text::{int_digits, isize_to_string, strings_view};
use crate::tree::{RefTree, TreeView};
use crate::value::{Value, ValueView};

verus! {

/// How many handles in a row the text of a value follows.
pub const MAX_PRINT_DEPTH: usize = 32;

/// The names `l[i..]`, with commas between them.
pub open spec fn names_text(l: Seq<Seq<char>>, i: nat) -> Seq<char>
    decreases l.len() - i,
{
    if i >= l.len() {
        Seq::empty()
    } else if i + 1 == l.len() {
        l[i as int]
    } else {
        l[i as int] + ","@ + names_text(l, i + 1)
    }
}

/// The expressions `l[i..]` as text, with commas between them.
pub open spec fn exprs_text(l: Seq<ExprView>, i: nat) -> Seq<char>
    decreases l, l.len() - i,
{
    if i >= l.len() {
        Seq::empty()
    } else if i + 1 == l.len() {
        expr_text(l[i as int])
    } else {
        expr_text(l[i as int]) + ","@ + exprs_text(l, i + 1)
    }
}

/// The entries `l[i..]` of a map literal as text, with commas between
/// them.
pub open spec fn items_text(l: Seq<MapItemView>, i: nat) -> Seq<char>
    decreases l, l.len() - i,
{
    if i >= l.len() {
        Seq::empty()
    } else if i + 1 == l.len() {
        l[i as int].k + ":"@ + expr_text(l[i as int].v)
    } else {
        l[i as int].k + ":"@ + expr_text(l[i as int].v) + ","@ + items_text(l, i + 1)
    }
}

/// The statements `l[i..]` as text, with semicolons between them.
pub open spec fn actions_text(l: Seq<ActionView>, i: nat) -> Seq<char>
    decreases l, l.len() - i,
{
    if i >= l.len() {
        Seq::empty()
    } else if i + 1 == l.len() {
        action_text(l[i as int])
    } else {
        action_text(l[i as int]) + ";"@ + actions_text(l, i + 1)
    }
}

/// The text of an expression, as it is written in the language.
pub open spec fn expr_text(e: ExprView) -> Seq<char>
    decreases e, 0nat,
{
    match e {
        ExprView::Bool(b) => if b {
            "true"@
        } else {
            "false"@
        },
        ExprView::Num(n) => int_digits(n),
        ExprView::Str(s) => "\""@ + s + "\""@,
        ExprView::Ident(s) => s,
        ExprView::Oper(o, a, b) => expr_text(*a) + op_text(o) + expr_text(*b),
        ExprView::Bracket(a) => "("@ + expr_text(*a) + ")"@,
        ExprView::Neg(a) => "-"@ + expr_text(*a),
        ExprView::DotStart(a) => "."@ + expr_text(*a),
        ExprView::Rooted(a) => ":"@ + expr_text(*a),
        ExprView::Deref(a) => "$"@ + expr_text(*a),
        ExprView::List(l) => "["@ + exprs_text(l, 0) + "]"@,
        ExprView::Tree(l) => "{"@ + items_text(l, 0) + "}"@,
        ExprView::If(c, t, el) => "if "@ + expr_text(*c) + "{"@ + actions_text(t, 0) + "} else {"@
            + actions_text(el, 0) + "}"@,
        ExprView::Call(f, a) => expr_text(*f) + "("@ + exprs_text(a, 0) + ")"@,
        ExprView::ExprDef(_, b) => "expr("@ + expr_text(*b) + ")"@,
        ExprView::FuncDef(p, b) => "func("@ + names_text(p, 0) + "){"@ + actions_text(b, 0) + "}"@,
    }
}

/// The text of a statement, as it is written in the language.
pub open spec fn action_text(a: ActionView) -> Seq<char>
    decreases a, 0nat,
{
    match a {
        ActionView::NoOp => Seq::empty(),
        ActionView::Select(e) => expr_text(e) + ":"@,
        ActionView::SetSelect(p, v) => expr_text(p) + "="@ + expr_text(v) + ":"@,
        ActionView::OpSet(o, p, v) => expr_text(p) + op_text(o) + "="@ + expr_text(v),
        ActionView::Assign(p, v) => expr_text(p) + "="@ + expr_text(v),
        ActionView::AddItem(n, id) => "+"@ + int_digits(n) + " "@ + id,
        ActionView::RemItem(n, id) => "-"@ + int_digits(n) + " "@ + id,
        ActionView::Resolve(e) => expr_text(e),
        ActionView::Return(e) => "return "@ + expr_text(e),
    }
}

/// Appends the names `l[i..]`, with commas between them.
pub fn write_names(l: &Vec<String>, i: usize, out: &mut String)
    ensures
        final(out)@ == old(out)@ + names_text(strings_view(l@), i as nat),
{
    let mut k: usize = i;
    assert(out@ + names_text(strings_view(l@), i as nat) =~= old(out)@ + names_text(
        strings_view(l@),
        i as nat,
    ));
    while k < l.len()
        invariant
            out@ + names_text(strings_view(l@), k as nat) == old(out)@ + names_text(
                strings_view(l@),
                i as nat,
            ),
        decreases l@.len() - k,
    {
        let ghost before = out@;
        let ghost rest = names_text(strings_view(l@), (k + 1) as nat);
        out.append(l[k].as_str());
        if k + 1 < l.len() {
            out.append(",");
            assert(out@ + rest =~= before + (l@[k as int]@ + ","@ + rest));
        } else {
            assert(rest =~= Seq::<char>::empty());
            assert(out@ + rest =~= before + l@[k as int]@);
        }
        k += 1;
    }
    assert(out@ + Seq::<char>::empty() =~= out@);
}

/// Appends the expressions `l[i..]`, with commas between them.
pub fn write_exprs(l: &Vec<Expr>, i: usize, out: &mut String)
    ensures
        final(out)@ == old(out)@ + exprs_text(exprs_model(l@), i as nat),
    decreases l, 1nat,
{
    let mut k: usize = i;
    assert(out@ + exprs_text(exprs_model(l@), i as nat) =~= old(out)@ + exprs_text(
        exprs_model(l@),
        i as nat,
    ));
    while k < l.len()
        invariant
            out@ + exprs_text(exprs_model(l@), k as nat) == old(out)@ + exprs_text(
                exprs_model(l@),
                i as nat,
            ),
        decreases l@.len() - k,
    {
        let ghost before = out@;
        let ghost rest = exprs_text(exprs_model(l@), (k + 1) as nat);
        write_expr(&l[k], out);
        if k + 1 < l.len() {
            out.append(",");
            assert(out@ + rest =~= before + (expr_text(l@[k as int]@) + ","@ + rest));
        } else {
            assert(rest =~= Seq::<char>::empty());
            assert(out@ + rest =~= before + expr_text(l@[k as int]@));
        }
        k += 1;
    }
    assert(out@ + Seq::<char>::empty() =~= out@);
}

/// Appends the entries `l[i..]` of a map literal, with commas between
/// them.
pub fn write_items(l: &Vec<MapItem>, i: usize, out: &mut String)
    ensures
        final(out)@ == old(out)@ + items_text(items_model(l@), i as nat),
    decreases l, 1nat,
{
    let mut k: usize = i;
    assert(out@ + items_text(items_model(l@), i as nat) =~= old(out)@ + items_text(
        items_model(l@),
        i as nat,
    ));
    while k < l.len()
        invariant
            out@ + items_text(items_model(l@), k as nat) == old(out)@ + items_text(
                items_model(l@),
                i as nat,
            ),
        decreases l@.len() - k,
    {
        let ghost before = out@;
        let ghost rest = items_text(items_model(l@), (k + 1) as nat);
        let ghost head = l@[k as int].k@ + ":"@ + expr_text(l@[k as int].v@);
        out.append(l[k].k.as_str());
        out.append(":");
        write_expr(&l[k].v, out);
        assert(out@ =~= before + head);
        if k + 1 < l.len() {
            out.append(",");
            assert(out@ + rest =~= before + (head + ","@ + rest));
        } else {
            assert(rest =~= Seq::<char>::empty());
            assert(out@ + rest =~= before + head);
        }
        k += 1;
    }
    assert(out@ + Seq::<char>::empty() =~= out@);
}

/// Appends the statements `l[i..]`, with semicolons between them.
pub fn write_actions(l: &Vec<Action>, i: usize, out: &mut String)
    ensures
        final(out)@ == old(out)@ + actions_text(actions_model(l@), i as nat),
    decreases l, 1nat,
{
    let mut k: usize = i;
    assert(out@ + actions_text(actions_model(l@), i as nat) =~= old(out)@ + actions_text(
        actions_model(l@),
        i as nat,
    ));
    while k < l.len()
        invariant
            out@ + actions_text(actions_model(l@), k as nat) == old(out)@ + actions_text(
                actions_model(l@),
                i as nat,
            ),
        decreases l@.len() - k,
    {
        let ghost before = out@;
        let ghost rest = actions_text(actions_model(l@), (k + 1) as nat);
        write_action(&l[k], out);
        if k + 1 < l.len() {
            out.append(";");
            assert(out@ + rest =~= before + (action_text(l@[k as int]@) + ";"@ + rest));
        } else {
            assert(rest =~= Seq::<char>::empty());
            assert(out@ + rest =~= before + action_text(l@[k as int]@));
        }
        k += 1;
    }
    assert(out@ + Seq::<char>::empty() =~= out@);
}

/// Appends the text of the expression `e`.
pub fn write_expr(e: &Expr, out: &mut String)
    ensures
        final(out)@ == old(out)@ + expr_text(e@),
    decreases e, 0nat,
{
    match e {
        Expr::Bool(b) => {
            if *b {
                out.append("true");
            } else {
                out.append("false");
            }
        },
        Expr::Num(n) => {
            let s = isize_to_string(*n);
            out.append(s.as_str());
        },
        Expr::Str(s) => {
            out.append("\"");
            out.append(s.as_str());
            out.append("\"");
            assert(out@ =~= old(out)@ + ("\""@ + s@ + "\""@));
        },
        Expr::Ident(s) => {
            out.append(s.as_str());
        },
        Expr::Oper(o, a, b) => {
            write_expr(a, out);
            out.append(o.to_str());
            write_expr(b, out);
            assert(out@ =~= old(out)@ + (expr_text(a@) + op_text(*o) + expr_text(b@)));
        },
        Expr::Bracket(a) => {
            out.append("(");
            write_expr(a, out);
            out.append(")");
            assert(out@ =~= old(out)@ + ("("@ + expr_text(a@) + ")"@));
        },
        Expr::Neg(a) => {
            out.append("-");
            write_expr(a, out);
            assert(out@ =~= old(out)@ + ("-"@ + expr_text(a@)));
        },
        Expr::DotStart(a) => {
            out.append(".");
            write_expr(a, out);
            assert(out@ =~= old(out)@ + ("."@ + expr_text(a@)));
        },
        Expr::Rooted(a) => {
            out.append(":");
            write_expr(a, out);
            assert(out@ =~= old(out)@ + (":"@ + expr_text(a@)));
        },
        Expr::Deref(a) => {
            out.append("$");
            write_expr(a, out);
            assert(out@ =~= old(out)@ + ("$"@ + expr_text(a@)));
        },
        Expr::List(l) => {
            out.append("[");
            write_exprs(l, 0, out);
            out.append("]");
            assert(out@ =~= old(out)@ + ("["@ + exprs_text(exprs_model(l@), 0) + "]"@));
        },
        Expr::Tree(l) => {
            out.append("{");
            write_items(l, 0, out);
            out.append("}");
            assert(out@ =~= old(out)@ + ("{"@ + items_text(items_model(l@), 0) + "}"@));
        },
        Expr::If(c, t, el) => {
            out.append("if ");
            write_expr(c, out);
            out.append("{");
            write_actions(t, 0, out);
            out.append("} else {");
            write_actions(el, 0, out);
            out.append("}");
            assert(out@ =~= old(out)@ + ("if "@ + expr_text(c@) + "{"@ + actions_text(
                actions_model(t@),
                0,
            ) + "} else {"@ + actions_text(actions_model(el@), 0) + "}"@));
        },
        Expr::Call(f, a) => {
            write_expr(f, out);
            out.append("(");
            write_exprs(a, 0, out);
            out.append(")");
            assert(out@ =~= old(out)@ + (expr_text(f@) + "("@ + exprs_text(exprs_model(a@), 0)
                + ")"@));
        },
        Expr::ExprDef(_, b) => {
            out.append("expr(");
            write_expr(b, out);
            out.append(")");
            assert(out@ =~= old(out)@ + ("expr("@ + expr_text(b@) + ")"@));
        },
        Expr::FuncDef(p, b) => {
            out.append("func(");
            write_names(p, 0, out);
            out.append("){");
            write_actions(b, 0, out);
            out.append("}");
            assert(out@ =~= old(out)@ + ("func("@ + names_text(strings_view(p@), 0) + "){"@
                + actions_text(actions_model(b@), 0) + "}"@));
        },
    }
}

/// Appends the text of the statement `a`.
pub fn write_action(a: &Action, out: &mut String)
    ensures
        final(out)@ == old(out)@ + action_text(a@),
    decreases a, 0nat,
{
    match a {
        Action::NoOp => {
            assert(out@ =~= old(out)@ + Seq::<char>::empty());
        },
        Action::Select(e) => {
            write_expr(e, out);
            out.append(":");
            assert(out@ =~= old(out)@ + (expr_text(e@) + ":"@));
        },
        Action::SetSelect(p, v) => {
            write_expr(p, out);
            out.append("=");
            write_expr(v, out);
            out.append(":");
            assert(out@ =~= old(out)@ + (expr_text(p@) + "="@ + expr_text(v@) + ":"@));
        },
        Action::OpSet(o, p, v) => {
            write_expr(p, out);
            out.append(o.to_str());
            out.append("=");
            write_expr(v, out);
            assert(out@ =~= old(out)@ + (expr_text(p@) + op_text(*o) + "="@ + expr_text(v@)));
        },
        Action::Assign(p, v) => {
            write_expr(p, out);
            out.append("=");
            write_expr(v, out);
            assert(out@ =~= old(out)@ + (expr_text(p@) + "="@ + expr_text(v@)));
        },
        Action::AddItem(n, id) => {
            out.append("+");
            let s = isize_to_string(*n);
            out.append(s.as_str());
            out.append(" ");
            out.append(id.as_str());
            assert(out@ =~= old(out)@ + ("+"@ + int_digits(*n as int) + " "@ + id@));
        },
        Action::RemItem(n, id) => {
            out.append("-");
            let s = isize_to_string(*n);
            out.append(s.as_str());
            out.append(" ");
            out.append(id.as_str());
            assert(out@ =~= old(out)@ + ("-"@ + int_digits(*n as int) + " "@ + id@));
        },
        Action::Resolve(e) => {
            write_expr(e, out);
        },
        Action::Return(e) => {
            out.append("return ");
            write_expr(e, out);
            assert(out@ =~= old(out)@ + ("return "@ + expr_text(e@)));
        },
    }
}

impl Expr {
    /// The text of the expression, as it is written in the language.
    pub fn print(&self) -> (r: String)
        ensures
            r@ == expr_text(self@),
    {
        let mut out = String::new();
        write_expr(self, &mut out);
        assert(out@ =~= expr_text(self@));
        out
    }
}

/// The debug form of a list of strings, as `format!("{:?}", ..)` writes
/// it for a `Vec<String>`: the strings between square brackets, each in
/// double quotes with its special characters escaped, with a comma and a
/// blank between them.
pub uninterp spec fn debug_names(names: Seq<Seq<char>>) -> Seq<char>;

/// `format!("{:?}", names)` on a `Vec<String>` writes the debug form of
/// the list. The text depends on the strings alone; the contract gives it
/// its name and claims no more.
#[verifier::external_body]
fn names_debug_text(names: &Vec<String>) -> (r: String)
    ensures
        r@ == debug_names(strings_view(names@)),
{
    format!("{:?}", names)
}

/// `n` blanks.
pub open spec fn spaces(n: nat) -> Seq<char>
    decreases n,
{
    if n == 0 {
        Seq::empty()
    } else {
        spaces((n - 1) as nat).push(' ')
    }
}

/// One level deeper; the depth saturates.
pub open spec fn deeper(depth: usize) -> usize {
    if depth < usize::MAX {
        (depth + 1) as usize
    } else {
        depth
    }
}

/// The text of what the handle `h` names: of a value that is not there, a
/// word that says so; and dots where no handle is followed any more.
pub open spec fn handle_text(h: GenData, depth: usize, g: ArenaView, fuel: nat) -> Seq<char>
    decreases fuel, 0nat, 0nat,
{
    if fuel == 0 {
        "..."@
    } else {
        match g.get(h) {
            Some(v) => value_text(v, depth, g, (fuel - 1) as nat),
            None => "Freeed Pointer Err"@,
        }
    }
}

/// The elements `l[i..]` of a list as text, with commas between them.
pub open spec fn list_text(l: Seq<GenData>, i: nat, g: ArenaView, fuel: nat) -> Seq<char>
    decreases fuel, 1nat, l.len() - i,
{
    if i >= l.len() {
        Seq::empty()
    } else if i + 1 == l.len() {
        handle_text(l[i as int], 0, g, fuel)
    } else {
        handle_text(l[i as int], 0, g, fuel) + ","@ + list_text(l, i + 1, g, fuel)
    }
}

/// The bindings `t[i..]` of a map as text: each on a line of its own, with
/// `depth` blanks before it, as the key, a colon and the child, which is
/// written one level deeper. A child that is not there has the word that
/// says so for its whole line.
pub open spec fn tree_text(t: TreeView, i: nat, depth: usize, g: ArenaView, fuel: nat) -> Seq<char>
    decreases fuel, 1nat, t.len() - i,
{
    if i >= t.len() {
        Seq::empty()
    } else {
        "\n"@ + spaces(depth as nat) + (if g.live(t[i as int].1) {
            ProtoNode::text(t[i as int].0) + ":"@ + handle_text(t[i as int].1, deeper(depth), g, fuel)
        } else {
            "Freeed Pointer Err"@
        }) + tree_text(t, i + 1, depth, g, fuel)
    }
}

/// The text of a value.
pub open spec fn value_text(v: ValueView, depth: usize, g: ArenaView, fuel: nat) -> Seq<char>
    decreases fuel, 2nat, 0nat,
{
    match v {
        ValueView::Null => "NULL"@,
        ValueView::Bool(b) => if b {
            "true"@
        } else {
            "false"@
        },
        ValueView::Num(n) => int_digits(n as int),
        ValueView::Str(s) => "\""@ + s + "\""@,
        ValueView::Ref(h) => "$"@ + handle_text(h, 0, g, fuel),
        ValueView::List(l) => "["@ + list_text(l, 0, g, fuel) + "]"@,
        ValueView::Tree(t) => tree_text(t, 0, depth, g, fuel),
        ValueView::ExprDef(_, e) => expr_text(e),
        ValueView::FuncDef(p, _) => "func"@ + debug_names(p),
    }
}

/// Appends how a function value is shown: the word `func`, then `names`,
/// the debug form of the list of its parameter names.
pub fn write_func(names: &str, out: &mut String)
    ensures
        final(out)@ == old(out)@ + ("func"@ + names@),
{
    out.append("func");
    out.append(names);
    assert(out@ =~= old(out)@ + ("func"@ + names@));
}

/// Appends `n` blanks.
pub fn write_spaces(n: usize, out: &mut String)
    ensures
        final(out)@ == old(out)@ + spaces(n as nat),
{
    let mut i: usize = 0;
    assert(out@ =~= old(out)@ + spaces(0));
    while i < n
        invariant
            i <= n,
            out@ == old(out)@ + spaces(i as nat),
        decreases n - i,
    {
        out.push(' ');
        i += 1;
        assert(out@ =~= old(out)@ + spaces(i as nat));
    }
}

/// Appends the text of what the handle `h` names.
pub fn write_handle(h: &GenData, depth: usize, gm: &GenManager, fuel: usize, out: &mut String)
    ensures
        final(out)@ == old(out)@ + handle_text(*h, depth, gm@, fuel as nat),
    decreases fuel, 0nat, 0nat,
{
    if fuel == 0 {
        out.append("...");
        return ;
    }
    match gm.get(h) {
        Some(v) => write_value(v, depth, gm, fuel - 1, out),
        None => {
            out.append("Freeed Pointer Err");
        },
    }
}

/// Appends the elements `l[i..]` of a list, with commas between them.
pub fn write_list(l: &Vec<GenData>, i: usize, gm: &GenManager, fuel: usize, out: &mut String)
    ensures
        final(out)@ == old(out)@ + list_text(l@, i as nat, gm@, fuel as nat),
    decreases fuel, 1nat, 0nat,
{
    let mut k: usize = i;
    assert(out@ + list_text(l@, i as nat, gm@, fuel as nat) =~= old(out)@ + list_text(
        l@,
        i as nat,
        gm@,
        fuel as nat,
    ));
    while k < l.len()
        invariant
            out@ + list_text(l@, k as nat, gm@, fuel as nat) == old(out)@ + list_text(
                l@,
                i as nat,
                gm@,
                fuel as nat,
            ),
        decreases l@.len() - k,
    {
        let ghost before = out@;
        let ghost rest = list_text(l@, (k + 1) as nat, gm@, fuel as nat);
        let ghost head = handle_text(l@[k as int], 0, gm@, fuel as nat);
        write_handle(&l[k], 0, gm, fuel, out);
        if k + 1 < l.len() {
            out.append(",");
            assert(out@ + rest =~= before + (head + ","@ + rest));
        } else {
            assert(rest =~= Seq::<char>::empty());
            assert(out@ + rest =~= before + head);
        }
        k += 1;
    }
    assert(out@ + Seq::<char>::empty() =~= out@);
}

/// Appends the bindings `t[i..]` of a map, each on a line of its own.
pub fn write_tree(
    t: &RefTree,
    i: usize,
    depth: usize,
    gm: &GenManager,
    fuel: usize,
    out: &mut String,
)
    ensures
        final(out)@ == old(out)@ + tree_text(t@, i as nat, depth, gm@, fuel as nat),
    decreases fuel, 1nat, 0nat,
{
    let mut k: usize = i;
    assert(out@ + tree_text(t@, i as nat, depth, gm@, fuel as nat) =~= old(out)@ + tree_text(
        t@,
        i as nat,
        depth,
        gm@,
        fuel as nat,
    ));
    while k < t.entries.len()
        invariant
            t@.len() == t.entries@.len(),
            out@ + tree_text(t@, k as nat, depth, gm@, fuel as nat) == old(out)@ + tree_text(
                t@,
                i as nat,
                depth,
                gm@,
                fuel as nat,
            ),
        decreases t.entries@.len() - k,
    {
        let ghost before = out@;
        let ghost rest = tree_text(t@, (k + 1) as nat, depth, gm@, fuel as nat);
        let e = &t.entries[k];
        assert(t@[k as int] == (e.key@, e.val));
        out.append("\n");
        write_spaces(depth, out);
        let ghost head = "\n"@ + spaces(depth as nat);
        assert(out@ =~= before + head);
        let d2: usize = if depth < usize::MAX {
            depth + 1
        } else {
            depth
        };
        let ghost line = if gm@.live(e.val) {
            ProtoNode::text(e.key@) + ":"@ + handle_text(e.val, deeper(depth), gm@, fuel as nat)
        } else {
            "Freeed Pointer Err"@
        };
        if gm.get(&e.val).is_some() {
            let key = e.key.as_string();
            out.append(key.as_str());
            out.append(":");
            write_handle(&e.val, d2, gm, fuel, out);
            assert(out@ =~= before + head + line);
        } else {
            out.append("Freeed Pointer Err");
            assert(out@ =~= before + head + line);
        }
        assert(out@ + rest =~= before + (head + line + rest));
        k += 1;
    }
    assert(out@ + Seq::<char>::empty() =~= out@);
}

/// Appends the text of the value `v`.
pub fn write_value(v: &Value, depth: usize, gm: &GenManager, fuel: usize, out: &mut String)
    ensures
        final(out)@ == old(out)@ + value_text(v@, depth, gm@, fuel as nat),
    decreases fuel, 2nat, 0nat,
{
    match v {
        Value::Null => {
            out.append("NULL");
        },
        Value::Bool(b) => {
            if *b {
                out.append("true");
            } else {
                out.append("false");
            }
        },
        Value::Num(n) => {
            let s = isize_to_string(*n);
            out.append(s.as_str());
        },
        Value::Str(s) => {
            out.append("\"");
            out.append(s.as_str());
            out.append("\"");
            assert(out@ =~= old(out)@ + ("\""@ + s@ + "\""@));
        },
        Value::Ref(h) => {
            out.append("$");
            write_handle(h, 0, gm, fuel, out);
            assert(out@ =~= old(out)@ + ("$"@ + handle_text(*h, 0, gm@, fuel as nat)));
        },
        Value::List(l) => {
            out.append("[");
            write_list(l, 0, gm, fuel, out);
            out.append("]");
            assert(out@ =~= old(out)@ + ("["@ + list_text(l@, 0, gm@, fuel as nat) + "]"@));
        },
        Value::Tree(t) => {
            write_tree(t, 0, depth, gm, fuel, out);
        },
        Value::ExprDef(_, e) => {
            write_expr(e, out);
        },
        Value::FuncDef(p, _) => {
            let names = names_debug_text(p);
            write_func(names.as_str(), out);
        },
    }
}

impl Value {
    /// The text of the value, with the bindings of maps indented from
    /// `depth` on.
    pub fn print(&self, depth: usize, gm: &GenManager) -> (r: String)
        ensures
            r@ == value_text(self@, depth, gm@, MAX_PRINT_DEPTH as nat),
    {
        let mut out = String::new();
        write_value(self, depth, gm, MAX_PRINT_DEPTH, &mut out);
        assert(out@ =~= value_text(self@, depth, gm@, MAX_PRINT_DEPTH as nat));
        out
    }
}

} // verus!
