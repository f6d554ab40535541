//! The grammar of the language, read from tokens.

use vstd::prelude::*;
use crate::action::{Action, ActionView, actions_model};
use crate::expr::{
    Expr, ExprView, MapItem, MapItemView, Op, add_left_spec, exprs_model, items_model,
};
use crate::text::str_is;
use crate::text::strings_view;
use crate::token::{Token, TokenView};

verus! {

/// How deep expressions may stand inside one another in a statement that
/// is read at the top.
pub const MAX_NEST: usize = 120;

/// The mathematical values of a sequence of tokens, element by element.
pub open spec fn tokens_view(l: Seq<Token>) -> Seq<TokenView> {
    Seq::new(l.len(), |i: int| l[i]@)
}

/// The token at `pos`, if the position is within the tokens.
pub open spec fn tok_at(toks: Seq<TokenView>, pos: nat) -> Option<TokenView> {
    if pos < toks.len() {
        Some(toks[pos as int])
    } else {
        None
    }
}

/// Whether the token at `pos` is `t`.
pub open spec fn is_at(toks: Seq<TokenView>, pos: nat, t: TokenView) -> bool {
    tok_at(toks, pos) == Some(t)
}

/// Whether the token at `pos` is the name `w`.
pub open spec fn word_at(toks: Seq<TokenView>, pos: nat, w: Seq<char>) -> bool {
    tok_at(toks, pos) == Some(TokenView::Ident(w))
}

/// The operator that starts at `pos`, with the position after it. Equality
/// is spelled with two equals signs.
pub open spec fn parse_op(toks: Seq<TokenView>, pos: nat) -> Option<(Op, nat)> {
    match tok_at(toks, pos) {
        Some(TokenView::Add) => Some((Op::Add, pos + 1)),
        Some(TokenView::Sub) => Some((Op::Sub, pos + 1)),
        Some(TokenView::Mul) => Some((Op::Mul, pos + 1)),
        Some(TokenView::Div) => Some((Op::Div, pos + 1)),
        Some(TokenView::Dot) => Some((Op::Dot, pos + 1)),
        Some(TokenView::Greater) => Some((Op::Greater, pos + 1)),
        Some(TokenView::Less) => Some((Op::Less, pos + 1)),
        Some(TokenView::Equals) => if is_at(toks, pos + 1, TokenView::Equals) {
            Some((Op::Equal, pos + 2))
        } else {
            None
        },
        _ => None,
    }
}

/// A mark before a path: a dot, a colon or a dollar.
#[derive(Debug, Clone, Copy, PartialEq, Eq, Structural)]
pub enum Mark {
    Dot,
    Root,
    Deref,
}

/// The expression `e` under the mark `m`.
pub open spec fn marked(e: ExprView, m: Mark) -> ExprView {
    match m {
        Mark::Dot => ExprView::DotStart(Box::new(e)),
        Mark::Root => ExprView::Rooted(Box::new(e)),
        Mark::Deref => ExprView::Deref(Box::new(e)),
    }
}

/// The expression `e`, which was read behind the mark `m`, with the mark
/// put where it belongs: on the path at the left edge of `e`, below every
/// operator other than the dot, and on the path of the function where that
/// edge is a call.
pub open spec fn mark_path(e: ExprView, m: Mark) -> ExprView
    decreases e,
{
    match e {
        ExprView::Oper(o, a, b) => if o == Op::Dot {
            marked(e, m)
        } else {
            ExprView::Oper(o, Box::new(mark_path(*a, m)), b)
        },
        ExprView::Call(f, args) => ExprView::Call(Box::new(mark_path(*f, m)), args),
        _ => marked(e, m),
    }
}

/// The names from `pos` up to a closing bracket, with commas between them,
/// after `acc`; with the position after the bracket.
pub open spec fn parse_params(toks: Seq<TokenView>, pos: nat, acc: Seq<Seq<char>>) -> Option<
    (Seq<Seq<char>>, nat),
>
    decreases toks.len() - pos,
{
    match tok_at(toks, pos) {
        Some(TokenView::BracketC) => Some((acc, pos + 1)),
        Some(TokenView::Ident(name)) => match tok_at(toks, pos + 1) {
            Some(TokenView::Comma) => parse_params(toks, pos + 2, acc.push(name)),
            Some(TokenView::BracketC) => Some((acc.push(name), pos + 2)),
            _ => None,
        },
        _ => None,
    }
}

/// The expressions from `pos` up to the token `close`, with commas between
/// them, after `acc`; with the position after `close`.
pub open spec fn parse_exprs(toks: Seq<TokenView>, pos: nat, close: TokenView, acc: Seq<ExprView>, nest: nat) -> Option<
    (Seq<ExprView>, nat),
>
    decreases toks.len() - pos, 6nat,
{
    if is_at(toks, pos, close) {
        Some((acc, pos + 1))
    } else {
        match parse_expr(toks, pos, nest) {
            None => None,
            Some((e, p1)) => if p1 <= pos {
                None
            } else if is_at(toks, p1, TokenView::Comma) {
                parse_exprs(toks, p1 + 1, close, acc.push(e), nest)
            } else if is_at(toks, p1, close) {
                Some((acc.push(e), p1 + 1))
            } else {
                None
            },
        }
    }
}

/// The entries of a map literal from `pos` up to the closing brace, after
/// `acc`: each a name, a colon and an expression, with an optional comma
/// behind it; with the position after the brace.
pub open spec fn parse_items(toks: Seq<TokenView>, pos: nat, acc: Seq<MapItemView>, nest: nat) -> Option<
    (Seq<MapItemView>, nat),
>
    decreases toks.len() - pos, 6nat,
{
    match tok_at(toks, pos) {
        Some(TokenView::SquigleC) => Some((acc, pos + 1)),
        Some(TokenView::Ident(k)) => if is_at(toks, pos + 1, TokenView::Colon) {
            match parse_expr(toks, pos + 2, nest) {
                None => None,
                Some((e, p1)) => if p1 <= pos || p1 > toks.len() {
                    None
                } else if is_at(toks, p1, TokenView::Comma) {
                    parse_items(toks, p1 + 1, acc.push(MapItemView { k: k, v: e }), nest)
                } else {
                    parse_items(toks, p1, acc.push(MapItemView { k: k, v: e }), nest)
                },
            }
        } else {
            None
        },
        _ => None,
    }
}

/// The block that starts at `pos`: statements between braces.
pub open spec fn parse_block(toks: Seq<TokenView>, pos: nat, nest: nat) -> Option<(Seq<ActionView>, nat)>
    decreases toks.len() - pos, 8nat,
{
    if is_at(toks, pos, TokenView::SquigleO) {
        parse_statements(toks, pos + 1, Seq::empty(), true, nest)
    } else {
        None
    }
}

/// The statements from `pos` on, after `acc`: up to the closing brace of a
/// block, or up to the end of the tokens at the top. Statements are parted
/// by line ends and semicolons, of which any number may stand anywhere.
pub open spec fn parse_statements(toks: Seq<TokenView>, pos: nat, acc: Seq<ActionView>, in_block: bool, nest: nat) -> Option<
    (Seq<ActionView>, nat),
>
    decreases toks.len() - pos, 7nat,
{
    match tok_at(toks, pos) {
        None => if in_block {
            None
        } else {
            Some((acc, pos))
        },
        Some(TokenView::Break) => parse_statements(toks, pos + 1, acc, in_block, nest),
        Some(t) => if in_block && t == TokenView::SquigleC {
            Some((acc, pos + 1))
        } else {
            match parse_action(toks, pos, nest) {
                None => None,
                Some((a, p1)) => if p1 <= pos || p1 > toks.len() {
                    None
                } else if ends_statement(toks, p1, in_block) {
                    parse_statements(toks, p1, acc.push(a), in_block, nest)
                } else {
                    None
                },
            }
        },
    }
}

/// Whether a statement can end before `pos`: at a line end or a semicolon,
/// before the closing brace of a block, or at the end of the tokens at the
/// top.
pub open spec fn ends_statement(toks: Seq<TokenView>, pos: nat, in_block: bool) -> bool {
    match tok_at(toks, pos) {
        None => !in_block,
        Some(TokenView::Break) => true,
        Some(TokenView::SquigleC) => in_block,
        _ => false,
    }
}

/// The expression without a binary operator at its top that starts at
/// `pos`, with the position after it.
pub open spec fn parse_primary(toks: Seq<TokenView>, pos: nat, nest: nat) -> Option<(ExprView, nat)>
    decreases toks.len() - pos, 3nat,
{
    match tok_at(toks, pos) {
        None => None,
        Some(TokenView::True) => Some((ExprView::Bool(true), pos + 1)),
        Some(TokenView::False) => Some((ExprView::Bool(false), pos + 1)),
        Some(TokenView::Num(n)) => Some((ExprView::Num(n as int), pos + 1)),
        Some(TokenView::Qoth(s)) => Some((ExprView::Str(s), pos + 1)),
        Some(TokenView::Dot) => match parse_expr(toks, pos + 1, nest) {
            Some((e, p)) => Some((mark_path(e, Mark::Dot), p)),
            None => None,
        },
        Some(TokenView::Colon) => match parse_expr(toks, pos + 1, nest) {
            Some((e, p)) => Some((mark_path(e, Mark::Root), p)),
            None => None,
        },
        Some(TokenView::Dollar) => match parse_expr(toks, pos + 1, nest) {
            Some((e, p)) => Some((mark_path(e, Mark::Deref), p)),
            None => None,
        },
        Some(TokenView::Sub) => if nest == 0 {
            None
        } else {
            match parse_primary(toks, pos + 1, (nest - 1) as nat) {
                Some((e, p)) => Some((ExprView::Neg(Box::new(e)), p)),
                None => None,
            }
        },
        Some(TokenView::BracketO) => match parse_expr(toks, pos + 1, nest) {
            Some((e, p)) => if is_at(toks, p, TokenView::BracketC) {
                Some((ExprView::Bracket(Box::new(e)), p + 1))
            } else {
                None
            },
            None => None,
        },
        Some(TokenView::SquareO) => parse_list(toks, pos, nest),
        Some(TokenView::SquigleO) => parse_map(toks, pos, nest),
        Some(TokenView::Fn) => parse_func_def(toks, pos, nest),
        Some(TokenView::Expr) => parse_expr_def(toks, pos, nest),
        Some(TokenView::Ident(name)) => if parse_if(toks, pos, nest) is Some {
            parse_if(toks, pos, nest)
        } else {
            parse_call_or_name(toks, pos, nest)
        },
        _ => None,
    }
}

/// The condition that starts at `pos` with the word `if`: an expression,
/// a block, and after the word `else` another block.
pub open spec fn parse_if(toks: Seq<TokenView>, pos: nat, nest: nat) -> Option<(ExprView, nat)>
    decreases toks.len() - pos, 2nat,
{
    if !word_at(toks, pos, "if"@) {
        None
    } else {
        match parse_expr(toks, pos + 1, nest) {
            None => None,
            Some((c, p)) => if p <= pos || p > toks.len() {
                None
            } else {
                match parse_block(toks, p, nest) {
                    None => None,
                    Some((t, p2)) => if p2 <= pos {
                        None
                    } else if word_at(toks, p2, "else"@) {
                        match parse_block(toks, p2 + 1, nest) {
                            Some((el, p3)) => Some((ExprView::If(Box::new(c), t, el), p3)),
                            None => None,
                        }
                    } else {
                        Some((ExprView::If(Box::new(c), t, Seq::empty()), p2))
                    },
                }
            },
        }
    }
}

/// The expression that starts at `pos`, with the position after it: one
/// without a binary operator at its top, then as often as it can be read an
/// operator and an expression, which are joined by rank. Each expression
/// inside another, and each further operator, takes one level of the
/// nesting `nest` that is left; with none left nothing is read.
pub open spec fn parse_expr(toks: Seq<TokenView>, pos: nat, nest: nat) -> Option<(ExprView, nat)>
    decreases toks.len() - pos, 4nat,
{
    if nest == 0 {
        None
    } else {
        match parse_primary(toks, pos, (nest - 1) as nat) {
            None => None,
            Some((l, p1)) => if p1 <= pos {
                None
            } else {
                match parse_op(toks, p1) {
                    None => Some((l, p1)),
                    Some((o, p2)) => match parse_expr(toks, p2, (nest - 1) as nat) {
                        None => Some((l, p1)),
                        Some((re, p3)) => Some((add_left_spec(re, l, o), p3)),
                    },
                }
            },
        }
    }
}

/// The statement that starts at `pos`, with the position after it. A sign,
/// an optional number and a name change a counter. The word `return` and
/// an expression return its value. An expression and a colon select it; an
/// expression, an operator, an equals sign and an expression change what it
/// names; an expression, an equals sign and an expression write to it, and
/// select it too where a colon follows. Any other expression is resolved.
pub open spec fn parse_action(toks: Seq<TokenView>, pos: nat, nest: nat) -> Option<(ActionView, nat)>
    decreases toks.len() - pos, 5nat,
{
    match parse_counter(toks, pos) {
        Some(r) => Some(r),
        None => if word_at(toks, pos, "return"@) && parse_expr(toks, pos + 1, nest) is Some {
            Some(
                (ActionView::Return((parse_expr(toks, pos + 1, nest)->0).0), (parse_expr(toks, pos + 1, nest)->0).1),
            )
        } else {
            match parse_expr(toks, pos, nest) {
                None => None,
                Some((l, p1)) => if p1 <= pos || p1 > toks.len() {
                    None
                } else {
                    parse_rest(toks, l, p1, nest)
                },
            }
        },
    }
}

/// The change of a counter that starts at `pos`.
pub open spec fn parse_counter(toks: Seq<TokenView>, pos: nat) -> Option<(ActionView, nat)> {
    match tok_at(toks, pos) {
        Some(TokenView::Add) => match (tok_at(toks, pos + 1), tok_at(toks, pos + 2)) {
            (Some(TokenView::Num(n)), Some(TokenView::Ident(id))) => if n == i32::MIN {
                None
            } else {
                Some((ActionView::AddItem(n as int, id), pos + 3))
            },
            (Some(TokenView::Ident(id)), _) => Some((ActionView::AddItem(1, id), pos + 2)),
            _ => None,
        },
        Some(TokenView::Sub) => match (tok_at(toks, pos + 1), tok_at(toks, pos + 2)) {
            (Some(TokenView::Num(n)), Some(TokenView::Ident(id))) => if n == i32::MIN {
                None
            } else {
                Some((ActionView::AddItem(-(n as int), id), pos + 3))
            },
            (Some(TokenView::Ident(id)), _) => Some((ActionView::AddItem(-1, id), pos + 2)),
            _ => None,
        },
        _ => None,
    }
}

/// What follows the first expression `l` of a statement, from `p1` on.
pub open spec fn parse_rest(toks: Seq<TokenView>, l: ExprView, p1: nat, nest: nat) -> Option<(ActionView, nat)>
    decreases toks.len() - p1, 5nat,
{
    if is_at(toks, p1, TokenView::Colon) {
        Some((ActionView::Select(l), p1 + 1))
    } else if parse_op(toks, p1) is Some && is_at(toks, (parse_op(toks, p1)->0).1, TokenView::Equals)
        && parse_expr(toks, (parse_op(toks, p1)->0).1 + 1, nest) is Some {
        let o = parse_op(toks, p1)->0;
        let r = parse_expr(toks, o.1 + 1, nest)->0;
        Some((ActionView::OpSet(o.0, l, r.0), r.1))
    } else if is_at(toks, p1, TokenView::Equals) && parse_expr(toks, p1 + 1, nest) is Some {
        let r = parse_expr(toks, p1 + 1, nest)->0;
        if is_at(toks, r.1, TokenView::Colon) {
            Some((ActionView::SetSelect(l, r.0), r.1 + 1))
        } else {
            Some((ActionView::Assign(l, r.0), r.1))
        }
    } else {
        Some((ActionView::Resolve(l), p1))
    }
}

/// The mathematical value of what a parser returns for an expression.
pub open spec fn expr_result(r: Option<(Expr, usize)>) -> Option<(ExprView, nat)> {
    match r {
        Some(x) => Some((x.0@, x.1 as nat)),
        None => None,
    }
}

/// The mathematical value of what a parser returns for a statement.
pub open spec fn action_result(r: Option<(Action, usize)>) -> Option<(ActionView, nat)> {
    match r {
        Some(x) => Some((x.0@, x.1 as nat)),
        None => None,
    }
}

/// The mathematical value of what a parser returns for statements.
pub open spec fn actions_result(r: Option<(Vec<Action>, usize)>) -> Option<
    (Seq<ActionView>, nat),
> {
    match r {
        Some(x) => Some((actions_model(x.0@), x.1 as nat)),
        None => None,
    }
}

/// The mathematical value of what a parser returns for expressions.
pub open spec fn exprs_result(r: Option<(Vec<Expr>, usize)>) -> Option<(Seq<ExprView>, nat)> {
    match r {
        Some(x) => Some((exprs_model(x.0@), x.1 as nat)),
        None => None,
    }
}

/// Whether a parser that succeeded stayed within the tokens.
pub open spec fn within<T>(r: Option<(T, usize)>, len: usize) -> bool {
    r is Some ==> (r->0).1 <= len
}

/// Whether the token at `pos` is `t`.
pub fn at(toks: &Vec<Token>, pos: usize, t: &Token) -> (r: bool)
    ensures
        r == is_at(tokens_view(toks@), pos as nat, t@),
        r ==> pos < toks.len(),
{
    pos < toks.len() && toks[pos].same(t)
}

/// Whether the token at `pos` is the name `w`.
pub fn word(toks: &Vec<Token>, pos: usize, w: &str) -> (r: bool)
    ensures
        r == word_at(tokens_view(toks@), pos as nat, w@),
        r ==> pos < toks.len(),
{
    if pos >= toks.len() {
        return false;
    }
    match &toks[pos] {
        Token::Ident(s) => str_is(s.as_str(), w),
        _ => false,
    }
}

/// Whether a statement can end before `pos`.
pub fn l_break(toks: &Vec<Token>, pos: usize, in_block: bool) -> (r: bool)
    ensures
        r == ends_statement(tokens_view(toks@), pos as nat, in_block),
{
    if pos >= toks.len() {
        return !in_block;
    }
    match &toks[pos] {
        Token::Break => true,
        Token::SquigleC => in_block,
        _ => false,
    }
}

/// Puts the mark `m`, behind which `e` was read, where it belongs.
pub fn mark(e: Expr, m: Mark) -> (r: Expr)
    ensures
        r@ == mark_path(e@, m),
    decreases e,
{
    match e {
        Expr::Oper(o, a, b) => {
            if o == Op::Dot {
                wrap(Expr::Oper(o, a, b), m)
            } else {
                Expr::Oper(o, Box::new(mark(*a, m)), b)
            }
        },
        Expr::Call(f, args) => Expr::Call(Box::new(mark(*f, m)), args),
        other => wrap(other, m),
    }
}

/// The expression `e` under the mark `m`.
pub fn wrap(e: Expr, m: Mark) -> (r: Expr)
    ensures
        r@ == marked(e@, m),
{
    match m {
        Mark::Dot => Expr::DotStart(Box::new(e)),
        Mark::Root => Expr::Rooted(Box::new(e)),
        Mark::Deref => Expr::Deref(Box::new(e)),
    }
}

/// Reads the operator that starts at `pos`.
pub fn op(toks: &Vec<Token>, pos: usize) -> (r: Option<(Op, usize)>)
    ensures
        match r {
            Some(x) => parse_op(tokens_view(toks@), pos as nat) == Some((x.0, x.1 as nat)),
            None => parse_op(tokens_view(toks@), pos as nat) is None,
        },
        within(r, toks.len()),
        r is Some ==> (r->0).1 > pos,
{
    if pos >= toks.len() {
        return None;
    }
    match &toks[pos] {
        Token::Add => Some((Op::Add, pos + 1)),
        Token::Sub => Some((Op::Sub, pos + 1)),
        Token::Mul => Some((Op::Mul, pos + 1)),
        Token::Div => Some((Op::Div, pos + 1)),
        Token::Dot => Some((Op::Dot, pos + 1)),
        Token::Greater => Some((Op::Greater, pos + 1)),
        Token::Less => Some((Op::Less, pos + 1)),
        Token::Equals => {
            if at(toks, pos + 1, &Token::Equals) {
                Some((Op::Equal, pos + 2))
            } else {
                None
            }
        },
        _ => None,
    }
}

/// Reads the names of parameters from `pos` up to a closing bracket.
pub fn params(toks: &Vec<Token>, pos: usize, acc: Vec<String>) -> (r: Option<(Vec<String>, usize)>)
    requires
        pos <= toks.len(),
    ensures
        match r {
            Some(x) => parse_params(tokens_view(toks@), pos as nat, strings_view(acc@)) == Some(
                (strings_view(x.0@), x.1 as nat),
            ),
            None => parse_params(tokens_view(toks@), pos as nat, strings_view(acc@)) is None,
        },
        within(r, toks.len()),
        r is Some ==> (r->0).1 > pos,
{
    let ghost start = strings_view(acc@);
    let mut out = acc;
    let mut p: usize = pos;
    loop
        invariant
            pos <= p <= toks.len(),
            start == strings_view(acc@),
            parse_params(tokens_view(toks@), p as nat, strings_view(out@)) == parse_params(
                tokens_view(toks@),
                pos as nat,
                start,
            ),
        decreases toks.len() - p,
    {
        if p >= toks.len() {
            return None;
        }
        match &toks[p] {
            Token::BracketC => {
                return Some((out, p + 1));
            },
            Token::Ident(name) => {
                if p + 1 >= toks.len() {
                    return None;
                }
                let ghost before = strings_view(out@);
                match &toks[p + 1] {
                    Token::Comma => {
                        out.push(name.clone());
                        assert(strings_view(out@) =~= before.push(name@));
                        p += 2;
                    },
                    Token::BracketC => {
                        out.push(name.clone());
                        assert(strings_view(out@) =~= before.push(name@));
                        return Some((out, p + 2));
                    },
                    _ => {
                        return None;
                    },
                }
            },
            _ => {
                return None;
            },
        }
    }
}

/// Reads expressions from `pos` up to the token `close`.
pub fn exprs(toks: &Vec<Token>, pos: usize, close: &Token, acc: Vec<Expr>, nest: usize) -> (r: Option<
    (Vec<Expr>, usize),
>)
    requires
        pos <= toks.len(),
    ensures
        exprs_result(r) == parse_exprs(tokens_view(toks@), pos as nat, close@, exprs_model(acc@), nest as nat),
        within(r, toks.len()),
        r is Some ==> (r->0).1 > pos,
    decreases toks.len() - pos, 6nat,
{
    let ghost start = exprs_model(acc@);
    let mut out = acc;
    let mut p: usize = pos;
    loop
        invariant
            pos <= p <= toks.len(),
            start == exprs_model(acc@),
            parse_exprs(tokens_view(toks@), p as nat, close@, exprs_model(out@), nest as nat) == parse_exprs(
                tokens_view(toks@),
                pos as nat,
                close@,
                start,
                nest as nat,
            ),
        decreases toks.len() - p,
    {
        if at(toks, p, close) {
            return Some((out, p + 1));
        }
        match p_expr(toks, p, nest) {
            None => {
                return None;
            },
            Some((e, p1)) => {
                if p1 <= p {
                    return None;
                }
                let ghost before = exprs_model(out@);
                let ghost ev = e@;
                if at(toks, p1, &Token::Comma) {
                    out.push(e);
                    assert(exprs_model(out@) =~= before.push(ev));
                    p = p1 + 1;
                } else if at(toks, p1, close) {
                    out.push(e);
                    assert(exprs_model(out@) =~= before.push(ev));
                    return Some((out, p1 + 1));
                } else {
                    return None;
                }
            },
        }
    }
}

/// Reads the entries of a map literal from `pos` up to the closing brace.
pub fn items(toks: &Vec<Token>, pos: usize, acc: Vec<MapItem>, nest: usize) -> (r: Option<(Vec<MapItem>, usize)>)
    requires
        pos <= toks.len(),
    ensures
        match r {
            Some(x) => parse_items(tokens_view(toks@), pos as nat, items_model(acc@), nest as nat) == Some(
                (items_model(x.0@), x.1 as nat),
            ),
            None => parse_items(tokens_view(toks@), pos as nat, items_model(acc@), nest as nat) is None,
        },
        within(r, toks.len()),
        r is Some ==> (r->0).1 > pos,
    decreases toks.len() - pos, 6nat,
{
    let ghost start = items_model(acc@);
    let mut out = acc;
    let mut p: usize = pos;
    loop
        invariant
            pos <= p <= toks.len(),
            start == items_model(acc@),
            parse_items(tokens_view(toks@), p as nat, items_model(out@), nest as nat) == parse_items(
                tokens_view(toks@),
                pos as nat,
                start,
                nest as nat,
            ),
        decreases toks.len() - p,
    {
        if p >= toks.len() {
            return None;
        }
        match &toks[p] {
            Token::SquigleC => {
                return Some((out, p + 1));
            },
            Token::Ident(k) => {
                if !at(toks, p + 1, &Token::Colon) {
                    return None;
                }
                match p_expr(toks, p + 2, nest) {
                    None => {
                        return None;
                    },
                    Some((e, p1)) => {
                        if p1 <= p {
                            return None;
                        }
                        let ghost before = items_model(out@);
                        let ghost ev = e@;
                        out.push(MapItem { k: k.clone(), v: e });
                        assert(items_model(out@) =~= before.push(MapItemView { k: k@, v: ev }));
                        if at(toks, p1, &Token::Comma) {
                            p = p1 + 1;
                        } else {
                            p = p1;
                        }
                    },
                }
            },
            _ => {
                return None;
            },
        }
    }
}

/// Reads the block that starts at `pos`.
pub fn block(toks: &Vec<Token>, pos: usize, nest: usize) -> (r: Option<(Vec<Action>, usize)>)
    requires
        pos <= toks.len(),
    ensures
        actions_result(r) == parse_block(tokens_view(toks@), pos as nat, nest as nat),
        within(r, toks.len()),
        r is Some ==> (r->0).1 > pos,
    decreases toks.len() - pos, 8nat,
{
    if at(toks, pos, &Token::SquigleO) {
        let acc: Vec<Action> = Vec::new();
        assert(actions_model(acc@) =~= Seq::<ActionView>::empty());
        statements(toks, pos + 1, acc, true, nest)
    } else {
        None
    }
}

/// Reads statements from `pos` on: up to the closing brace of a block, or
/// up to the end of the tokens at the top.
pub fn statements(toks: &Vec<Token>, pos: usize, acc: Vec<Action>, in_block: bool, nest: usize) -> (r: Option<
    (Vec<Action>, usize),
>)
    requires
        pos <= toks.len(),
    ensures
        actions_result(r) == parse_statements(
            tokens_view(toks@),
            pos as nat,
            actions_model(acc@),
            in_block,
            nest as nat,
        ),
        within(r, toks.len()),
        r is Some ==> (r->0).1 >= pos,
        r is Some && in_block ==> (r->0).1 > pos,
    decreases toks.len() - pos, 7nat,
{
    let ghost start = actions_model(acc@);
    let mut out = acc;
    let mut p: usize = pos;
    loop
        invariant
            pos <= p <= toks.len(),
            start == actions_model(acc@),
            parse_statements(tokens_view(toks@), p as nat, actions_model(out@), in_block, nest as nat)
                == parse_statements(tokens_view(toks@), pos as nat, start, in_block, nest as nat),
        decreases toks.len() - p,
    {
        if p >= toks.len() {
            return if in_block {
                None
            } else {
                Some((out, p))
            };
        }
        match &toks[p] {
            Token::Break => {
                p += 1;
            },
            t => {
                if in_block && t.same(&Token::SquigleC) {
                    return Some((out, p + 1));
                }
                match pp_action(toks, p, nest) {
                    None => {
                        return None;
                    },
                    Some((a, p1)) => {
                        if p1 <= p {
                            return None;
                        }
                        if l_break(toks, p1, in_block) {
                            let ghost before = actions_model(out@);
                            let ghost av = a@;
                            out.push(a);
                            assert(actions_model(out@) =~= before.push(av));
                            p = p1;
                        } else {
                            return None;
                        }
                    },
                }
            },
        }
    }
}

/// Reads the condition that starts at `pos` with the word `if`.
pub fn if_clause(toks: &Vec<Token>, pos: usize, nest: usize) -> (r: Option<(Expr, usize)>)
    requires
        pos <= toks.len(),
    ensures
        expr_result(r) == parse_if(tokens_view(toks@), pos as nat, nest as nat),
        within(r, toks.len()),
        r is Some ==> (r->0).1 > pos,
    decreases toks.len() - pos, 2nat,
{
    if !word(toks, pos, "if") {
        return None;
    }
    match p_expr(toks, pos + 1, nest) {
        None => None,
        Some((c, p)) => {
            if p <= pos {
                return None;
            }
            match block(toks, p, nest) {
                None => None,
                Some((t, p2)) => {
                    if p2 <= pos {
                        return None;
                    }
                    if word(toks, p2, "else") {
                        match block(toks, p2 + 1, nest) {
                            Some((el, p3)) => Some((Expr::If(Box::new(c), t, el), p3)),
                            None => None,
                        }
                    } else {
                        let el: Vec<Action> = Vec::new();
                        assert(actions_model(el@) =~= Seq::<ActionView>::empty());
                        Some((Expr::If(Box::new(c), t, el), p2))
                    }
                },
            }
        },
    }
}

/// Reads the expression without a binary operator at its top that starts
/// at `pos`.
pub fn p_expr_l(toks: &Vec<Token>, pos: usize, nest: usize) -> (r: Option<(Expr, usize)>)
    requires
        pos <= toks.len(),
    ensures
        expr_result(r) == parse_primary(tokens_view(toks@), pos as nat, nest as nat),
        within(r, toks.len()),
        r is Some ==> (r->0).1 > pos,
    decreases toks.len() - pos, 3nat,
{
    if pos >= toks.len() {
        return None;
    }
    match &toks[pos] {
        Token::True => Some((Expr::Bool(true), pos + 1)),
        Token::False => Some((Expr::Bool(false), pos + 1)),
        Token::Num(n) => Some((Expr::Num(*n as isize), pos + 1)),
        Token::Qoth(s) => Some((Expr::Str(s.clone()), pos + 1)),
        Token::Dot => match p_expr(toks, pos + 1, nest) {
            Some((e, p)) => Some((mark(e, Mark::Dot), p)),
            None => None,
        },
        Token::Colon => match p_expr(toks, pos + 1, nest) {
            Some((e, p)) => Some((mark(e, Mark::Root), p)),
            None => None,
        },
        Token::Dollar => match p_expr(toks, pos + 1, nest) {
            Some((e, p)) => Some((mark(e, Mark::Deref), p)),
            None => None,
        },
        Token::Sub => {
            if nest == 0 {
                return None;
            }
            match p_expr_l(toks, pos + 1, nest - 1) {
                Some((e, p)) => Some((Expr::Neg(Box::new(e)), p)),
                None => None,
            }
        },
        Token::BracketO => match p_expr(toks, pos + 1, nest) {
            Some((e, p)) => {
                if at(toks, p, &Token::BracketC) {
                    Some((Expr::Bracket(Box::new(e)), p + 1))
                } else {
                    None
                }
            },
            None => None,
        },
        Token::SquareO => list(toks, pos, nest),
        Token::SquigleO => map(toks, pos, nest),
        Token::Fn => func_def(toks, pos, nest),
        Token::Expr => expr_def(toks, pos, nest),
        Token::Ident(name) => {
            let cond = if_clause(toks, pos, nest);
            if cond.is_some() {
                return cond;
            }
            call_or_name(toks, pos, nest)
        },
        _ => None,
    }
}

/// What the list literal that starts at `pos` is.
pub open spec fn parse_list(toks: Seq<TokenView>, pos: nat, nest: nat) -> Option<(ExprView, nat)>
    decreases toks.len() - pos, 1nat,
{
    if pos >= toks.len() {
        None
    } else {
        match parse_exprs(toks, pos + 1, TokenView::SquareC, Seq::empty(), nest) {
            Some((l, p)) => Some((ExprView::List(l), p)),
            None => None,
        }
    }
}

/// Reads the list literal that starts at `pos` with its opening bracket.
pub fn list(toks: &Vec<Token>, pos: usize, nest: usize) -> (r: Option<(Expr, usize)>)
    requires
        pos < toks.len(),
    ensures
        expr_result(r) == parse_list(tokens_view(toks@), pos as nat, nest as nat),
        within(r, toks.len()),
        r is Some ==> (r->0).1 > pos,
    decreases toks.len() - pos, 1nat,
{
    let acc: Vec<Expr> = Vec::new();
    assert(exprs_model(acc@) =~= Seq::<ExprView>::empty());
    match exprs(toks, pos + 1, &Token::SquareC, acc, nest) {
        Some((l, p)) => Some((Expr::List(l), p)),
        None => None,
    }
}

/// What the map literal that starts at `pos` is.
pub open spec fn parse_map(toks: Seq<TokenView>, pos: nat, nest: nat) -> Option<(ExprView, nat)>
    decreases toks.len() - pos, 1nat,
{
    if pos >= toks.len() {
        None
    } else {
        match parse_items(toks, pos + 1, Seq::empty(), nest) {
            Some((l, p)) => Some((ExprView::Tree(l), p)),
            None => None,
        }
    }
}

/// Reads the map literal that starts at `pos` with its opening brace.
pub fn map(toks: &Vec<Token>, pos: usize, nest: usize) -> (r: Option<(Expr, usize)>)
    requires
        pos < toks.len(),
    ensures
        expr_result(r) == parse_map(tokens_view(toks@), pos as nat, nest as nat),
        within(r, toks.len()),
        r is Some ==> (r->0).1 > pos,
    decreases toks.len() - pos, 1nat,
{
    let acc: Vec<MapItem> = Vec::new();
    assert(items_model(acc@) =~= Seq::<MapItemView>::empty());
    match items(toks, pos + 1, acc, nest) {
        Some((l, p)) => Some((Expr::Tree(l), p)),
        None => None,
    }
}

/// What the function definition that starts at `pos` is.
pub open spec fn parse_func_def(toks: Seq<TokenView>, pos: nat, nest: nat) -> Option<(ExprView, nat)>
    decreases toks.len() - pos, 1nat,
{
    if is_at(toks, pos + 1, TokenView::BracketO) {
        match parse_params(toks, pos + 2, Seq::empty()) {
            None => None,
            Some((names, p)) => if p <= pos || p > toks.len() {
                None
            } else {
                match parse_block(toks, p, nest) {
                    Some((b, p2)) => Some((ExprView::FuncDef(names, b), p2)),
                    None => None,
                }
            },
        }
    } else {
        None
    }
}

/// Reads the function definition that starts at `pos` with its keyword.
pub fn func_def(toks: &Vec<Token>, pos: usize, nest: usize) -> (r: Option<(Expr, usize)>)
    requires
        pos < toks.len(),
    ensures
        expr_result(r) == parse_func_def(tokens_view(toks@), pos as nat, nest as nat),
        within(r, toks.len()),
        r is Some ==> (r->0).1 > pos,
    decreases toks.len() - pos, 1nat,
{
    if !at(toks, pos + 1, &Token::BracketO) {
        return None;
    }
    let acc: Vec<String> = Vec::new();
    assert(strings_view(acc@) =~= Seq::<Seq<char>>::empty());
    match params(toks, pos + 2, acc) {
        None => None,
        Some((names, p)) => {
            if p <= pos {
                return None;
            }
            match block(toks, p, nest) {
                Some((b, p2)) => Some((Expr::FuncDef(names, b), p2)),
                None => None,
            }
        },
    }
}

/// What the stored expression that starts at `pos` is.
pub open spec fn parse_expr_def(toks: Seq<TokenView>, pos: nat, nest: nat) -> Option<(ExprView, nat)>
    decreases toks.len() - pos, 1nat,
{
    if is_at(toks, pos + 1, TokenView::BracketO) {
        match parse_expr(toks, pos + 2, nest) {
            Some((e, p)) => if is_at(toks, p, TokenView::BracketC) {
                Some((ExprView::ExprDef(Seq::empty(), Box::new(e)), p + 1))
            } else {
                None
            },
            None => None,
        }
    } else {
        None
    }
}

/// Reads the stored expression that starts at `pos` with its keyword.
pub fn expr_def(toks: &Vec<Token>, pos: usize, nest: usize) -> (r: Option<(Expr, usize)>)
    requires
        pos < toks.len(),
    ensures
        expr_result(r) == parse_expr_def(tokens_view(toks@), pos as nat, nest as nat),
        within(r, toks.len()),
        r is Some ==> (r->0).1 > pos,
    decreases toks.len() - pos, 1nat,
{
    if !at(toks, pos + 1, &Token::BracketO) {
        return None;
    }
    match p_expr(toks, pos + 2, nest) {
        Some((e, p)) => {
            if at(toks, p, &Token::BracketC) {
                let names: Vec<String> = Vec::new();
                assert(strings_view(names@) =~= Seq::<Seq<char>>::empty());
                Some((Expr::ExprDef(names, Box::new(e)), p + 1))
            } else {
                None
            }
        },
        None => None,
    }
}

/// What the name that starts at `pos` is, with the arguments of a call
/// where a bracket follows it.
pub open spec fn parse_call_or_name(toks: Seq<TokenView>, pos: nat, nest: nat) -> Option<(ExprView, nat)>
    decreases toks.len() - pos, 1nat,
{
    match tok_at(toks, pos) {
        Some(TokenView::Ident(name)) => if is_at(toks, pos + 1, TokenView::BracketO) {
            match parse_exprs(toks, pos + 2, TokenView::BracketC, Seq::empty(), nest) {
                Some((args, p)) => Some(
                    (ExprView::Call(Box::new(ExprView::Ident(name)), args), p),
                ),
                None => None,
            }
        } else {
            Some((ExprView::Ident(name), pos + 1))
        },
        _ => None,
    }
}

/// Reads the name that starts at `pos`, with the arguments of a call where
/// a bracket follows it.
pub fn call_or_name(toks: &Vec<Token>, pos: usize, nest: usize) -> (r: Option<(Expr, usize)>)
    requires
        pos < toks.len(),
    ensures
        expr_result(r) == parse_call_or_name(tokens_view(toks@), pos as nat, nest as nat),
        within(r, toks.len()),
        r is Some ==> (r->0).1 > pos,
    decreases toks.len() - pos, 1nat,
{
    match &toks[pos] {
        Token::Ident(name) => {
            if at(toks, pos + 1, &Token::BracketO) {
                let acc: Vec<Expr> = Vec::new();
                assert(exprs_model(acc@) =~= Seq::<ExprView>::empty());
                match exprs(toks, pos + 2, &Token::BracketC, acc, nest) {
                    Some((args, p)) => {
                        let f = Expr::Ident(name.clone());
                        assert(f@ == ExprView::Ident(name@));
                        Some((Expr::Call(Box::new(f), args), p))
                    },
                    None => None,
                }
            } else {
                Some((Expr::Ident(name.clone()), pos + 1))
            }
        },
        _ => None,
    }
}

/// Reads the expression that starts at `pos`.
pub fn p_expr(toks: &Vec<Token>, pos: usize, nest: usize) -> (r: Option<(Expr, usize)>)
    requires
        pos <= toks.len(),
    ensures
        expr_result(r) == parse_expr(tokens_view(toks@), pos as nat, nest as nat),
        within(r, toks.len()),
        r is Some ==> (r->0).1 > pos,
    decreases toks.len() - pos, 4nat,
{
    if nest == 0 {
        return None;
    }
    match p_expr_l(toks, pos, nest - 1) {
        None => None,
        Some((l, p1)) => {
            if p1 <= pos {
                return None;
            }
            match op(toks, p1) {
                None => Some((l, p1)),
                Some((o, p2)) => match p_expr(toks, p2, nest - 1) {
                    None => Some((l, p1)),
                    Some((re, p3)) => Some((re.add_left(l, o), p3)),
                },
            }
        },
    }
}

/// Reads the change of a counter that starts at `pos`.
pub fn counter(toks: &Vec<Token>, pos: usize) -> (r: Option<(Action, usize)>)
    ensures
        action_result(r) == parse_counter(tokens_view(toks@), pos as nat),
        within(r, toks.len()),
        r is Some ==> (r->0).1 > pos,
{
    if pos >= toks.len() || pos + 1 >= toks.len() {
        return None;
    }
    let minus = match &toks[pos] {
        Token::Add => false,
        Token::Sub => true,
        _ => {
            return None;
        },
    };
    match &toks[pos + 1] {
        Token::Num(n) => {
            if pos + 2 >= toks.len() {
                return None;
            }
            match &toks[pos + 2] {
                Token::Ident(id) => {
                    if *n == i32::MIN {
                        return None;
                    }
                    let k: isize = if minus {
                        -(*n as isize)
                    } else {
                        *n as isize
                    };
                    Some((Action::AddItem(k, id.clone()), pos + 3))
                },
                _ => None,
            }
        },
        Token::Ident(id) => {
            let k: isize = if minus {
                -1
            } else {
                1
            };
            Some((Action::AddItem(k, id.clone()), pos + 2))
        },
        _ => None,
    }
}

/// Reads what follows the first expression `l` of a statement, from `p1`
/// on.
pub fn rest(toks: &Vec<Token>, l: Expr, p1: usize, nest: usize) -> (r: Option<(Action, usize)>)
    requires
        p1 <= toks.len(),
    ensures
        action_result(r) == parse_rest(tokens_view(toks@), l@, p1 as nat, nest as nat),
        within(r, toks.len()),
        r is Some ==> (r->0).1 >= p1,
    decreases toks.len() - p1, 5nat,
{
    if at(toks, p1, &Token::Colon) {
        return Some((Action::Select(l), p1 + 1));
    }
    if let Some((o, p2)) = op(toks, p1) {
        if at(toks, p2, &Token::Equals) {
            if let Some((r, p3)) = p_expr(toks, p2 + 1, nest) {
                return Some((Action::OpSet(o, l, r), p3));
            }
        }
    }
    if at(toks, p1, &Token::Equals) {
        if let Some((r, p3)) = p_expr(toks, p1 + 1, nest) {
            if at(toks, p3, &Token::Colon) {
                return Some((Action::SetSelect(l, r), p3 + 1));
            }
            return Some((Action::Assign(l, r), p3));
        }
    }
    Some((Action::Resolve(l), p1))
}

/// Reads the statement that starts at `pos`.
pub fn pp_action(toks: &Vec<Token>, pos: usize, nest: usize) -> (r: Option<(Action, usize)>)
    requires
        pos <= toks.len(),
    ensures
        action_result(r) == parse_action(tokens_view(toks@), pos as nat, nest as nat),
        within(r, toks.len()),
        r is Some ==> (r->0).1 > pos,
    decreases toks.len() - pos, 5nat,
{
    let c = counter(toks, pos);
    if c.is_some() {
        return c;
    }
    if word(toks, pos, "return") {
        if let Some((e, p)) = p_expr(toks, pos + 1, nest) {
            return Some((Action::Return(e), p));
        }
    }
    match p_expr(toks, pos, nest) {
        None => None,
        Some((l, p1)) => {
            if p1 <= pos {
                return None;
            }
            rest(toks, l, p1, nest)
        },
    }
}

} // verus!
