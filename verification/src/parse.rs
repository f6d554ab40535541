//! Reading statements from text: the tokens of the text with their lines,
//! and the statements that they spell, one after the other.

use vstd::prelude::*;
use crate::action::{Action, ActionView, actions_model};
use crate::error::{LineError, LineErrorView};
use crate::expr::Expr;
use crate::nomp::{
    MAX_NEST,
    ends_statement, l_break, p_expr, parse_action, parse_expr, pp_action, tokens_view,
};
use crate::token::{Token, TokenView, Tokenizer, next_token};

verus! {

/// The position of the next line end at or after `pos`, or the end of the
/// text.
pub open spec fn skip_line(s: Seq<char>, pos: nat) -> nat
    decreases s.len() - pos,
{
    if pos < s.len() && s[pos as int] != '\n' {
        skip_line(s, pos + 1)
    } else {
        pos
    }
}

/// The tokens of the text `s` from `pos` on, each with the line that it
/// starts on, where lines are counted from `lines` on. What stands between
/// a hash and the end of its line is a comment and makes no token.
pub open spec fn lex(s: Seq<char>, pos: nat, lines: nat) -> Seq<(TokenView, nat)>
    decreases s.len() - pos,
{
    let l = next_token(s, pos, lines);
    match l.tok {
        None => Seq::empty(),
        Some(t) => if l.pos <= pos || l.pos > s.len() {
            Seq::empty()
        } else if t == TokenView::Hash {
            if skip_line(s, l.pos) <= pos || skip_line(s, l.pos) > s.len() {
                Seq::empty()
            } else {
                lex(s, skip_line(s, l.pos), l.lines)
            }
        } else {
            seq![(t, lines)] + lex(s, l.pos, l.lines)
        },
    }
}

/// Skipping a line never moves backwards nor past the end.
pub proof fn lemma_skip_line(s: Seq<char>, pos: nat)
    requires
        pos <= s.len(),
    ensures
        pos <= skip_line(s, pos) <= s.len(),
    decreases s.len() - pos,
{
    if pos < s.len() && s[pos as int] != '\n' {
        lemma_skip_line(s, pos + 1);
    }
}

/// The tokens of a text, with the line of each.
pub struct Lexed {
    pub toks: Vec<Token>,
    pub lines: Vec<usize>,
}

impl Lexed {
    /// The tokens paired with their lines.
    pub open spec fn pairs(&self) -> Seq<(TokenView, nat)> {
        Seq::new(self.toks@.len(), |i: int| (self.toks@[i]@, self.lines@[i] as nat))
    }
}

/// Reads all tokens of the text `s`.
pub fn tokenize(s: &str) -> (r: Lexed)
    ensures
        r.toks@.len() == r.lines@.len(),
        r.pairs() == lex(s@, 0, 0),
{
    let mut tk = Tokenizer::new(s);
    let mut out = Lexed { toks: Vec::new(), lines: Vec::new() };
    let n = tk.chars.len();
    assert(out.pairs() =~= Seq::<(TokenView, nat)>::empty());
    assert(out.pairs() + lex(tk.chars@, 0, 0) =~= lex(s@, 0, 0));
    loop
        invariant
            tk.wf(),
            tk.chars@ == s@,
            n == tk.chars@.len(),
            out.toks@.len() == out.lines@.len(),
            out.pairs() + lex(tk.chars@, tk.pos as nat, tk.line_no as nat) == lex(s@, 0, 0),
        decreases tk.chars@.len() - tk.pos,
    {
        let line = tk.line_no;
        let ghost before = out.pairs();
        let ghost pos0 = tk.pos;
        match tk.next() {
            None => {
                assert(out.pairs() + Seq::<(TokenView, nat)>::empty() =~= out.pairs());
                return out;
            },
            Some(Token::Hash) => {
                let ghost pos1 = tk.pos;
                let ghost line1 = tk.line_no;
                proof {
                    lemma_skip_line(tk.chars@, pos1 as nat);
                }
                while tk.pos < tk.chars.len() && tk.chars[tk.pos] != '\n'
                    invariant
                        tk.wf(),
                        tk.line_no == line1,
                        tk.chars@ == s@,
                        n == tk.chars@.len(),
                        tk.pos >= pos1,
                        skip_line(tk.chars@, tk.pos as nat) == skip_line(tk.chars@, pos1 as nat),
                    decreases tk.chars@.len() - tk.pos,
                {
                    tk.pos += 1;
                }
                assert(tk.pos == skip_line(tk.chars@, pos1 as nat));
                assert(lex(tk.chars@, pos0 as nat, line as nat) == lex(
                    tk.chars@,
                    tk.pos as nat,
                    tk.line_no as nat,
                ));
            },
            Some(t) => {
                let ghost tv = t@;
                assert(tv != TokenView::Hash);
                assert(lex(tk.chars@, pos0 as nat, line as nat) == seq![(tv, line as nat)] + lex(
                    tk.chars@,
                    tk.pos as nat,
                    tk.line_no as nat,
                ));
                out.toks.push(t);
                out.lines.push(line);
                assert(out.pairs() =~= before + seq![(tv, line as nat)]);
                assert(out.pairs() + lex(tk.chars@, tk.pos as nat, tk.line_no as nat) =~= before
                    + (seq![(tv, line as nat)] + lex(
                    tk.chars@,
                    tk.pos as nat,
                    tk.line_no as nat,
                )));
            },
        }
    }
}

/// How many more brackets of any kind open than close in `toks[from..]`.
pub open spec fn depth(toks: Seq<TokenView>, from: nat) -> int
    decreases toks.len() - from,
{
    if from >= toks.len() {
        0
    } else {
        (match toks[from as int] {
            TokenView::BracketO | TokenView::SquareO | TokenView::SquigleO => 1int,
            TokenView::BracketC | TokenView::SquareC | TokenView::SquigleC => -1int,
            _ => 0int,
        }) + depth(toks, from + 1)
    }
}

/// Whether more brackets open than close in `toks[from..]`.
pub fn unclosed(toks: &Vec<Token>, from: usize) -> (r: bool)
    ensures
        r == (depth(tokens_view(toks@), from as nat) > 0),
{
    let mut d: i128 = 0;
    let mut i: usize = toks.len();
    if from >= i {
        return false;
    }
    while i > from
        invariant
            from <= i <= toks.len(),
            d == depth(tokens_view(toks@), i as nat),
            -(toks.len() - i) <= d <= toks.len() - i,
        decreases i,
    {
        i -= 1;
        match &toks[i] {
            Token::BracketO | Token::SquareO | Token::SquigleO => {
                d += 1;
            },
            Token::BracketC | Token::SquareC | Token::SquigleC => {
                d -= 1;
            },
            _ => {},
        }
    }
    d > 0
}

/// A statement with the line that it starts on.
#[derive(Debug)]
pub struct LineAction {
    pub action: Action,
    pub line: usize,
}

/// A reader of statements from a text.
pub struct ActionReader {
    pub toks: Vec<Token>,
    pub lines: Vec<usize>,
    pub pos: usize,
}

/// The first position at or after `pos` that holds no statement break.
pub open spec fn skip_breaks(toks: Seq<TokenView>, pos: nat) -> nat
    decreases toks.len() - pos,
{
    if pos < toks.len() && toks[pos as int] == TokenView::Break {
        skip_breaks(toks, pos + 1)
    } else {
        pos
    }
}

/// The position of the first statement break at or after `pos`, or the end
/// of the tokens.
pub open spec fn find_break(toks: Seq<TokenView>, pos: nat) -> nat
    decreases toks.len() - pos,
{
    if pos < toks.len() && toks[pos as int] != TokenView::Break {
        find_break(toks, pos + 1)
    } else {
        pos
    }
}

/// Looking for a break never moves backwards.
pub proof fn lemma_find_break(toks: Seq<TokenView>, pos: nat)
    ensures
        find_break(toks, pos) >= pos,
    decreases toks.len() - pos,
{
    if pos < toks.len() && toks[pos as int] != TokenView::Break {
        lemma_find_break(toks, pos + 1);
    }
}

/// What reading one statement leaves.
pub struct Read {
    /// Nothing at the end of the tokens; else the statement with its line,
    /// or the line of the error and whether the tokens ended too early.
    pub item: Option<Result<(ActionView, nat), (nat, bool)>>,
    pub pos: nat,
}

/// The statement that starts at the first token at or after `pos` that is
/// no statement break. A statement must end at a break or at the end of the
/// tokens. After text that spells no statement, reading goes on behind the
/// next break.
pub open spec fn read_one(toks: Seq<TokenView>, lines: Seq<usize>, pos: nat) -> Read {
    let p = skip_breaks(toks, pos);
    if p >= toks.len() {
        Read { item: None, pos: p }
    } else {
        match parse_action(toks, p, MAX_NEST as nat) {
            Some((a, p1)) => if ends_statement(toks, p1, false) {
                Read { item: Some(Ok((a, lines[p as int] as nat))), pos: p1 }
            } else {
                Read {
                    item: Some(Err((lines[p as int] as nat, depth(toks, p) > 0))),
                    pos: find_break(toks, p),
                }
            },
            None => Read {
                item: Some(Err((lines[p as int] as nat, depth(toks, p) > 0))),
                pos: find_break(toks, p),
            },
        }
    }
}

/// The error of text that spells no statement, at `line`: that the text
/// ended too early where `eof` says so, and else that it could not be read.
pub open spec fn read_error(line: nat, eof: bool) -> LineErrorView {
    LineErrorView {
        mess: if eof {
            "UX - EOF"@
        } else {
            "Could not read statement"@
        },
        line: line as usize,
        eof: eof,
    }
}

/// The mathematical value of what reading one statement returned.
pub open spec fn read_view(r: Option<Result<LineAction, LineError>>) -> Option<
    Result<(ActionView, nat), (nat, bool)>,
> {
    match r {
        None => None,
        Some(Ok(la)) => Some(Ok((la.action@, la.line as nat))),
        Some(Err(e)) => Some(Err((e.line as nat, e.eof))),
    }
}

impl ActionReader {
    /// A reader at the start of the text `s`.
    pub fn new(s: &str) -> (r: Self)
        ensures
            r.wf(),
            r.pos == 0,
            Seq::new(r.toks@.len(), |i: int| (r.toks@[i]@, r.lines@[i] as nat)) == lex(s@, 0, 0),
    {
        let l = tokenize(s);
        ActionReader { toks: l.toks, lines: l.lines, pos: 0 }
    }

    /// Whether each token has its line and the position is within the
    /// tokens.
    pub open spec fn wf(&self) -> bool {
        self.toks@.len() == self.lines@.len() && self.pos <= self.toks@.len()
    }

    /// The line of the token at the position, or of the last token at the
    /// end.
    pub fn line(&self) -> (r: usize)
        requires
            self.wf(),
        ensures
            r == if self.pos < self.lines@.len() {
                self.lines@[self.pos as int]
            } else if self.lines@.len() > 0 {
                self.lines@[self.lines@.len() - 1]
            } else {
                0
            },
    {
        if self.pos < self.lines.len() {
            self.lines[self.pos]
        } else if self.lines.len() > 0 {
            self.lines[self.lines.len() - 1]
        } else {
            0
        }
    }

    /// The statement `action` with the line at the position.
    pub fn line_acc(&self, action: Action) -> (r: LineAction)
        requires
            self.wf(),
        ensures
            r.action == action,
            r.line == if self.pos < self.lines@.len() {
                self.lines@[self.pos as int]
            } else if self.lines@.len() > 0 {
                self.lines@[self.lines@.len() - 1]
            } else {
                0
            },
    {
        LineAction { line: self.line(), action }
    }

    /// Moves to the next statement break, or to the end.
    pub fn read_to_break(&mut self)
        requires
            old(self).wf(),
        ensures
            final(self).wf(),
            final(self).toks == old(self).toks,
            final(self).lines == old(self).lines,
            final(self).pos == find_break(tokens_view(old(self).toks@), old(self).pos as nat),
            final(self).pos >= old(self).pos,
    {
        while self.pos < self.toks.len() && !self.toks[self.pos].same(&Token::Break)
            invariant
                self.wf(),
                self.toks == old(self).toks,
                self.lines == old(self).lines,
                self.pos >= old(self).pos,
                find_break(tokens_view(self.toks@), self.pos as nat) == find_break(
                    tokens_view(old(self).toks@),
                    old(self).pos as nat,
                ),
            decreases self.toks@.len() - self.pos,
        {
            self.pos += 1;
        }
    }

    /// The next statement of the text with its line, or the error of the
    /// text that spells none; nothing at the end of the text.
    pub fn next(&mut self) -> (r: Option<Result<LineAction, LineError>>)
        requires
            old(self).wf(),
        ensures
            final(self).wf(),
            final(self).toks == old(self).toks,
            final(self).lines == old(self).lines,
            (Read { item: read_view(r), pos: final(self).pos as nat }) == read_one(
                tokens_view(old(self).toks@),
                old(self).lines@,
                old(self).pos as nat,
            ),
            r is Some ==> final(self).pos > old(self).pos,
            final(self).pos >= old(self).pos,
            r matches Some(Err(e)) ==> e@ == read_error(e.line as nat, e.eof),
    {
        while self.pos < self.toks.len() && self.toks[self.pos].same(&Token::Break)
            invariant
                self.wf(),
                self.toks == old(self).toks,
                self.lines == old(self).lines,
                self.pos >= old(self).pos,
                skip_breaks(tokens_view(self.toks@), self.pos as nat) == skip_breaks(
                    tokens_view(old(self).toks@),
                    old(self).pos as nat,
                ),
            decreases self.toks@.len() - self.pos,
        {
            self.pos += 1;
        }
        if self.pos >= self.toks.len() {
            return None;
        }
        let start = self.pos;
        let line = self.lines[start];
        match pp_action(&self.toks, start, MAX_NEST) {
            Some((a, p1)) => {
                if l_break(&self.toks, p1, false) {
                    self.pos = p1;
                    return Some(Ok(LineAction { action: a, line }));
                }
            },
            None => {},
        }
        let eof = unclosed(&self.toks, start);
        self.read_to_break();
        assert(self.pos > start) by {
            assert(tokens_view(self.toks@)[start as int] != TokenView::Break);
            lemma_find_break(tokens_view(self.toks@), (start + 1) as nat);
        }
        if eof {
            Some(Err(LineError::eof(line)))
        } else {
            Some(Err(LineError::new("Could not read statement", line)))
        }
    }
}

/// The statements that the tokens from `pos` on spell, after `acc`, or the
/// error of the first text that spells none.
pub open spec fn read_all(toks: Seq<TokenView>, lines: Seq<usize>, pos: nat, acc: Seq<ActionView>) -> Result<
    Seq<ActionView>,
    (nat, bool),
>
    decreases toks.len() - pos,
{
    let r = read_one(toks, lines, pos);
    match r.item {
        None => Ok(acc),
        Some(Err(e)) => Err(e),
        Some(Ok(a)) => if r.pos <= pos || r.pos > toks.len() {
            Ok(acc)
        } else {
            read_all(toks, lines, r.pos, acc.push(a.0))
        },
    }
}

/// The statements that the text `s` spells, or the error of the first text
/// in it that spells none.
pub open spec fn parse_spec(s: Seq<char>) -> Result<Seq<ActionView>, (nat, bool)> {
    read_all(
        Seq::new(lex(s, 0, 0).len(), |i: int| lex(s, 0, 0)[i].0),
        Seq::new(lex(s, 0, 0).len(), |i: int| lex(s, 0, 0)[i].1 as usize),
        0,
        Seq::empty(),
    )
}

/// Reads all statements of the text `s`.
pub fn parse(s: &str) -> (r: Result<Vec<Action>, LineError>)
    ensures
        match r {
            Ok(acts) => parse_spec(s@) == Ok::<Seq<ActionView>, (nat, bool)>(actions_model(acts@)),
            Err(e) => parse_spec(s@) == Err::<Seq<ActionView>, (nat, bool)>((e.line as nat, e.eof))
                && e@ == read_error(e.line as nat, e.eof),
        },
{
    let mut rd = ActionReader::new(s);
    let mut out: Vec<Action> = Vec::new();
    let ghost toks = tokens_view(rd.toks@);
    let ghost lines = rd.lines@;
    assert(toks =~= Seq::new(lex(s@, 0, 0).len(), |i: int| lex(s@, 0, 0)[i].0)) by {
        assert forall|i: int| 0 <= i < toks.len() implies toks[i] == lex(s@, 0, 0)[i].0 by {
            assert(Seq::new(rd.toks@.len(), |i: int| (rd.toks@[i]@, rd.lines@[i] as nat))[i]
                == lex(s@, 0, 0)[i]);
        }
    }
    assert(lines =~= Seq::new(lex(s@, 0, 0).len(), |i: int| lex(s@, 0, 0)[i].1 as usize)) by {
        assert forall|i: int| 0 <= i < lines.len() implies lines[i] == lex(s@, 0, 0)[i].1
            as usize by {
            assert(Seq::new(rd.toks@.len(), |i: int| (rd.toks@[i]@, rd.lines@[i] as nat))[i]
                == lex(s@, 0, 0)[i]);
        }
    }
    assert(actions_model(out@) =~= Seq::<ActionView>::empty());
    loop
        invariant
            rd.wf(),
            toks == tokens_view(rd.toks@),
            lines == rd.lines@,
            read_all(toks, lines, rd.pos as nat, actions_model(out@)) == parse_spec(s@),
        decreases rd.toks@.len() - rd.pos,
    {
        let ghost before = actions_model(out@);
        match rd.next() {
            None => {
                return Ok(out);
            },
            Some(Err(e)) => {
                return Err(e);
            },
            Some(Ok(la)) => {
                let ghost av = la.action@;
                out.push(la.action);
                assert(actions_model(out@) =~= before.push(av));
            },
        }
    }
}

/// Reads the text `s` as one expression.
pub fn parse_expr_text(s: &str) -> (r: Option<Expr>)
    ensures
        match r {
            Some(e) => parse_expr(
                Seq::new(lex(s@, 0, 0).len(), |i: int| lex(s@, 0, 0)[i].0),
                0,
                MAX_NEST as nat,
            ) == Some((e@, lex(s@, 0, 0).len())),
            None => !(parse_expr(
                Seq::new(lex(s@, 0, 0).len(), |i: int| lex(s@, 0, 0)[i].0),
                0,
                MAX_NEST as nat,
            ) matches Some(x) && x.1 == lex(s@, 0, 0).len()),
        },
{
    let l = tokenize(s);
    assert(tokens_view(l.toks@) =~= Seq::new(lex(s@, 0, 0).len(), |i: int| lex(s@, 0, 0)[i].0))
        by {
        assert forall|i: int| 0 <= i < l.toks@.len() implies tokens_view(l.toks@)[i] == lex(
            s@,
            0,
            0,
        )[i].0 by {
            assert(l.pairs()[i] == lex(s@, 0, 0)[i]);
        }
    }
    match p_expr(&l.toks, 0, MAX_NEST) {
        Some((e, p)) => {
            if p == l.toks.len() {
                Some(e)
            } else {
                None
            }
        },
        None => None,
    }
}

/// Whether a statement changes the document, so that a session keeps it
/// in its script: every statement does but one that only shows or returns
/// a value, and the empty one.
pub open spec fn changes_document(a: ActionView) -> bool {
    !(a is Resolve || a is Return || a is NoOp)
}

/// Whether any of the statements `acts` changes the document.
pub fn file_worthy(acts: &Vec<Action>) -> (r: bool)
    ensures
        r == exists|i: int|
            0 <= i < acts@.len() && changes_document(#[trigger] actions_model(acts@)[i]),
{
    let mut i: usize = 0;
    while i < acts.len()
        invariant
            i <= acts@.len(),
            forall|j: int| 0 <= j < i ==> !changes_document(#[trigger] actions_model(acts@)[j]),
        decreases acts@.len() - i,
    {
        let keeps = match &acts[i] {
            Action::Resolve(_) | Action::Return(_) | Action::NoOp => false,
            _ => true,
        };
        if keeps {
            assert(changes_document(actions_model(acts@)[i as int]));
            return true;
        }
        i += 1;
    }
    false
}

} // verus!
