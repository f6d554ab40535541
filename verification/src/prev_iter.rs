//! Readers that count lines and readers that can step back.

use vstd::prelude::*;
use crate::error::{LineError, LineErrorView};
use crate::parse::ActionReader;
use crate::token::{Lexed, Token, TokenView, Tokenizer, next_token};
use vstd::std_specs::iter::IteratorSpec;

verus! {

/// A reader that knows the line it is at.
pub trait LineCounter {
    /// Whether the reader is in a state in which it can be asked.
    spec fn ready(&self) -> bool;

    /// The line that the reader is at.
    spec fn at_line(&self) -> usize;

    /// The line that the reader is at.
    fn line(&self) -> (r: usize)
        requires
            self.ready(),
        ensures
            r == self.at_line(),
    ;

    /// A syntax error with the message `s` at the reader's line.
    fn err(&self, s: &str) -> (r: LineError)
        requires
            self.ready(),
        ensures
            r@ == (LineErrorView { mess: s@, line: self.at_line(), eof: false }),
    {
        LineError::new(s, self.line())
    }

    /// An error at the reader's line that says that the text ended too
    /// early.
    fn eof(&self) -> (r: LineError)
        requires
            self.ready(),
        ensures
            r@ == (LineErrorView { mess: "UX - EOF"@, line: self.at_line(), eof: true }),
    {
        LineError::eof(self.line())
    }
}

/// A reader that can step back by one item, so that the item it returned
/// last is the one it returns next.
pub trait Backer {
    /// Whether the reader has stepped back.
    spec fn stepped_back(&self) -> bool;

    /// Steps back by one item.
    fn back(&mut self)
        ensures
            final(self).stepped_back(),
    ;
}

impl LineCounter for Tokenizer {
    open spec fn ready(&self) -> bool {
        true
    }

    open spec fn at_line(&self) -> usize {
        self.line_no
    }

    fn line(&self) -> (r: usize) {
        self.line_no
    }
}

impl LineCounter for ActionReader {
    open spec fn ready(&self) -> bool {
        self.wf()
    }

    open spec fn at_line(&self) -> usize {
        if self.pos < self.lines@.len() {
            self.lines@[self.pos as int]
        } else if self.lines@.len() > 0 {
            self.lines@[self.lines@.len() - 1]
        } else {
            0
        }
    }

    fn line(&self) -> (r: usize) {
        if self.pos < self.lines.len() {
            self.lines[self.pos]
        } else if self.lines.len() > 0 {
            self.lines[self.lines.len() - 1]
        } else {
            0
        }
    }
}

/// A reader of tokens that can step back by one token.
#[derive(Debug)]
pub struct TokPrev {
    pub it: Tokenizer,
    pub prev: Option<Token>,
    pub is_back: bool,
}

/// The mathematical value of an optional token.
pub open spec fn token_view(t: Option<Token>) -> Option<TokenView> {
    match t {
        Some(x) => Some(x@),
        None => None,
    }
}

/// The position and the line behind the first statement break read from
/// `pos` on, or behind the last token where there is no break.
pub open spec fn after_break(s: Seq<char>, pos: nat, lines: nat) -> (nat, nat)
    decreases s.len() - pos,
{
    let l = next_token(s, pos, lines);
    match l.tok {
        None => (l.pos, l.lines),
        Some(TokenView::Break) => (l.pos, l.lines),
        Some(_) => if l.pos <= pos || l.pos > s.len() {
            (l.pos, l.lines)
        } else {
            after_break(s, l.pos, l.lines)
        },
    }
}

impl TokPrev {
    /// A reader at the start of the text `s`.
    pub fn new(s: &str) -> (r: Self)
        ensures
            r.it.chars@ == s@,
            r.it.pos == 0,
            r.it.line_no == 0,
            r.prev is None,
            !r.is_back,
            r.it.wf(),
    {
        TokPrev { it: Tokenizer::new(s), prev: None, is_back: false }
    }

    /// The next token: the one returned last after a step back, or else
    /// the next of the text.
    pub fn next(&mut self) -> (r: Option<Token>)
        requires
            old(self).it.wf(),
        ensures
            final(self).it.wf(),
            !final(self).is_back,
            token_view(final(self).prev) == token_view(r),
            old(self).is_back ==> token_view(r) == token_view(old(self).prev) && final(self).it
                == old(self).it,
            !old(self).is_back ==> final(self).it.chars == old(self).it.chars && (Lexed {
                tok: token_view(r),
                pos: final(self).it.pos as nat,
                lines: final(self).it.line_no as nat,
            }) == next_token(
                old(self).it.chars@,
                old(self).it.pos as nat,
                old(self).it.line_no as nat,
            ),
            final(self).it.chars == old(self).it.chars,
            final(self).it.pos >= old(self).it.pos,
            !old(self).is_back && r is Some ==> final(self).it.pos > old(self).it.pos,
    {
        if !self.is_back {
            self.prev = self.it.next();
        }
        self.is_back = false;
        match &self.prev {
            Some(t) => Some(t.clone_token()),
            None => None,
        }
    }

    /// Reads up to and with the next statement break.
    pub fn read_to_break(&mut self)
        requires
            old(self).it.wf(),
        ensures
            final(self).it.wf(),
            final(self).it.chars == old(self).it.chars,
            !final(self).is_back,
            (old(self).is_back && token_view(old(self).prev) == Some(TokenView::Break))
                || (old(self).is_back && old(self).prev is None) ==> final(self).it == old(
                self,
            ).it,
            !((old(self).is_back && token_view(old(self).prev) == Some(TokenView::Break))
                || (old(self).is_back && old(self).prev is None)) ==> (
                final(self).it.pos as nat,
                final(self).it.line_no as nat,
            ) == after_break(
                old(self).it.chars@,
                old(self).it.pos as nat,
                old(self).it.line_no as nat,
            ),
    {
        let first = self.next();
        match first {
            None => {
                return ;
            },
            Some(Token::Break) => {
                return ;
            },
            Some(_) => {},
        }
        loop
            invariant
                self.it.wf(),
                self.it.chars == old(self).it.chars,
                !self.is_back,
                self.it.pos >= old(self).it.pos,
                !((old(self).is_back && token_view(old(self).prev) == Some(TokenView::Break))
                    || (old(self).is_back && old(self).prev is None)),
                after_break(self.it.chars@, self.it.pos as nat, self.it.line_no as nat)
                    == after_break(
                    old(self).it.chars@,
                    old(self).it.pos as nat,
                    old(self).it.line_no as nat,
                ),
            decreases self.it.chars@.len() - self.it.pos,
        {
            match self.next() {
                None => {
                    return ;
                },
                Some(Token::Break) => {
                    return ;
                },
                Some(_) => {},
            }
        }
    }
}

impl Backer for TokPrev {
    open spec fn stepped_back(&self) -> bool {
        self.is_back
    }

    fn back(&mut self)
        ensures
            final(self).it == old(self).it,
            final(self).prev == old(self).prev,
    {
        self.is_back = true;
    }
}

impl LineCounter for TokPrev {
    open spec fn ready(&self) -> bool {
        true
    }

    open spec fn at_line(&self) -> usize {
        self.it.line_no
    }

    fn line(&self) -> (r: usize) {
        self.it.line()
    }
}

/// A reader over an iterator that can step back by one item.
#[verifier::reject_recursive_types(I)]
#[verifier::reject_recursive_types(T)]
pub struct Prev<I: Clone, T: Iterator<Item = I>> {
    pub it: T,
    pub prev: Option<I>,
    pub is_back: bool,
}

impl<I: Clone, T: Iterator<Item = I>> Prev<I, T> {
    /// A reader over `it` that has returned nothing yet.
    pub fn new(it: T) -> (r: Self)
        ensures
            r.it == it,
            r.prev is None,
            !r.is_back,
    {
        Prev { it, prev: None, is_back: false }
    }

    /// Steps back by one item.
    pub fn back(&mut self)
        ensures
            final(self).is_back,
            final(self).it == old(self).it,
            final(self).prev == old(self).prev,
    {
        self.is_back = true;
    }
}

impl<I: Clone, T: Iterator<Item = I>> Prev<I, T> {
    /// The next item: the one returned last after a step back, or else the
    /// next of the iterator.
    pub fn next(&mut self) -> (r: Option<I>)
        ensures
            !final(self).is_back,
            r is Some == final(self).prev is Some,
            r is Some ==> cloned::<I>(final(self).prev->0, r->0),
            old(self).is_back ==> final(self).it == old(self).it && final(self).prev == old(self).prev,
            !old(self).is_back && old(self).it.obeys_prophetic_iter_laws() ==> (if old(
                self,
            ).it.remaining().len() > 0 {
                final(self).prev == Some(old(self).it.remaining()[0]) && final(self).it.remaining()
                    == old(self).it.remaining().drop_first()
            } else {
                final(self).prev is None && final(self).it.remaining() == old(self).it.remaining()
            }),
    {
        if !self.is_back {
            self.prev = self.it.next();
        }
        self.is_back = false;
        self.prev.clone()
    }
}

impl<I: Clone, T: Iterator<Item = I>> Backer for Prev<I, T> {
    open spec fn stepped_back(&self) -> bool {
        self.is_back
    }

    fn back(&mut self)
        ensures
            final(self).it == old(self).it,
            final(self).prev == old(self).prev,
    {
        self.is_back = true;
    }
}

impl<I: Clone, T: LineCounter + Iterator<Item = I>> LineCounter for Prev<I, T> {
    open spec fn ready(&self) -> bool {
        self.it.ready()
    }

    open spec fn at_line(&self) -> usize {
        self.it.at_line()
    }

    fn line(&self) -> (r: usize) {
        self.it.line()
    }
}

} // verus!
