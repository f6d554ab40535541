//! Error values of the parser and of the evaluator.

use vstd::prelude::*;
use crate::text::{nat_digits, usize_to_string};

verus! {

/// A parse failure at a line of the input.
#[derive(Debug)]
pub struct LineError {
    pub mess: String,
    pub line: usize,
    pub eof: bool,
}

impl LineError {
    /// A syntax error with message `s` at `line`.
    pub fn new(s: &str, line: usize) -> (r: Self)
        ensures
            r.mess@ == s@,
            r.line == line,
            !r.eof,
    {
        LineError { mess: String::from_str(s), line, eof: false }
    }

    /// The input ended inside a statement that began at or before `line`.
    pub fn eof(line: usize) -> (r: Self)
        ensures
            r.mess@ == "UX - EOF"@,
            r.line == line,
            r.eof,
    {
        LineError { mess: String::from_str("UX - EOF"), line, eof: true }
    }

    /// The same error, reported at line `n`.
    pub fn set_line(self, n: usize) -> (r: Self)
        ensures
            r.mess == self.mess,
            r.eof == self.eof,
            r.line == n,
    {
        LineError { mess: self.mess, line: n, eof: self.eof }
    }
}

/// The mathematical value of a [`LineError`].
pub struct LineErrorView {
    pub mess: Seq<char>,
    pub line: usize,
    pub eof: bool,
}

impl View for LineError {
    type V = LineErrorView;

    open spec fn view(&self) -> LineErrorView {
        LineErrorView { mess: self.mess@, line: self.line, eof: self.eof }
    }
}

/// Why a statement failed.
#[derive(Debug)]
pub enum ActionError {
    /// The text of the statement could not be parsed.
    ParseErr(LineError),
    /// The statement could not be carried out.
    DoingErr(String),
}

/// The mathematical value of an [`ActionError`].
pub enum ActionErrorView {
    ParseErr(LineErrorView),
    DoingErr(Seq<char>),
}

impl View for ActionError {
    type V = ActionErrorView;

    open spec fn view(&self) -> ActionErrorView {
        match self {
            ActionError::ParseErr(e) => ActionErrorView::ParseErr(e@),
            ActionError::DoingErr(s) => ActionErrorView::DoingErr(s@),
        }
    }
}

impl LineErrorView {
    /// The text that reports the error.
    pub open spec fn text(self) -> Seq<char> {
        "Parse Error: line "@ + nat_digits(self.line as nat) + " :"@ + self.mess
    }
}

impl ActionErrorView {
    /// The text that reports the error.
    pub open spec fn text(self) -> Seq<char> {
        match self {
            ActionErrorView::ParseErr(e) => e.text(),
            ActionErrorView::DoingErr(s) => "Action Error: "@ + s,
        }
    }
}

impl LineError {
    /// The text that reports the error.
    pub fn to_text(&self) -> (r: String)
        ensures
            r@ == self@.text(),
    {
        let mut out = String::from_str("Parse Error: line ");
        let n = usize_to_string(self.line);
        out.append(n.as_str());
        out.append(" :");
        out.append(self.mess.as_str());
        out
    }

    /// Whether two errors are equal.
    pub fn same(&self, other: &LineError) -> (r: bool)
        ensures
            r == (self@ == other@),
    {
        self.mess == other.mess && self.line == other.line && self.eof == other.eof
    }
}

impl PartialEq for LineError {
    fn eq(&self, other: &LineError) -> (r: bool) {
        self.same(other)
    }
}

impl vstd::std_specs::cmp::PartialEqSpecImpl for LineError {
    open spec fn obeys_eq_spec() -> bool {
        true
    }

    open spec fn eq_spec(&self, other: &LineError) -> bool {
        self@ == other@
    }
}

impl PartialEq for ActionError {
    fn eq(&self, other: &ActionError) -> (r: bool) {
        self.same(other)
    }
}

impl vstd::std_specs::cmp::PartialEqSpecImpl for ActionError {
    open spec fn obeys_eq_spec() -> bool {
        true
    }

    open spec fn eq_spec(&self, other: &ActionError) -> bool {
        self@ == other@
    }
}

impl ActionError {
    /// The text that reports the error.
    pub fn to_text(&self) -> (r: String)
        ensures
            r@ == self@.text(),
    {
        match self {
            ActionError::ParseErr(e) => e.to_text(),
            ActionError::DoingErr(s) => {
                let mut out = String::from_str("Action Error: ");
                out.append(s.as_str());
                out
            },
        }
    }

    /// Whether two errors are equal.
    pub fn same(&self, other: &ActionError) -> (r: bool)
        ensures
            r == (self@ == other@),
    {
        match (self, other) {
            (ActionError::ParseErr(a), ActionError::ParseErr(b)) => a.same(b),
            (ActionError::DoingErr(a), ActionError::DoingErr(b)) => *a == *b,
            _ => false,
        }
    }

    /// An evaluation error with message `s`.
    pub fn new(s: &str) -> (r: Self)
        ensures
            r@ == ActionErrorView::DoingErr(s@),
    {
        ActionError::DoingErr(String::from_str(s))
    }

    /// The message of the error.
    pub fn message(&self) -> (r: String)
        ensures
            r@ == match self@ {
                ActionErrorView::ParseErr(e) => e.mess,
                ActionErrorView::DoingErr(s) => s,
            },
    {
        match self {
            ActionError::ParseErr(e) => e.mess.clone(),
            ActionError::DoingErr(s) => s.clone(),
        }
    }
}

} // verus!
