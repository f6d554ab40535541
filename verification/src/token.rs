//! The tokens of the language and the tokenizer that reads them from text.

use vstd::prelude::*;
use crate::error::LineError;
use crate::text::{str_chars};

verus! {

/// A token.
#[derive(Debug)]
pub enum Token {
    Ident(String),
    Num(i32),
    Expr,
    Fn,
    Hash,
    Dot,
    Colon,
    Comma,
    Dollar,
    Add,
    Sub,
    Mul,
    Div,
    Equals,
    Break,
    BracketO,
    BracketC,
    SquareO,
    SquareC,
    SquigleO,
    SquigleC,
    Or,
    Amp,
    Less,
    Greater,
    True,
    False,
    Qoth(String),
}

/// The mathematical value of a [`Token`].
pub enum TokenView {
    Ident(Seq<char>),
    Num(i32),
    Expr,
    Fn,
    Hash,
    Dot,
    Colon,
    Comma,
    Dollar,
    Add,
    Sub,
    Mul,
    Div,
    Equals,
    Break,
    BracketO,
    BracketC,
    SquareO,
    SquareC,
    SquigleO,
    SquigleC,
    Or,
    Amp,
    Less,
    Greater,
    True,
    False,
    Qoth(Seq<char>),
}

impl View for Token {
    type V = TokenView;

    open spec fn view(&self) -> TokenView {
        match self {
            Token::Ident(s) => TokenView::Ident(s@),
            Token::Num(n) => TokenView::Num(*n),
            Token::Expr => TokenView::Expr,
            Token::Fn => TokenView::Fn,
            Token::Hash => TokenView::Hash,
            Token::Dot => TokenView::Dot,
            Token::Colon => TokenView::Colon,
            Token::Comma => TokenView::Comma,
            Token::Dollar => TokenView::Dollar,
            Token::Add => TokenView::Add,
            Token::Sub => TokenView::Sub,
            Token::Mul => TokenView::Mul,
            Token::Div => TokenView::Div,
            Token::Equals => TokenView::Equals,
            Token::Break => TokenView::Break,
            Token::BracketO => TokenView::BracketO,
            Token::BracketC => TokenView::BracketC,
            Token::SquareO => TokenView::SquareO,
            Token::SquareC => TokenView::SquareC,
            Token::SquigleO => TokenView::SquigleO,
            Token::SquigleC => TokenView::SquigleC,
            Token::Or => TokenView::Or,
            Token::Amp => TokenView::Amp,
            Token::Less => TokenView::Less,
            Token::Greater => TokenView::Greater,
            Token::True => TokenView::True,
            Token::False => TokenView::False,
            Token::Qoth(s) => TokenView::Qoth(s@),
        }
    }
}

/// The token that the single character `c` spells, if it spells one.
pub open spec fn special(c: char) -> Option<TokenView> {
    if c == '#' {
        Some(TokenView::Hash)
    } else if c == '$' {
        Some(TokenView::Dollar)
    } else if c == ':' {
        Some(TokenView::Colon)
    } else if c == '.' {
        Some(TokenView::Dot)
    } else if c == '+' {
        Some(TokenView::Add)
    } else if c == '-' {
        Some(TokenView::Sub)
    } else if c == '=' {
        Some(TokenView::Equals)
    } else if c == '*' {
        Some(TokenView::Mul)
    } else if c == '/' {
        Some(TokenView::Div)
    } else if c == '(' {
        Some(TokenView::BracketO)
    } else if c == ')' {
        Some(TokenView::BracketC)
    } else if c == '{' {
        Some(TokenView::SquigleO)
    } else if c == '}' {
        Some(TokenView::SquigleC)
    } else if c == '[' {
        Some(TokenView::SquareO)
    } else if c == ']' {
        Some(TokenView::SquareC)
    } else if c == ',' {
        Some(TokenView::Comma)
    } else if c == '<' {
        Some(TokenView::Less)
    } else if c == '>' {
        Some(TokenView::Greater)
    } else if c == '\n' || c == ';' {
        Some(TokenView::Break)
    } else {
        None
    }
}

/// Whether `c` is a blank between tokens.
pub open spec fn is_blank(c: char) -> bool {
    c == ' ' || c == '\t'
}

/// The first position at or after `pos` that holds no blank.
pub open spec fn skip_blanks(s: Seq<char>, pos: nat) -> nat
    decreases s.len() - pos,
{
    if pos < s.len() && is_blank(s[pos as int]) {
        skip_blanks(s, pos + 1)
    } else {
        pos
    }
}

/// The number that the digits from `pos` on spell after `acc`, capped at
/// the largest value of the number type of tokens, and the position after
/// the digits.
pub open spec fn read_num_spec(s: Seq<char>, pos: nat, acc: int) -> (int, nat)
    decreases s.len() - pos,
{
    if pos < s.len() && crate::text::is_digit(s[pos as int]) {
        let d = (s[pos as int] as int) - 48;
        let next = if acc * 10 + d > i32::MAX {
            i32::MAX as int
        } else {
            acc * 10 + d
        };
        read_num_spec(s, pos + 1, next)
    } else {
        (acc, pos)
    }
}

/// What reading a quoted string leaves.
pub struct Quoted {
    pub text: Seq<char>,
    pub pos: nat,
    pub lines: nat,
}

/// The text of a quoted string whose opening quote is before `pos`, after
/// `acc`: everything up to the closing quote, or up to the end where there
/// is none. A backslash takes the character after it as it is, or a blank
/// at the end of the text. Line ends inside the string are counted.
pub open spec fn read_qoth_spec(s: Seq<char>, pos: nat, acc: Seq<char>, lines: nat) -> Quoted
    decreases s.len() - pos,
{
    if pos >= s.len() {
        Quoted { text: acc, pos: pos, lines: lines }
    } else if s[pos as int] == '\\' {
        if pos + 1 < s.len() {
            read_qoth_spec(s, pos + 2, acc.push(s[pos as int + 1]), lines)
        } else {
            Quoted { text: acc.push(' '), pos: pos + 1, lines: lines }
        }
    } else if s[pos as int] == '"' {
        Quoted { text: acc, pos: pos + 1, lines: lines }
    } else if s[pos as int] == '\n' {
        read_qoth_spec(s, pos + 1, acc.push('\n'), lines + 1)
    } else {
        read_qoth_spec(s, pos + 1, acc.push(s[pos as int]), lines)
    }
}

/// The text of a name that starts at `pos`, after `acc`, and the position
/// after it. The name ends before a character that spells a token, and at
/// a blank, which is taken with it. A backslash takes the character after
/// it as it is, or stands for itself at the end of the text.
pub open spec fn read_ident_spec(s: Seq<char>, pos: nat, acc: Seq<char>) -> (Seq<char>, nat)
    decreases s.len() - pos,
{
    if pos >= s.len() {
        (acc, pos)
    } else if special(s[pos as int]) is Some {
        (acc, pos)
    } else if is_blank(s[pos as int]) {
        (acc, pos + 1)
    } else if s[pos as int] == '\\' {
        if pos + 1 < s.len() {
            read_ident_spec(s, pos + 2, acc.push(s[pos as int + 1]))
        } else {
            (acc.push('\\'), pos + 1)
        }
    } else {
        read_ident_spec(s, pos + 1, acc.push(s[pos as int]))
    }
}

/// The token of a name: one of the reserved words, or the name itself.
pub open spec fn word_token(id: Seq<char>) -> TokenView {
    if id == "true"@ {
        TokenView::True
    } else if id == "false"@ {
        TokenView::False
    } else if id == "expr"@ {
        TokenView::Expr
    } else if id == "fn"@ || id == "func"@ {
        TokenView::Fn
    } else {
        TokenView::Ident(id)
    }
}

/// What reading one token leaves.
pub struct Lexed {
    pub tok: Option<TokenView>,
    pub pos: nat,
    pub lines: nat,
}

/// The next token of `s` at or after `pos`, the position after it, and the
/// count of lines `lines` advanced by the line ends that were read.
pub open spec fn next_token(s: Seq<char>, pos: nat, lines: nat) -> Lexed {
    let p = skip_blanks(s, pos);
    if p >= s.len() {
        Lexed { tok: None, pos: p, lines: lines }
    } else {
        let c = s[p as int];
        if special(c) is Some {
            Lexed {
                tok: special(c),
                pos: p + 1,
                lines: if c == '\n' {
                    lines + 1
                } else {
                    lines
                },
            }
        } else if c == '"' {
            let q = read_qoth_spec(s, p + 1, Seq::empty(), lines);
            Lexed { tok: Some(TokenView::Qoth(q.text)), pos: q.pos, lines: q.lines }
        } else if crate::text::is_digit(c) {
            let n = read_num_spec(s, p, 0);
            Lexed { tok: Some(TokenView::Num(n.0 as i32)), pos: n.1, lines: lines }
        } else {
            let id = read_ident_spec(s, p, Seq::empty());
            Lexed { tok: Some(word_token(id.0)), pos: id.1, lines: lines }
        }
    }
}

impl Token {
    /// The token that the single character `c` spells, if it spells one.
    pub fn special_char(c: char) -> (r: Option<Token>)
        ensures
            match r {
                Some(t) => Some(t@),
                None => None,
            } == special(c),
    {
        match c {
            '#' => Some(Token::Hash),
            '$' => Some(Token::Dollar),
            ':' => Some(Token::Colon),
            '.' => Some(Token::Dot),
            '+' => Some(Token::Add),
            '-' => Some(Token::Sub),
            '=' => Some(Token::Equals),
            '*' => Some(Token::Mul),
            '/' => Some(Token::Div),
            '(' => Some(Token::BracketO),
            ')' => Some(Token::BracketC),
            '{' => Some(Token::SquigleO),
            '}' => Some(Token::SquigleC),
            '[' => Some(Token::SquareO),
            ']' => Some(Token::SquareC),
            ',' => Some(Token::Comma),
            '<' => Some(Token::Less),
            '>' => Some(Token::Greater),
            '\n' | ';' => Some(Token::Break),
            _ => None,
        }
    }

    /// The text of a name or of a quoted string; no other token has one.
    pub fn as_str_val(&self) -> (r: Result<&str, LineError>)
        ensures
            match self@ {
                TokenView::Ident(s) => r is Ok && r->Ok_0@ == s,
                TokenView::Qoth(s) => r is Ok && r->Ok_0@ == s,
                _ => r is Err && r->Err_0@ == (crate::error::LineErrorView {
                    mess: "not a string type"@,
                    line: 0,
                    eof: false,
                }),
            },
    {
        match self {
            Token::Ident(s) => Ok(s.as_str()),
            Token::Qoth(s) => Ok(s.as_str()),
            _ => Err(LineError::new("not a string type", 0)),
        }
    }

    /// A copy of the token.
    pub fn clone_token(&self) -> (r: Token)
        ensures
            r@ == self@,
    {
        match self {
            Token::Ident(s) => Token::Ident(s.clone()),
            Token::Num(n) => Token::Num(*n),
            Token::Expr => Token::Expr,
            Token::Fn => Token::Fn,
            Token::Hash => Token::Hash,
            Token::Dot => Token::Dot,
            Token::Colon => Token::Colon,
            Token::Comma => Token::Comma,
            Token::Dollar => Token::Dollar,
            Token::Add => Token::Add,
            Token::Sub => Token::Sub,
            Token::Mul => Token::Mul,
            Token::Div => Token::Div,
            Token::Equals => Token::Equals,
            Token::Break => Token::Break,
            Token::BracketO => Token::BracketO,
            Token::BracketC => Token::BracketC,
            Token::SquareO => Token::SquareO,
            Token::SquareC => Token::SquareC,
            Token::SquigleO => Token::SquigleO,
            Token::SquigleC => Token::SquigleC,
            Token::Or => Token::Or,
            Token::Amp => Token::Amp,
            Token::Less => Token::Less,
            Token::Greater => Token::Greater,
            Token::True => Token::True,
            Token::False => Token::False,
            Token::Qoth(s) => Token::Qoth(s.clone()),
        }
    }

    /// Whether two tokens are equal.
    pub fn same(&self, other: &Token) -> (r: bool)
        ensures
            r == (self@ == other@),
    {
        match (self, other) {
            (Token::Ident(a), Token::Ident(b)) => *a == *b,
            (Token::Qoth(a), Token::Qoth(b)) => *a == *b,
            (Token::Num(a), Token::Num(b)) => *a == *b,
            (Token::Expr, Token::Expr) => true,
            (Token::Fn, Token::Fn) => true,
            (Token::Hash, Token::Hash) => true,
            (Token::Dot, Token::Dot) => true,
            (Token::Colon, Token::Colon) => true,
            (Token::Comma, Token::Comma) => true,
            (Token::Dollar, Token::Dollar) => true,
            (Token::Add, Token::Add) => true,
            (Token::Sub, Token::Sub) => true,
            (Token::Mul, Token::Mul) => true,
            (Token::Div, Token::Div) => true,
            (Token::Equals, Token::Equals) => true,
            (Token::Break, Token::Break) => true,
            (Token::BracketO, Token::BracketO) => true,
            (Token::BracketC, Token::BracketC) => true,
            (Token::SquareO, Token::SquareO) => true,
            (Token::SquareC, Token::SquareC) => true,
            (Token::SquigleO, Token::SquigleO) => true,
            (Token::SquigleC, Token::SquigleC) => true,
            (Token::Or, Token::Or) => true,
            (Token::Amp, Token::Amp) => true,
            (Token::Less, Token::Less) => true,
            (Token::Greater, Token::Greater) => true,
            (Token::True, Token::True) => true,
            (Token::False, Token::False) => true,
            _ => false,
        }
    }
}

impl PartialEq for Token {
    fn eq(&self, other: &Token) -> (r: bool) {
        self.same(other)
    }
}

impl vstd::std_specs::cmp::PartialEqSpecImpl for Token {
    open spec fn obeys_eq_spec() -> bool {
        true
    }

    open spec fn eq_spec(&self, other: &Token) -> bool {
        self@ == other@
    }
}

/// A reader of tokens from a text.
#[derive(Debug)]
pub struct Tokenizer {
    pub chars: Vec<char>,
    pub pos: usize,
    pub line_no: usize,
}

impl Tokenizer {
    /// A tokenizer at the start of the text `s`, at line zero.
    pub fn new(s: &str) -> (r: Self)
        ensures
            r.chars@ == s@,
            r.pos == 0,
            r.line_no == 0,
    {
        Tokenizer { chars: str_chars(s), pos: 0, line_no: 0 }
    }

    /// Whether the tokenizer's position is within its text, and no more
    /// lines were counted than characters were read.
    pub open spec fn wf(&self) -> bool {
        self.pos <= self.chars@.len() && self.line_no <= self.pos
    }

    /// Reads the digits at the position.
    fn read_num(&mut self) -> (r: i32)
        requires
            old(self).wf(),
        ensures
            final(self).wf(),
            final(self).chars == old(self).chars,
            final(self).line_no == old(self).line_no,
            (r as int, final(self).pos as nat) == read_num_spec(
                old(self).chars@,
                old(self).pos as nat,
                0,
            ),
    {
        let mut res: i32 = 0;
        while self.pos < self.chars.len() && self.chars[self.pos] >= '0' && self.chars[self.pos]
            <= '9'
            invariant
                self.wf(),
                self.chars == old(self).chars,
                self.line_no == old(self).line_no,
                0 <= res,
                read_num_spec(self.chars@, self.pos as nat, res as int) == read_num_spec(
                    old(self).chars@,
                    old(self).pos as nat,
                    0,
                ),
            decreases self.chars@.len() - self.pos,
        {
            let d: i32 = (self.chars[self.pos] as u32 - 48) as i32;
            if res > (i32::MAX - d) / 10 {
                res = i32::MAX;
            } else {
                res = res * 10 + d;
            }
            self.pos += 1;
        }
        res
    }

    /// Reads a quoted string whose opening quote was just read.
    fn read_qoth(&mut self) -> (r: Token)
        requires
            old(self).wf(),
        ensures
            final(self).wf(),
            final(self).chars == old(self).chars,
            (Quoted {
                text: r@->Qoth_0,
                pos: final(self).pos as nat,
                lines: final(self).line_no as nat,
            }) == read_qoth_spec(
                old(self).chars@,
                old(self).pos as nat,
                Seq::empty(),
                old(self).line_no as nat,
            ),
            r@ is Qoth,
            final(self).pos >= old(self).pos,
    {
        let mut res = String::new();
        loop
            invariant
                self.wf(),
                self.chars == old(self).chars,
                self.pos >= old(self).pos,
                read_qoth_spec(self.chars@, self.pos as nat, res@, self.line_no as nat)
                    == read_qoth_spec(
                    old(self).chars@,
                    old(self).pos as nat,
                    Seq::empty(),
                    old(self).line_no as nat,
                ),
            decreases self.chars@.len() - self.pos,
        {
            if self.pos >= self.chars.len() {
                return Token::Qoth(res);
            }
            let c = self.chars[self.pos];
            if c == '\\' {
                if self.pos + 1 < self.chars.len() {
                    res.push(self.chars[self.pos + 1]);
                    self.pos += 2;
                } else {
                    res.push(' ');
                    self.pos += 1;
                    return Token::Qoth(res);
                }
            } else if c == '"' {
                self.pos += 1;
                return Token::Qoth(res);
            } else if c == '\n' {
                self.line_no += 1;
                res.push('\n');
                self.pos += 1;
            } else {
                res.push(c);
                self.pos += 1;
            }
        }
    }

    /// Reads a name that starts at the position.
    fn read_ident(&mut self) -> (r: String)
        requires
            old(self).wf(),
        ensures
            final(self).wf(),
            final(self).chars == old(self).chars,
            final(self).line_no == old(self).line_no,
            (r@, final(self).pos as nat) == read_ident_spec(
                old(self).chars@,
                old(self).pos as nat,
                Seq::empty(),
            ),
            final(self).pos >= old(self).pos,
    {
        let mut res = String::new();
        loop
            invariant
                self.wf(),
                self.chars == old(self).chars,
                self.line_no == old(self).line_no,
                self.pos >= old(self).pos,
                read_ident_spec(self.chars@, self.pos as nat, res@) == read_ident_spec(
                    old(self).chars@,
                    old(self).pos as nat,
                    Seq::empty(),
                ),
            decreases self.chars@.len() - self.pos,
        {
            if self.pos >= self.chars.len() {
                return res;
            }
            let c = self.chars[self.pos];
            if Token::special_char(c).is_some() {
                return res;
            }
            if c == ' ' || c == '\t' {
                self.pos += 1;
                return res;
            }
            if c == '\\' {
                if self.pos + 1 < self.chars.len() {
                    res.push(self.chars[self.pos + 1]);
                    self.pos += 2;
                } else {
                    res.push('\\');
                    self.pos += 1;
                    return res;
                }
            } else {
                res.push(c);
                self.pos += 1;
            }
        }
    }

    /// The next token of the text, or nothing at its end.
    pub fn next(&mut self) -> (r: Option<Token>)
        requires
            old(self).wf(),
        ensures
            final(self).wf(),
            final(self).chars == old(self).chars,
            (Lexed {
                tok: match r {
                    Some(t) => Some(t@),
                    None => None,
                },
                pos: final(self).pos as nat,
                lines: final(self).line_no as nat,
            }) == next_token(old(self).chars@, old(self).pos as nat, old(self).line_no as nat),
            r is Some ==> final(self).pos > old(self).pos,
    {
        while self.pos < self.chars.len() && (self.chars[self.pos] == ' ' || self.chars[self.pos]
            == '\t')
            invariant
                self.wf(),
                self.chars == old(self).chars,
                self.line_no == old(self).line_no,
                self.pos >= old(self).pos,
                skip_blanks(self.chars@, self.pos as nat) == skip_blanks(
                    old(self).chars@,
                    old(self).pos as nat,
                ),
            decreases self.chars@.len() - self.pos,
        {
            self.pos += 1;
        }
        if self.pos >= self.chars.len() {
            return None;
        }
        let c = self.chars[self.pos];
        if let Some(t) = Token::special_char(c) {
            if c == '\n' {
                self.line_no += 1;
            }
            self.pos += 1;
            return Some(t);
        }
        if c == '"' {
            self.pos += 1;
            return Some(self.read_qoth());
        }
        if c >= '0' && c <= '9' {
            let ghost start = self.pos;
            let n = self.read_num();
            assert(self.pos > start) by {
                reveal_with_fuel(read_num_spec, 2);
                lemma_read_num_moves(self.chars@, (start + 1) as nat, 0);
                lemma_read_num_moves(self.chars@, (start + 1) as nat, i32::MAX as int);
                let d = (self.chars@[start as int] as int) - 48;
                lemma_read_num_moves(self.chars@, (start + 1) as nat, d);
            }
            return Some(Token::Num(n));
        }
        let ghost start = self.pos;
        let id = self.read_ident();
        assert(self.pos > start) by {
            lemma_read_ident_moves(self.chars@, start as nat, Seq::empty());
        }
        let tok = if crate::text::str_is(id.as_str(), "true") {
            Token::True
        } else if crate::text::str_is(id.as_str(), "false") {
            Token::False
        } else if crate::text::str_is(id.as_str(), "expr") {
            Token::Expr
        } else if crate::text::str_is(id.as_str(), "fn") || crate::text::str_is(
            id.as_str(),
            "func",
        ) {
            Token::Fn
        } else {
            Token::Ident(id)
        };
        Some(tok)
    }
}

/// Reading digits never moves backwards.
pub proof fn lemma_read_num_moves(s: Seq<char>, pos: nat, acc: int)
    ensures
        read_num_spec(s, pos, acc).1 >= pos,
    decreases s.len() - pos,
{
    if pos < s.len() && crate::text::is_digit(s[pos as int]) {
        let d = (s[pos as int] as int) - 48;
        let next = if acc * 10 + d > i32::MAX {
            i32::MAX as int
        } else {
            acc * 10 + d
        };
        lemma_read_num_moves(s, pos + 1, next);
    }
}

/// Reading a name that starts with a character of a name moves forward.
pub proof fn lemma_read_ident_moves(s: Seq<char>, pos: nat, acc: Seq<char>)
    requires
        pos < s.len(),
        special(s[pos as int]) is None,
    ensures
        read_ident_spec(s, pos, acc).1 > pos,
{
    if is_blank(s[pos as int]) {
    } else if s[pos as int] == '\\' {
        if pos + 1 < s.len() {
            lemma_read_ident_stays(s, pos + 2, acc.push(s[pos as int + 1]));
        }
    } else {
        lemma_read_ident_stays(s, pos + 1, acc.push(s[pos as int]));
    }
}

/// Reading a name never moves backwards.
pub proof fn lemma_read_ident_stays(s: Seq<char>, pos: nat, acc: Seq<char>)
    ensures
        read_ident_spec(s, pos, acc).1 >= pos,
    decreases s.len() - pos,
{
    if pos >= s.len() {
    } else if special(s[pos as int]) is Some {
    } else if is_blank(s[pos as int]) {
    } else if s[pos as int] == '\\' {
        if pos + 1 < s.len() {
            lemma_read_ident_stays(s, pos + 2, acc.push(s[pos as int + 1]));
        }
    } else {
        lemma_read_ident_stays(s, pos + 1, acc.push(s[pos as int]));
    }
}

} // verus!
