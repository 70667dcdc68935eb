//! The tokenizer: turns schema text into identifier, number and punctuation
//! tokens, each carrying its source span. Positions count lines, columns and
//! the offset in characters from the start of the input.

use vstd::prelude::*;

verus! {

/// What `char::is_alphabetic` returns: a fixed classification of the
/// character alone.
pub uninterp spec fn char_alphabetic(c: char) -> bool;

/// What `char::is_alphanumeric` returns: a fixed classification of the
/// character alone.
pub uninterp spec fn char_alphanumeric(c: char) -> bool;

/// What `char::is_whitespace` returns: a fixed classification of the
/// character alone.
pub uninterp spec fn char_whitespace(c: char) -> bool;

/// Relies on `char::is_alphabetic`: a pure classification of the character.
#[verifier::external_body]
fn is_alphabetic_char(c: char) -> (r: bool)
    ensures
        r == char_alphabetic(c),
{
    c.is_alphabetic()
}

/// Relies on `char::is_alphanumeric`: a pure classification of the character.
#[verifier::external_body]
fn is_alphanumeric_char(c: char) -> (r: bool)
    ensures
        r == char_alphanumeric(c),
{
    c.is_alphanumeric()
}

/// Relies on `char::is_whitespace`: a pure classification of the character.
#[verifier::external_body]
fn is_whitespace_char(c: char) -> (r: bool)
    ensures
        r == char_whitespace(c),
{
    c.is_whitespace()
}

/// An identifier may start with an underscore or an alphabetic character.
pub open spec fn spec_id_start(c: char) -> bool {
    c == '_' || char_alphabetic(c)
}

/// An identifier continues with underscores and alphanumeric characters.
pub open spec fn spec_id_continue(c: char) -> bool {
    c == '_' || char_alphanumeric(c)
}

/// An ASCII decimal digit.
pub open spec fn spec_digit_char(c: char) -> bool {
    48 <= c as u32 && c as u32 <= 57
}

fn is_id_start(c: char) -> (r: bool)
    ensures
        r == spec_id_start(c),
{
    c == '_' || is_alphabetic_char(c)
}

fn is_id_continue(c: char) -> (r: bool)
    ensures
        r == spec_id_continue(c),
{
    c == '_' || is_alphanumeric_char(c)
}

fn is_digit_char(c: char) -> (r: bool)
    ensures
        r == spec_digit_char(c),
{
    let u = c as u32;
    48 <= u && u <= 57
}

/// The kinds of token the schema grammar knows.
#[derive(Debug, PartialEq, Eq, Structural, Clone, Copy)]
pub enum TokenKind {
    Ident,
    Number,
    Colon,
    Comma,
    LBrace,
    RBrace,
    LBracket,
    RBracket,
    At,
    Eof,
    Unknown,
}

/// One token with the span of text it was read from.
#[derive(Debug, PartialEq, Eq, Structural, Clone, Copy)]
pub struct Token {
    pub kind: TokenKind,
    pub span: Span,
}

/// A half-open range of source positions.
#[derive(Debug, PartialEq, Eq, Structural, Clone, Copy)]
pub struct Span {
    pub start: Pos,
    pub end: Pos,
}

impl Default for Span {
    fn default() -> (r: Span)
        ensures
            r.start.line == 0 && r.start.column == 0 && r.start.offset == 0,
            r.end.line == 0 && r.end.column == 0 && r.end.offset == 0,
    {
        Span { start: Pos { line: 0, column: 0, offset: 0 }, end: Pos { line: 0, column: 0, offset: 0 } }
    }
}

/// A source position: zero-based line and column, and the offset in
/// characters from the start of the input.
#[derive(Debug, PartialEq, Eq, Structural, Clone, Copy)]
pub struct Pos {
    pub line: u32,
    pub column: u32,
    pub offset: usize,
}

impl Default for Pos {
    fn default() -> (r: Pos)
        ensures
            r.line == 0 && r.column == 0 && r.offset == 0,
    {
        Pos { line: 0, column: 0, offset: 0 }
    }
}

/// The lexer's working position.
#[derive(Clone, Copy)]
pub(crate) struct LexerPos {
    pub(crate) line: u32,
    pub(crate) col: u32,
    pub(crate) off: usize,
}

impl LexerPos {
    pub(crate) open spec fn wf_upto(self, n: int) -> bool {
        &&& self.off <= n
        &&& self.col <= self.off
        &&& self.line <= self.off
    }

    pub(crate) open spec fn spec_off(self) -> int {
        self.off as int
    }

    fn increase_by_char_len(&mut self, c: char)
        requires
            old(self).off < 0xFFFF_FFFFusize,
            old(self).col <= old(self).off,
            old(self).line <= old(self).off,
        ensures
            final(self).off == old(self).off + 1,
            final(self).col <= final(self).off,
            final(self).line <= final(self).off,
    {
        self.col = self.col + 1;
        self.off = self.off + 1;
        if c == '\n' {
            self.line = self.line + 1;
            self.col = 0;
        }
    }

    fn to_pos(self) -> (p: Pos)
        ensures
            p.line == self.line,
            p.column == self.col,
            p.offset == self.off,
    {
        Pos { line: self.line, column: self.col, offset: self.off }
    }
}

/// The tokenizer over the input characters.
pub(crate) struct Lexer {
    pub(crate) chars: Vec<char>,
    pub(crate) start: LexerPos,
    pub(crate) curr: LexerPos,
}

impl Lexer {
    pub(crate) open spec fn wf(self) -> bool {
        &&& self.chars@.len() <= 0xFFFF_FFFFusize
        &&& self.curr.wf_upto(self.chars@.len() as int)
        &&& self.start.wf_upto(self.curr.spec_off())
    }

    pub(crate) open spec fn off(self) -> int {
        self.curr.spec_off()
    }

    pub(crate) fn new(chars: Vec<char>) -> (r: Lexer)
        requires
            chars@.len() <= 0xFFFF_FFFFusize,
        ensures
            r.wf(),
            r.chars@ == chars@,
            r.off() == 0,
    {
        Lexer {
            chars,
            start: LexerPos { line: 0, col: 0, off: 0 },
            curr: LexerPos { line: 0, col: 0, off: 0 },
        }
    }

    fn next_char(&mut self) -> (c: char)
        requires
            old(self).wf(),
        ensures
            final(self).wf(),
            final(self).chars@ == old(self).chars@,
            final(self).start == old(self).start,
            old(self).off() < old(self).chars@.len() ==> {
                &&& c == old(self).chars@[old(self).off()]
                &&& final(self).off() == old(self).off() + 1
            },
            old(self).off() >= old(self).chars@.len() ==> c == '\0' && final(self).off()
                == old(self).off(),
    {
        if self.curr.off < self.chars.len() {
            let c = self.chars[self.curr.off];
            self.curr.increase_by_char_len(c);
            c
        } else {
            '\0'
        }
    }

    fn peek_char(&self, n: usize) -> (c: char)
        requires
            self.wf(),
        ensures
            self.off() + n < self.chars@.len() ==> c == self.chars@[self.off() + n],
            self.off() + n >= self.chars@.len() ==> c == '\0',
    {
        if self.curr.off < self.chars.len() && n < self.chars.len() - self.curr.off {
            self.chars[self.curr.off + n]
        } else {
            '\0'
        }
    }

    fn token(&mut self, kind: TokenKind) -> (t: Token)
        requires
            old(self).wf(),
        ensures
            final(self).wf(),
            final(self).chars@ == old(self).chars@,
            final(self).curr == old(self).curr,
            final(self).start == old(self).curr,
            t.kind == kind,
            t.span.start.offset == old(self).start.spec_off(),
            t.span.end.offset == old(self).off(),
    {
        let t = Token {
            kind,
            span: Span { start: self.start.to_pos(), end: self.curr.to_pos() },
        };
        self.start = self.curr;
        t
    }

    fn skip_ws(&mut self)
        requires
            old(self).wf(),
        ensures
            final(self).wf(),
            final(self).chars@ == old(self).chars@,
            final(self).start == final(self).curr,
            final(self).off() >= old(self).off(),
    {
        loop
            invariant
                self.wf(),
                self.chars@ == old(self).chars@,
                self.off() >= old(self).off(),
            decreases self.chars@.len() - self.off(),
        {
            if self.curr.off >= self.chars.len() {
                break;
            }
            let c = self.peek_char(0);
            if !is_whitespace_char(c) {
                break;
            }
            self.next_char();
        }
        self.start = self.curr;
    }

    fn skip_id_continue(&mut self)
        requires
            old(self).wf(),
        ensures
            final(self).wf(),
            final(self).chars@ == old(self).chars@,
            final(self).start == old(self).start,
            final(self).off() >= old(self).off(),
            forall|k: int|
                old(self).off() <= k < final(self).off() ==> spec_id_continue(
                    final(self).chars@[k],
                ),
    {
        loop
            invariant
                self.wf(),
                self.chars@ == old(self).chars@,
                self.start == old(self).start,
                self.off() >= old(self).off(),
                forall|k: int| old(self).off() <= k < self.off() ==> spec_id_continue(self.chars@[k]),
            decreases self.chars@.len() - self.off(),
        {
            let c = self.peek_char(0);
            if c == '\0' || !is_id_continue(c) {
                break;
            }
            assert(self.off() < self.chars@.len());
            self.next_char();
        }
    }

    fn skip_digits(&mut self)
        requires
            old(self).wf(),
        ensures
            final(self).wf(),
            final(self).chars@ == old(self).chars@,
            final(self).start == old(self).start,
            final(self).off() >= old(self).off(),
            forall|k: int|
                old(self).off() <= k < final(self).off() ==> spec_digit_char(final(self).chars@[k]),
    {
        loop
            invariant
                self.wf(),
                self.chars@ == old(self).chars@,
                self.start == old(self).start,
                self.off() >= old(self).off(),
                forall|k: int| old(self).off() <= k < self.off() ==> spec_digit_char(self.chars@[k]),
            decreases self.chars@.len() - self.off(),
        {
            let c = self.peek_char(0);
            if !is_digit_char(c) {
                break;
            }
            assert(c as u32 != 0) by {
                assert(spec_digit_char(c));
            }
            assert(self.off() < self.chars@.len()) by {
                if self.off() >= self.chars@.len() {
                    assert(c == '\0');
                }
            }
            self.next_char();
        }
    }

    pub(crate) fn next_token(&mut self) -> (t: Token)
        requires
            old(self).wf(),
        ensures
            final(self).wf(),
            final(self).chars@ == old(self).chars@,
            t.span.start.offset >= old(self).off(),
            t.span.start.offset <= t.span.end.offset,
            t.span.end.offset == final(self).off(),
            final(self).off() <= final(self).chars@.len(),
            t.kind != TokenKind::Eof ==> t.span.end.offset > t.span.start.offset,
            t.kind == TokenKind::Ident ==> spec_id_start(
                final(self).chars@[t.span.start.offset as int],
            ) && forall|k: int|
                t.span.start.offset < k < t.span.end.offset ==> spec_id_continue(
                    final(self).chars@[k],
                ),
            t.kind == TokenKind::Number ==> forall|k: int|
                t.span.start.offset <= k < t.span.end.offset ==> spec_digit_char(
                    final(self).chars@[k],
                ),
        decreases old(self).chars@.len() - old(self).off(),
    {
        self.skip_ws();
        let ghost mid = self.off();
        let c = self.next_char();
        if c == '\0' {
            self.token(TokenKind::Eof)
        } else if c == ':' {
            self.token(TokenKind::Colon)
        } else if c == ',' {
            self.token(TokenKind::Comma)
        } else if c == '{' {
            self.token(TokenKind::LBrace)
        } else if c == '}' {
            self.token(TokenKind::RBrace)
        } else if c == '[' {
            self.token(TokenKind::LBracket)
        } else if c == ']' {
            self.token(TokenKind::RBracket)
        } else if c == '@' {
            self.token(TokenKind::At)
        } else if c == '/' && self.peek_char(0) == '/' {
            self.next_char();
            loop
                invariant
                    self.wf(),
                    self.chars@ == old(self).chars@,
                    self.off() >= mid + 2,
                decreases self.chars@.len() - self.off(),
            {
                if self.curr.off >= self.chars.len() {
                    break;
                }
                if self.peek_char(0) == '\n' {
                    break;
                }
                self.next_char();
            }
            self.start = self.curr;
            self.next_token()
        } else if is_id_start(c) {
            self.skip_id_continue();
            self.token(TokenKind::Ident)
        } else if is_digit_char(c) {
            self.skip_digits();
            self.token(TokenKind::Number)
        } else {
            self.token(TokenKind::Unknown)
        }
    }

    pub(crate) fn next(&mut self) -> (r: Option<Token>)
        requires
            old(self).wf(),
        ensures
            final(self).wf(),
            final(self).chars@ == old(self).chars@,
            final(self).off() >= old(self).off(),
            r matches Some(t) ==> {
                &&& t.kind != TokenKind::Eof
                &&& t.span.start.offset >= old(self).off()
                &&& t.span.start.offset < t.span.end.offset
                &&& t.span.end.offset == final(self).off()
                &&& t.span.end.offset <= final(self).chars@.len()
                &&& (t.kind == TokenKind::Ident ==> spec_id_start(
                    final(self).chars@[t.span.start.offset as int],
                ) && forall|k: int|
                    t.span.start.offset < k < t.span.end.offset ==> spec_id_continue(
                        final(self).chars@[k],
                    ))
                &&& (t.kind == TokenKind::Number ==> forall|k: int|
                    t.span.start.offset <= k < t.span.end.offset ==> spec_digit_char(
                        final(self).chars@[k],
                    ))
            },
    {
        let next = self.next_token();
        if next.kind == TokenKind::Eof {
            return None;
        }
        Some(next)
    }
}

} // verus!
