//! The compiler's failure taxonomy: syntax errors from the parser, resolution
//! errors from the type registry builder, and ordering errors from the
//! dependency orderer. All are recoverable, typed values carrying the
//! offending names or positions.

use vstd::prelude::*;
use vstd::string::StringExecFns;
use crate::lexer::{Pos, Span, Token, TokenKind};
use crate::text::{dec_u64, spec_dec};

verus! {

/// The display name of a token kind.
pub open spec fn spec_kind_name(k: TokenKind) -> Seq<char> {
    match k {
        TokenKind::Ident => "Ident"@,
        TokenKind::Number => "Number"@,
        TokenKind::Colon => "Colon"@,
        TokenKind::Comma => "Comma"@,
        TokenKind::LBrace => "LBrace"@,
        TokenKind::RBrace => "RBrace"@,
        TokenKind::LBracket => "LBracket"@,
        TokenKind::RBracket => "RBracket"@,
        TokenKind::At => "At"@,
        TokenKind::Eof => "Eof"@,
        TokenKind::Unknown => "Unknown"@,
    }
}

fn kind_name(k: TokenKind) -> (r: &'static str)
    ensures
        r@ == spec_kind_name(k),
{
    match k {
        TokenKind::Ident => "Ident",
        TokenKind::Number => "Number",
        TokenKind::Colon => "Colon",
        TokenKind::Comma => "Comma",
        TokenKind::LBrace => "LBrace",
        TokenKind::RBrace => "RBrace",
        TokenKind::LBracket => "LBracket",
        TokenKind::RBracket => "RBracket",
        TokenKind::At => "At",
        TokenKind::Eof => "Eof",
        TokenKind::Unknown => "Unknown",
    }
}

/// A position rendered one-based, as `line:column`.
pub open spec fn spec_pos_text(p: Pos) -> Seq<char> {
    spec_dec((p.line + 1) as nat) + ":"@ + spec_dec((p.column + 1) as nat)
}

fn pos_text(p: Pos) -> (r: String)
    ensures
        r@ == spec_pos_text(p),
{
    let mut s = dec_u64(p.line as u64 + 1);
    s.append(":");
    let c = dec_u64(p.column as u64 + 1);
    s.append(c.as_str());
    s
}

/// A syntax error, carrying the source position it was found at.
#[derive(Debug, Clone, Copy, PartialEq)]
pub enum ParseError {
    UnexpectedToken { expected: TokenKind, got: Token },
    UnexpectedIdent { expected: &'static str, span: Span },
    InvalidNumber(Span),
    Eof,
}

impl ParseError {
    /// The diagnostic text of this error, with its one-based position.
    pub open spec fn spec_text(self) -> Seq<char> {
        match self {
            ParseError::UnexpectedToken { expected, got } => "unexpected token at "@
                + spec_pos_text(got.span.start) + ", expecting '"@ + spec_kind_name(expected)
                + "' got '"@ + spec_kind_name(got.kind) + "'"@,
            ParseError::UnexpectedIdent { expected, span } => "unexpected identifier at "@
                + spec_pos_text(span.start) + ", expecting '"@ + expected@ + "'"@,
            ParseError::InvalidNumber(span) => "invalid number at "@ + spec_pos_text(span.start),
            ParseError::Eof => "unexpected EOF"@,
        }
    }

    /// Renders the diagnostic text.
    pub fn describe(&self) -> (r: String)
        ensures
            r@ == self.spec_text(),
    {
        let mut s = String::new();
        match self {
            ParseError::UnexpectedToken { expected, got } => {
                s.append("unexpected token at ");
                let p = pos_text(got.span.start);
                s.append(p.as_str());
                s.append(", expecting '");
                s.append(kind_name(*expected));
                s.append("' got '");
                s.append(kind_name(got.kind));
                s.append("'");
            },
            ParseError::UnexpectedIdent { expected, span } => {
                s.append("unexpected identifier at ");
                let p = pos_text(span.start);
                s.append(p.as_str());
                s.append(", expecting '");
                s.append(expected);
                s.append("'");
            },
            ParseError::InvalidNumber(span) => {
                s.append("invalid number at ");
                let p = pos_text(span.start);
                s.append(p.as_str());
            },
            ParseError::Eof => {
                s.append("unexpected EOF");
            },
        }
        proof {
            assert(s@ =~= self.spec_text());
        }
        s
    }
}

/// Any failure of a whole compilation: a syntax error, a resolution error
/// (an undefined type or an unknown associated field), or a cyclic type
/// dependency naming the types left unordered.
#[derive(Debug, Clone, PartialEq)]
pub enum CompileError {
    Parse(ParseError),
    UndefinedType(String),
    UnknownAssociatedField(String),
    CyclicDependency(Vec<String>),
}

} // verus!
