//! Recursive-descent parser for the schema grammar: a file of `message` and
//! `bitfield` definitions. It guarantees the shape of the tree it hands to
//! the semantic core: every name nonempty, and no more declared items than
//! the input has characters.

use vstd::prelude::*;
use crate::ast::{
    BitFlag, Bitfield, Field, File, Message, NativeType, TopLevel, TypeExpr, TypeIdent,
    bitfield_wf, decl_count, decl_count_seq, decl_items, def_wf, field_wf, file_names_wf,
    message_wf, type_expr_wf,
};
use crate::error::ParseError;
use crate::lexer::{Lexer, Span, Token, TokenKind, Pos, spec_digit_char};
use crate::text::{all_digits, push_char, spec_dec_val, spec_digit_val, str_equal};
use vstd::string::StrSliceExecFns;

verus! {

/// Parses a whole schema file.
pub fn parse(source: &str) -> (r: Result<File, ParseError>)
    requires
        source@.len() <= 0xFFFF_FFFFusize,
    ensures
        r matches Ok(f) ==> file_names_wf(f) && decl_count(f) <= source@.len(),
{
    let mut parser = Parser::new(source);
    parser.parse_file()
}

/// The parser's state: the tokenizer plus one token of lookahead.
pub struct Parser {
    lexer: Lexer,
    lookahead: Option<Token>,
}

impl Parser {
    /// The characters being parsed.
    pub closed spec fn src(self) -> Seq<char> {
        self.lexer.chars@
    }

    /// The parser's internal invariant.
    pub closed spec fn wf(self) -> bool {
        &&& self.lexer.wf()
        &&& match self.lookahead {
            Some(t) => {
                &&& t.kind != TokenKind::Eof
                &&& t.span.start.offset < t.span.end.offset
                &&& t.span.end.offset <= self.lexer.off()
            },
            None => true,
        }
    }

    /// How many characters stand before the next unconsumed token.
    pub closed spec fn progress(self) -> int {
        match self.lookahead {
            Some(t) => t.span.start.offset as int,
            None => self.lexer.off(),
        }
    }

    proof fn lemma_progress_in_bounds(self)
        requires
            self.wf(),
        ensures
            0 <= self.progress() <= self.src().len(),
    {
    }

    pub fn new(source: &str) -> (r: Parser)
        requires
            source@.len() <= 0xFFFF_FFFFusize,
        ensures
            r.wf(),
            r.src() == source@,
            r.progress() >= 0,
    {
        let n = source.unicode_len();
        let mut chars: Vec<char> = Vec::new();
        let mut i: usize = 0;
        while i < n
            invariant
                i <= n,
                n == source@.len(),
                chars@ =~= source@.subrange(0, i as int),
            decreases n - i,
        {
            chars.push(source.get_char(i));
            proof {
                assert(source@.subrange(0, i + 1 as int) =~= source@.subrange(0, i as int).push(
                    source@[i as int],
                ));
            }
            i = i + 1;
        }
        proof {
            assert(chars@ =~= source@);
        }
        let mut lexer = Lexer::new(chars);
        let lookahead = lexer.next();
        Parser { lexer, lookahead }
    }

    fn peek(&self) -> (r: Option<Token>)
        ensures
            r == self.lookahead,
    {
        self.lookahead
    }

    fn advance(&mut self) -> (r: Option<Token>)
        requires
            old(self).lexer.wf(),
        ensures
            final(self).lexer.wf(),
            final(self).lexer.chars@ == old(self).lexer.chars@,
            final(self).lookahead == old(self).lookahead,
            final(self).lexer.off() >= old(self).lexer.off(),
            r matches Some(t) ==> {
                &&& t.kind != TokenKind::Eof
                &&& t.span.start.offset >= old(self).lexer.off()
                &&& t.span.start.offset < t.span.end.offset
                &&& t.span.end.offset == final(self).lexer.off()
            },
    {
        if let Some(tok) = self.lexer.next() {
            return Some(tok);
        }
        None
    }

    fn next(&mut self) -> (r: Option<Token>)
        requires
            old(self).wf(),
        ensures
            final(self).wf(),
            final(self).src() == old(self).src(),
            r == old(self).lookahead,
            final(self).progress() >= old(self).progress(),
            r is Some ==> final(self).progress() >= old(self).progress() + 1,
            r matches Some(t) ==> {
                &&& t.kind != TokenKind::Eof
                &&& t.span.start.offset == old(self).progress()
                &&& t.span.start.offset < t.span.end.offset
                &&& t.span.end.offset <= old(self).src().len()
            },
    {
        let next = self.lookahead;
        self.lookahead = self.advance();
        next
    }

    fn expect(&mut self, kind: TokenKind) -> (r: Result<Token, ParseError>)
        requires
            old(self).wf(),
        ensures
            final(self).wf(),
            final(self).src() == old(self).src(),
            final(self).progress() >= old(self).progress(),
            r matches Ok(t) ==> {
                &&& t.kind == kind
                &&& t.span.start.offset < t.span.end.offset
                &&& t.span.end.offset <= old(self).src().len()
                &&& final(self).progress() >= old(self).progress() + 1
            },
            r is Err ==> *final(self) == *old(self),
    {
        match self.peek() {
            Some(tok) => {
                if tok.kind == kind {
                    let t = self.next();
                    Ok(t.unwrap())
                } else {
                    Err(ParseError::UnexpectedToken { expected: kind, got: tok })
                }
            },
            None => Err(ParseError::Eof),
        }
    }

    fn slice(&self, span: Span) -> (r: String)
        requires
            span.start.offset <= span.end.offset,
            span.end.offset <= self.src().len(),
        ensures
            r@ == self.src().subrange(span.start.offset as int, span.end.offset as int),
    {
        let mut s = String::new();
        let mut i: usize = span.start.offset;
        while i < span.end.offset
            invariant
                span.start.offset <= i <= span.end.offset,
                span.end.offset <= self.src().len(),
                self.src() == self.lexer.chars@,
                s@ =~= self.src().subrange(span.start.offset as int, i as int),
            decreases span.end.offset - i,
        {
            push_char(&mut s, self.lexer.chars[i]);
            proof {
                assert(self.src().subrange(span.start.offset as int, i + 1 as int) =~= self.src()
                    .subrange(span.start.offset as int, i as int).push(self.src()[i as int]));
            }
            i = i + 1;
        }
        proof {
            assert(s@ =~= self.src().subrange(span.start.offset as int, span.end.offset as int));
        }
        s
    }

    fn token_text_is(&self, span: Span, s: &str) -> (r: bool)
        requires
            span.start.offset <= span.end.offset,
            span.end.offset <= self.src().len(),
        ensures
            r == (self.src().subrange(span.start.offset as int, span.end.offset as int) == s@),
    {
        let t = self.slice(span);
        str_equal(t.as_str(), s)
    }

    fn expect_ident(&mut self) -> (r: Result<String, ParseError>)
        requires
            old(self).wf(),
        ensures
            final(self).wf(),
            final(self).src() == old(self).src(),
            final(self).progress() >= old(self).progress(),
            r matches Ok(s) ==> {
                &&& s@.len() >= 1
                &&& final(self).progress() >= old(self).progress() + 1
            },
    {
        let tok = self.expect(TokenKind::Ident)?;
        Ok(self.slice(tok.span))
    }

    /// The numeric value of a span of decimal digits, if it fits in a byte.
    fn parse_u8_span(&self, span: Span) -> (r: Option<u8>)
        requires
            span.start.offset <= span.end.offset,
            span.end.offset <= self.src().len(),
        ensures
            ({
                let t = self.src().subrange(span.start.offset as int, span.end.offset as int);
                &&& (r matches Some(v) ==> all_digits(t) && spec_dec_val(t) <= 255 && v
                    == spec_dec_val(t))
                &&& (all_digits(t) && spec_dec_val(t) <= 255 ==> r is Some)
            }),
    {
        let ghost t = self.src().subrange(span.start.offset as int, span.end.offset as int);
        let mut acc: u32 = 0;
        let mut i: usize = span.start.offset;
        while i < span.end.offset
            invariant
                span.start.offset <= i <= span.end.offset,
                span.end.offset <= self.src().len(),
                self.src() == self.lexer.chars@,
                t == self.src().subrange(span.start.offset as int, span.end.offset as int),
                all_digits(self.src().subrange(span.start.offset as int, i as int)),
                spec_dec_val(self.src().subrange(span.start.offset as int, i as int)) <= 255
                    ==> acc == spec_dec_val(
                    self.src().subrange(span.start.offset as int, i as int),
                ),
                spec_dec_val(self.src().subrange(span.start.offset as int, i as int)) > 255 ==> acc
                    >= 256,
                acc <= 2569,
            decreases span.end.offset - i,
        {
            let ghost prefix = self.src().subrange(span.start.offset as int, i as int);
            let c = self.lexer.chars[i];
            let u = c as u32;
            if !(48 <= u && u <= 57) {
                proof {
                    assert(t[i - span.start.offset] == c);
                    assert(!spec_digit_char(c));
                    assert(!all_digits(t));
                }
                return None;
            }
            let d = u - 48;
            if acc > 255 {
                acc = 256;
            } else {
                acc = acc * 10 + d;
            }
            proof {
                let prefix1 = self.src().subrange(span.start.offset as int, i + 1 as int);
                assert(prefix1 =~= prefix.push(self.src()[i as int]));
                assert(prefix1.drop_last() =~= prefix);
                assert(prefix1.last() == c);
                assert(spec_dec_val(prefix1) == spec_dec_val(prefix) * 10 + spec_digit_val(c));
                assert forall|k: int| 0 <= k < prefix1.len() implies spec_digit_char(
                    #[trigger] prefix1[k],
                ) by {
                    if k < prefix.len() {
                        assert(prefix1[k] == prefix[k]);
                    }
                }
            }
            i = i + 1;
        }
        proof {
            assert(t =~= self.src().subrange(span.start.offset as int, i as int));
        }
        if acc > 255 {
            None
        } else {
            Some(acc as u8)
        }
    }

    pub fn parse_file(&mut self) -> (r: Result<File, ParseError>)
        requires
            old(self).wf(),
        ensures
            final(self).src() == old(self).src(),
            r matches Ok(f) ==> file_names_wf(f) && decl_count(f) <= old(self).src().len(),
    {
        let mut defs: Vec<TopLevel> = Vec::new();
        proof {
            self.lemma_progress_in_bounds();
        }
        loop
            invariant
                self.wf(),
                self.src() == old(self).src(),
                self.progress() >= 0,
                decl_count_seq(defs@) <= self.progress(),
                forall|i: int| 0 <= i < defs@.len() ==> def_wf(#[trigger] defs@[i]),
            decreases self.src().len() - self.progress(),
        {
            proof {
                self.lemma_progress_in_bounds();
            }
            let tok = match self.peek() {
                Some(t) => t,
                None => { break; },
            };
            if tok.kind == TokenKind::Ident {
                let ghost pre = self.progress();
                if self.token_text_is(tok.span, "message") {
                    let m = self.parse_message()?;
                    proof {
                        let d = TopLevel::Message(m);
                        assert(defs@.push(d).drop_last() =~= defs@);
                    }
                    defs.push(TopLevel::Message(m));
                } else if self.token_text_is(tok.span, "bitfield") {
                    let b = self.parse_bitfield()?;
                    proof {
                        let d = TopLevel::Bitfield(b);
                        assert(defs@.push(d).drop_last() =~= defs@);
                    }
                    defs.push(TopLevel::Bitfield(b));
                } else {
                    return Err(ParseError::UnexpectedIdent {
                        expected: "message",
                        span: tok.span,
                    });
                }
            } else {
                return Err(ParseError::UnexpectedToken { expected: TokenKind::Ident, got: tok });
            }
        }
        proof {
            self.lemma_progress_in_bounds();
        }
        Ok(File { defs })
    }

    fn parse_message(&mut self) -> (r: Result<Message, ParseError>)
        requires
            old(self).wf(),
        ensures
            final(self).wf(),
            final(self).src() == old(self).src(),
            final(self).progress() >= old(self).progress(),
            r matches Ok(m) ==> {
                &&& message_wf(m)
                &&& final(self).progress() >= old(self).progress() + 1 + m.fields@.len()
            },
    {
        let msg_kw = self.expect(TokenKind::Ident)?;
        if !self.token_text_is(msg_kw.span, "message") {
            return Err(ParseError::UnexpectedToken { expected: TokenKind::Ident, got: msg_kw });
        }
        let name = self.expect_ident()?;
        self.expect(TokenKind::LBrace)?;
        let ghost base = self.progress();
        let mut fields: Vec<Field> = Vec::new();
        loop
            invariant
                self.wf(),
                self.src() == old(self).src(),
                self.progress() >= base + fields@.len(),
                base >= old(self).progress() + 3,
                forall|i: int| 0 <= i < fields@.len() ==> field_wf(#[trigger] fields@[i]),
                name@.len() >= 1,
            decreases self.src().len() - self.progress(),
        {
            proof {
                self.lemma_progress_in_bounds();
            }
            let cont = match self.peek() {
                Some(t) => t.kind != TokenKind::RBrace,
                None => false,
            };
            if !cont {
                break;
            }
            let f = self.parse_field()?;
            fields.push(f);
        }
        self.expect(TokenKind::RBrace)?;
        Ok(Message { name, fields })
    }

    fn parse_bitfield(&mut self) -> (r: Result<Bitfield, ParseError>)
        requires
            old(self).wf(),
        ensures
            final(self).wf(),
            final(self).src() == old(self).src(),
            final(self).progress() >= old(self).progress(),
            r matches Ok(b) ==> {
                &&& bitfield_wf(b)
                &&& final(self).progress() >= old(self).progress() + 1 + b.flags@.len()
            },
    {
        let kw = self.expect(TokenKind::Ident)?;
        if !self.token_text_is(kw.span, "bitfield") {
            return Err(ParseError::UnexpectedToken { expected: TokenKind::Ident, got: kw });
        }
        let name = self.expect_ident()?;
        self.expect(TokenKind::LBrace)?;
        let ghost base = self.progress();
        let mut flags: Vec<BitFlag> = Vec::new();
        loop
            invariant
                self.wf(),
                self.src() == old(self).src(),
                self.progress() >= base + flags@.len(),
                base >= old(self).progress() + 3,
                forall|i: int| 0 <= i < flags@.len() ==> (#[trigger] flags@[i]).name@.len() > 0,
                name@.len() >= 1,
            decreases self.src().len() - self.progress(),
        {
            proof {
                self.lemma_progress_in_bounds();
            }
            let cont = match self.peek() {
                Some(t) => t.kind != TokenKind::RBrace,
                None => false,
            };
            if !cont {
                break;
            }
            let flag_name = self.expect_ident()?;
            self.expect(TokenKind::Colon)?;
            let num = self.expect(TokenKind::Number)?;
            let offset = match self.parse_u8_span(num.span) {
                Some(offset) => offset,
                None => { return Err(ParseError::InvalidNumber(num.span)); },
            };
            self.expect(TokenKind::Comma)?;
            flags.push(BitFlag { name: flag_name, offset });
        }
        self.expect(TokenKind::RBrace)?;
        Ok(Bitfield { name, flags })
    }

    fn parse_field(&mut self) -> (r: Result<Field, ParseError>)
        requires
            old(self).wf(),
        ensures
            final(self).wf(),
            final(self).src() == old(self).src(),
            final(self).progress() >= old(self).progress(),
            r matches Ok(f) ==> {
                &&& field_wf(f)
                &&& final(self).progress() >= old(self).progress() + 1
            },
    {
        let has_decorator = match self.peek() {
            Some(t) => t.kind == TokenKind::At,
            None => false,
        };
        let decorator = if has_decorator {
            self.next();
            Some(self.expect_ident()?)
        } else {
            None
        };
        let name = self.expect_ident()?;
        self.expect(TokenKind::Colon)?;
        let ty = self.parse_type_expr()?;
        self.expect(TokenKind::Comma)?;
        Ok(Field { decorator, name, ty })
    }

    fn parse_type_expr(&mut self) -> (r: Result<TypeExpr, ParseError>)
        requires
            old(self).wf(),
        ensures
            final(self).wf(),
            final(self).src() == old(self).src(),
            final(self).progress() >= old(self).progress(),
            r matches Ok(te) ==> {
                &&& type_expr_wf(te)
                &&& final(self).progress() >= old(self).progress() + 1
            },
    {
        let tok = match self.next() {
            Some(t) => t,
            None => { return Err(ParseError::Eof); },
        };
        if tok.kind != TokenKind::Ident {
            return Err(ParseError::UnexpectedToken { expected: TokenKind::Ident, got: tok });
        }
        let base = if self.token_text_is(tok.span, "u8") {
            TypeIdent::Native(NativeType::U8)
        } else if self.token_text_is(tok.span, "u16") {
            TypeIdent::Native(NativeType::U16)
        } else if self.token_text_is(tok.span, "u32") {
            TypeIdent::Native(NativeType::U32)
        } else if self.token_text_is(tok.span, "u64") {
            TypeIdent::Native(NativeType::U64)
        } else if self.token_text_is(tok.span, "i8") {
            TypeIdent::Native(NativeType::I8)
        } else if self.token_text_is(tok.span, "i16") {
            TypeIdent::Native(NativeType::I16)
        } else if self.token_text_is(tok.span, "i32") {
            TypeIdent::Native(NativeType::I32)
        } else if self.token_text_is(tok.span, "i64") {
            TypeIdent::Native(NativeType::I64)
        } else if self.token_text_is(tok.span, "vu32") {
            TypeIdent::Native(NativeType::VU32)
        } else if self.token_text_is(tok.span, "vu64") {
            TypeIdent::Native(NativeType::VU64)
        } else if self.token_text_is(tok.span, "vi32") {
            TypeIdent::Native(NativeType::VI32)
        } else if self.token_text_is(tok.span, "vi64") {
            TypeIdent::Native(NativeType::VI64)
        } else {
            TypeIdent::Custom(self.slice(tok.span))
        };
        let has_bracket = match self.peek() {
            Some(t) => t.kind == TokenKind::LBracket,
            None => false,
        };
        if has_bracket {
            self.next();
            let next_kind = match self.peek() {
                Some(t) => Some(t.kind),
                None => None,
            };
            match next_kind {
                Some(TokenKind::RBracket) => {
                    self.next();
                    Ok(TypeExpr::ArrayNoField(base))
                },
                Some(TokenKind::Ident) => {
                    let size_tok = self.next().unwrap();
                    let size = self.slice(size_tok.span);
                    self.expect(TokenKind::RBracket)?;
                    Ok(TypeExpr::ArrayWithField(base, size))
                },
                _ => {
                    let got = match self.peek() {
                        Some(t) => t,
                        None => Token {
                            kind: TokenKind::Eof,
                            span: Span {
                                start: Pos { line: 0, column: 0, offset: 0 },
                                end: Pos { line: 0, column: 0, offset: 0 },
                            },
                        },
                    };
                    Err(ParseError::UnexpectedToken { expected: TokenKind::Ident, got })
                },
            }
        } else {
            Ok(TypeExpr::Ident(base))
        }
    }
}

} // verus!
