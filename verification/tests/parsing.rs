use binlang::ast::{NativeType, TopLevel, TypeExpr, TypeIdent};
use binlang::error::ParseError;
use binlang::lexer::TokenKind;
use binlang::parser::parse;

#[test]
fn parse_simple_message() {
    let file = parse("message A { x: u8, }").unwrap();
    assert_eq!(file.defs.len(), 1);
    match &file.defs[0] {
        TopLevel::Message(m) => {
            assert_eq!(m.name, "A");
            assert_eq!(m.fields.len(), 1);
            assert_eq!(m.fields[0].name, "x");
            assert!(m.fields[0].decorator.is_none());
            assert!(matches!(
                m.fields[0].ty,
                TypeExpr::Ident(TypeIdent::Native(NativeType::U8))
            ));
        }
        _ => panic!("expected a message"),
    }
}

#[test]
fn parse_all_type_forms() {
    let file = parse("message M { a: vu32, b: Other, c: u8[], d: Other[a], }").unwrap();
    match &file.defs[0] {
        TopLevel::Message(m) => {
            assert!(matches!(
                m.fields[0].ty,
                TypeExpr::Ident(TypeIdent::Native(NativeType::VU32))
            ));
            match &m.fields[1].ty {
                TypeExpr::Ident(TypeIdent::Custom(n)) => assert_eq!(n, "Other"),
                other => panic!("unexpected type expr: {other:?}"),
            }
            assert!(matches!(
                m.fields[2].ty,
                TypeExpr::ArrayNoField(TypeIdent::Native(NativeType::U8))
            ));
            match &m.fields[3].ty {
                TypeExpr::ArrayWithField(TypeIdent::Custom(n), f) => {
                    assert_eq!(n, "Other");
                    assert_eq!(f, "a");
                }
                other => panic!("unexpected type expr: {other:?}"),
            }
        }
        _ => panic!("expected a message"),
    }
}

#[test]
fn parse_decorator() {
    let file = parse("message M { @attr x: u8, }").unwrap();
    match &file.defs[0] {
        TopLevel::Message(m) => {
            assert_eq!(m.fields[0].decorator.as_deref(), Some("attr"));
        }
        _ => panic!("expected a message"),
    }
}

#[test]
fn parse_bitfield_offsets() {
    let file = parse("bitfield F { a: 0, b: 3, c: 10, }").unwrap();
    match &file.defs[0] {
        TopLevel::Bitfield(b) => {
            assert_eq!(b.name, "F");
            assert_eq!(b.flags.len(), 3);
            assert_eq!(b.flags[0].offset, 0);
            assert_eq!(b.flags[1].offset, 3);
            assert_eq!(b.flags[2].offset, 10);
            assert_eq!(b.flags[2].name, "c");
        }
        _ => panic!("expected a bitfield"),
    }
}

#[test]
fn parse_offset_over_byte_range_is_invalid_number() {
    let err = parse("bitfield F { a: 999, }").unwrap_err();
    assert!(matches!(err, ParseError::InvalidNumber(_)));
}

#[test]
fn parse_unexpected_toplevel_ident() {
    let err = parse("record A { }").unwrap_err();
    assert!(matches!(err, ParseError::UnexpectedIdent { expected: "message", .. }));
}

#[test]
fn parse_missing_comma() {
    let err = parse("message A { x: u8 }").unwrap_err();
    assert!(matches!(
        err,
        ParseError::UnexpectedToken { expected: TokenKind::Comma, .. }
    ));
}

#[test]
fn parse_truncated_input() {
    let err = parse("message A {").unwrap_err();
    assert!(matches!(err, ParseError::Eof));
}

#[test]
fn parse_skips_comments() {
    let file = parse("// heading\nmessage A { // inline\n x: u8, }\n// trailing").unwrap();
    assert_eq!(file.defs.len(), 1);
}

#[test]
fn parse_trailing_comment_without_newline() {
    let file = parse("message A { x: u8, } // no newline at end").unwrap();
    assert_eq!(file.defs.len(), 1);
}

#[test]
fn parse_empty_input() {
    let file = parse("").unwrap();
    assert_eq!(file.defs.len(), 0);
}

#[test]
fn token_positions_track_lines() {
    let err = parse("message A {\n  x u8,\n}").unwrap_err();
    match err {
        ParseError::UnexpectedToken { expected, got } => {
            assert_eq!(expected, TokenKind::Colon);
            assert_eq!(got.span.start.line, 1);
            assert_eq!(got.span.start.column, 4);
        }
        other => panic!("unexpected error: {other:?}"),
    }
}

#[test]
fn describe_unexpected_token() {
    let err = parse("message A {\n  x u8,\n}").unwrap_err();
    assert_eq!(
        err.describe(),
        "unexpected token at 2:5, expecting 'Colon' got 'Ident'"
    );
}

#[test]
fn describe_invalid_number_and_eof() {
    let err = parse("bitfield F { a: 999, }").unwrap_err();
    assert_eq!(err.describe(), "invalid number at 1:17");
    let err = parse("message A {").unwrap_err();
    assert_eq!(err.describe(), "unexpected EOF");
}

#[test]
fn describe_unexpected_ident() {
    let err = parse("record A { }").unwrap_err();
    assert_eq!(
        err.describe(),
        "unexpected identifier at 1:1, expecting 'message'"
    );
}
