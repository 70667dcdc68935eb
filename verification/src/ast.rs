//! The syntax tree that the parser hands to the semantic core: top-level
//! message and bitfield definitions with their raw, unresolved type
//! expressions.

use vstd::prelude::*;

verus! {

/// One parsed schema file.
#[derive(Debug)]
pub struct File {
    pub defs: Vec<TopLevel>,
}

/// A top-level definition.
#[derive(Debug)]
pub enum TopLevel {
    Message(Message),
    Bitfield(Bitfield),
}

/// A product type with ordered, named, typed fields.
#[derive(Debug)]
pub struct Message {
    pub name: String,
    pub fields: Vec<Field>,
}

/// A named set of flags, each bound to a bit offset.
#[derive(Debug)]
pub struct Bitfield {
    pub name: String,
    pub flags: Vec<BitFlag>,
}

/// One flag of a bitfield.
#[derive(Debug)]
pub struct BitFlag {
    pub name: String,
    pub offset: u8,
}

/// One field of a message. The optional decorator is carried through but not
/// consumed by the semantic core.
#[derive(Debug)]
pub struct Field {
    pub decorator: Option<String>,
    pub name: String,
    pub ty: TypeExpr,
}

/// A field's declared type: a bare identifier, a length-prefixed array, or an
/// array whose element count is supplied by a named sibling field.
#[derive(Debug)]
pub enum TypeExpr {
    Ident(TypeIdent),
    ArrayNoField(TypeIdent),
    ArrayWithField(TypeIdent, String),
}

/// A type-denoting identifier: a native keyword or a user-declared name.
#[derive(Debug)]
pub enum TypeIdent {
    Native(NativeType),
    Custom(String),
}

/// The built-in scalar kinds: fixed-width integers and variable-length
/// ("varint") integers at 32 and 64 bits.
#[derive(Debug, Clone, Copy, PartialEq, Eq, Structural)]
pub enum NativeType {
    U8,
    U16,
    U32,
    U64,
    I8,
    I16,
    I32,
    I64,
    VU32,
    VU64,
    VI32,
    VI64,
}

/// A type-denoting identifier carries a nonempty name.
pub open spec fn type_ident_wf(ti: TypeIdent) -> bool {
    match ti {
        TypeIdent::Native(_) => true,
        TypeIdent::Custom(n) => n@.len() > 0,
    }
}

/// Every name mentioned by a type expression is nonempty.
pub open spec fn type_expr_wf(te: TypeExpr) -> bool {
    match te {
        TypeExpr::Ident(ti) => type_ident_wf(ti),
        TypeExpr::ArrayNoField(ti) => type_ident_wf(ti),
        TypeExpr::ArrayWithField(ti, f) => type_ident_wf(ti) && f@.len() > 0,
    }
}

pub open spec fn field_wf(f: Field) -> bool {
    f.name@.len() > 0 && type_expr_wf(f.ty)
}

pub open spec fn message_wf(m: Message) -> bool {
    m.name@.len() > 0 && forall|i: int| 0 <= i < m.fields@.len() ==> field_wf(#[trigger] m.fields@[i])
}

pub open spec fn bitfield_wf(b: Bitfield) -> bool {
    b.name@.len() > 0 && forall|i: int|
        0 <= i < b.flags@.len() ==> (#[trigger] b.flags@[i]).name@.len() > 0
}

pub open spec fn def_wf(d: TopLevel) -> bool {
    match d {
        TopLevel::Message(m) => message_wf(m),
        TopLevel::Bitfield(b) => bitfield_wf(b),
    }
}

/// Every name in the tree is nonempty: what the parser guarantees of the
/// trees it hands to the semantic core.
pub open spec fn file_names_wf(f: File) -> bool {
    forall|i: int| 0 <= i < f.defs@.len() ==> def_wf(#[trigger] f.defs@[i])
}

/// How many declared items one definition holds: itself plus its fields or
/// flags. Bounds the number of identifiers the core will intern.
pub open spec fn decl_items(d: TopLevel) -> int {
    1 + match d {
        TopLevel::Message(m) => m.fields@.len() as int,
        TopLevel::Bitfield(b) => b.flags@.len() as int,
    }
}

pub open spec fn decl_count_seq(s: Seq<TopLevel>) -> int
    decreases s.len(),
{
    if s.len() == 0 {
        0
    } else {
        decl_count_seq(s.drop_last()) + decl_items(s.last())
    }
}

/// The total number of declared items in a file.
pub open spec fn decl_count(f: File) -> int {
    decl_count_seq(f.defs@)
}

pub proof fn lemma_decl_count_nonneg(s: Seq<TopLevel>)
    ensures
        decl_count_seq(s) >= s.len(),
    decreases s.len(),
{
    if s.len() > 0 {
        lemma_decl_count_nonneg(s.drop_last());
    }
}

pub proof fn lemma_dcs_snoc(s: Seq<TopLevel>, k: int)
    requires
        0 <= k < s.len(),
    ensures
        decl_count_seq(s.subrange(0, k + 1)) == decl_count_seq(s.subrange(0, k)) + decl_items(
            s[k],
        ),
{
    assert(s.subrange(0, k + 1).drop_last() =~= s.subrange(0, k));
    assert(s.subrange(0, k + 1).last() == s[k]);
}

pub proof fn lemma_dcs_prefix(s: Seq<TopLevel>, k: int)
    requires
        0 <= k <= s.len(),
    ensures
        decl_count_seq(s.subrange(0, k)) <= decl_count_seq(s),
    decreases s.len() - k,
{
    if k == s.len() {
        assert(s.subrange(0, k) =~= s);
    } else {
        lemma_dcs_snoc(s, k);
        lemma_dcs_prefix(s, k + 1);
    }
}

pub proof fn lemma_decl_item_le(s: Seq<TopLevel>, k: int)
    requires
        0 <= k < s.len(),
    ensures
        decl_items(s[k]) <= decl_count_seq(s),
{
    lemma_dcs_snoc(s, k);
    lemma_dcs_prefix(s, k + 1);
    lemma_decl_count_nonneg(s.subrange(0, k));
}

} // verus!
