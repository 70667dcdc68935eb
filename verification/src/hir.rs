//! The resolved type registry: the semantic core's picture of a schema file.
//! Two ordered passes build it: pass one declares every message and bitfield
//! name; pass two resolves each message's fields, first recording which
//! sibling field feeds each field-associated array, then resolving every
//! field's type and marking folded fields.

use vstd::prelude::*;
use crate::ast::{
    Bitfield, File, Message, NativeType, TopLevel, TypeExpr, TypeIdent, decl_count, decl_count_seq,
    decl_items,
};
use crate::error::CompileError;
use crate::symbols::{
    SymbolId, Symbols, contains_text, distinct_texts, insert_model, lemma_insert_preserves_distinct,
    symbols_seq,
};

verus! {

/// The keyword text of a native type.
pub open spec fn native_keyword(k: NativeType) -> Seq<char> {
    match k {
        NativeType::U8 => "u8"@,
        NativeType::U16 => "u16"@,
        NativeType::U32 => "u32"@,
        NativeType::U64 => "u64"@,
        NativeType::I8 => "i8"@,
        NativeType::I16 => "i16"@,
        NativeType::I32 => "i32"@,
        NativeType::I64 => "i64"@,
        NativeType::VU32 => "vu32"@,
        NativeType::VU64 => "vu64"@,
        NativeType::VI32 => "vi32"@,
        NativeType::VI64 => "vi64"@,
    }
}

/// The keyword of a native type, as a string slice.
pub fn native_keyword_str(k: NativeType) -> (r: &'static str)
    ensures
        r@ == native_keyword(k),
{
    match k {
        NativeType::U8 => "u8",
        NativeType::U16 => "u16",
        NativeType::U32 => "u32",
        NativeType::U64 => "u64",
        NativeType::I8 => "i8",
        NativeType::I16 => "i16",
        NativeType::I32 => "i32",
        NativeType::I64 => "i64",
        NativeType::VU32 => "vu32",
        NativeType::VU64 => "vu64",
        NativeType::VI32 => "vi32",
        NativeType::VI64 => "vi64",
    }
}

/// A resolved type: the closed variant set the registry maps symbols to.
#[derive(Debug)]
pub enum Type {
    Message(MessageType),
    Bitfield(BitfieldType),
    Native(NativeType),
    Array(ArrayType),
}

/// An array's wire shape: with its own length prefix, or with the count
/// supplied by a named sibling field.
#[derive(Debug)]
pub enum ArrayType {
    Default(SymbolId),
    Field { elem_type: SymbolId, field_name: SymbolId, field_type: SymbolId },
}

impl Type {
    pub fn is_message(&self) -> (r: bool)
        ensures
            r == (self is Message),
    {
        matches!(self, Self::Message(_))
    }

    pub fn is_bitfield(&self) -> (r: bool)
        ensures
            r == (self is Bitfield),
    {
        matches!(self, Self::Bitfield(_))
    }

    pub fn is_array(&self) -> (r: bool)
        ensures
            r == (self is Array),
    {
        matches!(self, Self::Array(_))
    }

    pub fn is_native(&self) -> (r: bool)
        ensures
            r == (self is Native),
    {
        matches!(self, Self::Native(_))
    }
}

/// A resolved message: its name symbol and its fields in declaration order.
#[derive(Debug)]
pub struct MessageType {
    pub name: SymbolId,
    pub fields: Vec<Field>,
}

/// A resolved field. `associated` is set when this field is folded: another
/// field of the same message declared an array whose count this field
/// supplies, and the value names that array field.
#[derive(Debug)]
pub struct Field {
    pub name: SymbolId,
    pub ty: SymbolId,
    pub associated: Option<SymbolId>,
}

/// A resolved bitfield: its name symbol and its flags in declaration order.
#[derive(Debug)]
pub struct BitfieldType {
    pub name: SymbolId,
    pub flags: Vec<Bitflag>,
}

/// One resolved flag, with the bit offset taken verbatim from the source.
#[derive(Debug)]
pub struct Bitflag {
    pub name: SymbolId,
    pub offset: u8,
}

/// The registry: a map from symbol ids to resolved types, held as a vector
/// indexed by the id, which the interner assigns contiguously.
#[derive(Debug)]
pub struct TypeMap {
    pub entries: Vec<Option<Type>>,
}

impl TypeMap {
    /// Whether the registry maps the id `i`.
    pub open spec fn has(self, i: int) -> bool {
        0 <= i < self.entries@.len() && self.entries@[i] is Some
    }

    /// The type entry at id `i`.
    pub open spec fn at(self, i: int) -> Type {
        self.entries@[i]->0
    }

    pub fn new() -> (r: TypeMap)
        ensures
            r.entries@.len() == 0,
            forall|i: int| !r.has(i),
    {
        TypeMap { entries: Vec::new() }
    }

    pub fn get(&self, id: SymbolId) -> (r: Option<&Type>)
        ensures
            (r is Some) == self.has(id.0 as int),
            r matches Some(t) ==> *t == self.at(id.0 as int),
    {
        if (id.0 as usize) < self.entries.len() {
            self.entries[id.0 as usize].as_ref()
        } else {
            None
        }
    }

    pub fn insert(&mut self, id: SymbolId, ty: Type)
        ensures
            final(self).has(id.0 as int),
            final(self).at(id.0 as int) == ty,
            forall|j: int|
                j != id.0 as int ==> final(self).has(j) == old(self).has(j) && (old(self).has(j)
                    ==> final(self).at(j) == old(self).at(j)),
            final(self).entries@.len() == if old(self).entries@.len() > id.0 as int + 1 {
                old(self).entries@.len() as int
            } else {
                id.0 as int + 1
            },
    {
        if self.entries.len() <= id.0 as usize {
            while self.entries.len() <= id.0 as usize
                invariant
                    forall|j: int| 0 <= j < old(self).entries@.len() ==> self.entries@[j] == old(
                        self,
                    ).entries@[j],
                    self.entries@.len() >= old(self).entries@.len(),
                    forall|j: int|
                        old(self).entries@.len() <= j < self.entries@.len() ==> self.entries@[j]
                            is None,
                    self.entries@.len() <= id.0 as usize + 1,
                decreases id.0 as usize + 1 - self.entries@.len(),
            {
                self.entries.push(None);
            }
        }
        self.entries.set(id.0 as usize, Some(ty));
    }
}

/// The interned symbols of every native keyword. The floating-point names
/// are registered in the symbol set, though no resolved type carries them.
#[derive(Debug)]
pub struct NativeTypeSymbols {
    pub i8: SymbolId,
    pub i16: SymbolId,
    pub i32: SymbolId,
    pub i64: SymbolId,
    pub u8: SymbolId,
    pub u16: SymbolId,
    pub u32: SymbolId,
    pub u64: SymbolId,
    pub vi32: SymbolId,
    pub vi64: SymbolId,
    pub vu32: SymbolId,
    pub vu64: SymbolId,
}

impl NativeTypeSymbols {
    /// The symbol this table assigns to a native kind.
    pub open spec fn spec_type_id(self, k: NativeType) -> SymbolId {
        match k {
            NativeType::U8 => self.u8,
            NativeType::U16 => self.u16,
            NativeType::U32 => self.u32,
            NativeType::U64 => self.u64,
            NativeType::I8 => self.i8,
            NativeType::I16 => self.i16,
            NativeType::I32 => self.i32,
            NativeType::I64 => self.i64,
            NativeType::VU32 => self.vu32,
            NativeType::VU64 => self.vu64,
            NativeType::VI32 => self.vi32,
            NativeType::VI64 => self.vi64,
        }
    }

    /// Every keyword's symbol points at its own text.
    pub open spec fn consistent_with(self, m: Seq<Seq<char>>) -> bool {
        forall|k: NativeType| sym_is(m, #[trigger] self.spec_type_id(k), native_keyword(k))
    }

    pub fn type_id(&self, ty: NativeType) -> (r: SymbolId)
        ensures
            r == self.spec_type_id(ty),
    {
        match ty {
            NativeType::U8 => self.u8,
            NativeType::U16 => self.u16,
            NativeType::U32 => self.u32,
            NativeType::U64 => self.u64,
            NativeType::I8 => self.i8,
            NativeType::I16 => self.i16,
            NativeType::I32 => self.i32,
            NativeType::I64 => self.i64,
            NativeType::VU32 => self.vu32,
            NativeType::VU64 => self.vu64,
            NativeType::VI32 => self.vi32,
            NativeType::VI64 => self.vi64,
        }
    }

    #[verifier::rlimit(60)]
    fn new(symbols: &mut Symbols) -> (r: NativeTypeSymbols)
        requires
            distinct_texts(symbols_seq(*old(symbols))),
            symbols_seq(*old(symbols)).len() + 12 < 0xFFFF_FFFEusize,
        ensures
            old(symbols)@.len() <= final(symbols)@.len() <= old(symbols)@.len() + 12,
            forall|i: int| 0 <= i < old(symbols)@.len() ==> final(symbols)@[i] == old(symbols)@[i],
            distinct_texts(final(symbols)@),
            r.consistent_with(final(symbols)@),
    {
        broadcast use crate::symbols::lemma_insert_model_entries;

        let ghost m0 = symbols@;
        let i8 = symbols.insert("i8");
        proof {
            lemma_insert_preserves_distinct(m0, "i8"@);
            assert(sym_is(symbols@, i8, "i8"@));
        }
        let ghost m1 = symbols@;
        let i16 = symbols.insert("i16");
        proof {
            lemma_insert_preserves_distinct(m1, "i16"@);
            assert(sym_is(symbols@, i8, "i8"@) && sym_is(symbols@, i16, "i16"@));
        }
        let ghost m2 = symbols@;
        let i32 = symbols.insert("i32");
        proof {
            lemma_insert_preserves_distinct(m2, "i32"@);
            assert(sym_is(symbols@, i8, "i8"@) && sym_is(symbols@, i16, "i16"@) && sym_is(symbols@, i32, "i32"@));
        }
        let ghost m3 = symbols@;
        let i64 = symbols.insert("i64");
        proof {
            lemma_insert_preserves_distinct(m3, "i64"@);
            assert(sym_is(symbols@, i8, "i8"@) && sym_is(symbols@, i16, "i16"@) && sym_is(symbols@, i32, "i32"@) && sym_is(symbols@, i64, "i64"@));
        }
        let ghost m4 = symbols@;
        let u8 = symbols.insert("u8");
        proof {
            lemma_insert_preserves_distinct(m4, "u8"@);
            assert(sym_is(symbols@, i8, "i8"@) && sym_is(symbols@, i16, "i16"@) && sym_is(symbols@, i32, "i32"@) && sym_is(symbols@, i64, "i64"@) && sym_is(symbols@, u8, "u8"@));
        }
        let ghost m5 = symbols@;
        let u16 = symbols.insert("u16");
        proof {
            lemma_insert_preserves_distinct(m5, "u16"@);
            assert(sym_is(symbols@, i8, "i8"@) && sym_is(symbols@, i16, "i16"@) && sym_is(symbols@, i32, "i32"@) && sym_is(symbols@, i64, "i64"@) && sym_is(symbols@, u8, "u8"@) && sym_is(symbols@, u16, "u16"@));
        }
        let ghost m6 = symbols@;
        let u32 = symbols.insert("u32");
        proof {
            lemma_insert_preserves_distinct(m6, "u32"@);
            assert(sym_is(symbols@, i8, "i8"@) && sym_is(symbols@, i16, "i16"@) && sym_is(symbols@, i32, "i32"@) && sym_is(symbols@, i64, "i64"@) && sym_is(symbols@, u8, "u8"@) && sym_is(symbols@, u16, "u16"@) && sym_is(symbols@, u32, "u32"@));
        }
        let ghost m7 = symbols@;
        let u64 = symbols.insert("u64");
        proof {
            lemma_insert_preserves_distinct(m7, "u64"@);
            assert(sym_is(symbols@, i8, "i8"@) && sym_is(symbols@, i16, "i16"@) && sym_is(symbols@, i32, "i32"@) && sym_is(symbols@, i64, "i64"@) && sym_is(symbols@, u8, "u8"@) && sym_is(symbols@, u16, "u16"@) && sym_is(symbols@, u32, "u32"@) && sym_is(symbols@, u64, "u64"@));
        }
        let ghost m8 = symbols@;
        let vi32 = symbols.insert("vi32");
        proof {
            lemma_insert_preserves_distinct(m8, "vi32"@);
            assert(sym_is(symbols@, i8, "i8"@) && sym_is(symbols@, i16, "i16"@) && sym_is(symbols@, i32, "i32"@) && sym_is(symbols@, i64, "i64"@) && sym_is(symbols@, u8, "u8"@) && sym_is(symbols@, u16, "u16"@) && sym_is(symbols@, u32, "u32"@) && sym_is(symbols@, u64, "u64"@) && sym_is(symbols@, vi32, "vi32"@));
        }
        let ghost m9 = symbols@;
        let vi64 = symbols.insert("vi64");
        proof {
            lemma_insert_preserves_distinct(m9, "vi64"@);
            assert(sym_is(symbols@, i8, "i8"@) && sym_is(symbols@, i16, "i16"@) && sym_is(symbols@, i32, "i32"@) && sym_is(symbols@, i64, "i64"@) && sym_is(symbols@, u8, "u8"@) && sym_is(symbols@, u16, "u16"@) && sym_is(symbols@, u32, "u32"@) && sym_is(symbols@, u64, "u64"@) && sym_is(symbols@, vi32, "vi32"@) && sym_is(symbols@, vi64, "vi64"@));
        }
        let ghost m10 = symbols@;
        let vu32 = symbols.insert("vu32");
        proof {
            lemma_insert_preserves_distinct(m10, "vu32"@);
            assert(sym_is(symbols@, i8, "i8"@) && sym_is(symbols@, i16, "i16"@) && sym_is(symbols@, i32, "i32"@) && sym_is(symbols@, i64, "i64"@) && sym_is(symbols@, u8, "u8"@) && sym_is(symbols@, u16, "u16"@) && sym_is(symbols@, u32, "u32"@) && sym_is(symbols@, u64, "u64"@) && sym_is(symbols@, vi32, "vi32"@) && sym_is(symbols@, vi64, "vi64"@) && sym_is(symbols@, vu32, "vu32"@));
        }
        let ghost m11 = symbols@;
        let vu64 = symbols.insert("vu64");
        proof {
            lemma_insert_preserves_distinct(m11, "vu64"@);
            assert(sym_is(symbols@, i8, "i8"@) && sym_is(symbols@, i16, "i16"@) && sym_is(symbols@, i32, "i32"@) && sym_is(symbols@, i64, "i64"@) && sym_is(symbols@, u8, "u8"@) && sym_is(symbols@, u16, "u16"@) && sym_is(symbols@, u32, "u32"@) && sym_is(symbols@, u64, "u64"@) && sym_is(symbols@, vi32, "vi32"@) && sym_is(symbols@, vi64, "vi64"@) && sym_is(symbols@, vu32, "vu32"@) && sym_is(symbols@, vu64, "vu64"@));
        }
        let r = NativeTypeSymbols {
            i8,
            i16,
            i32,
            i64,
            u8,
            u16,
            u32,
            u64,
            vi32,
            vi64,
            vu32,
            vu64,
        };
        proof {
            assert forall|k: NativeType| sym_is(symbols_seq(*symbols), #[trigger] r.spec_type_id(k),
                native_keyword(k)) by {
                match k {
                    NativeType::U8 => assert(sym_is(symbols_seq(*symbols), r.u8, "u8"@)),
                    NativeType::U16 => assert(sym_is(symbols_seq(*symbols), r.u16, "u16"@)),
                    NativeType::U32 => assert(sym_is(symbols_seq(*symbols), r.u32, "u32"@)),
                    NativeType::U64 => assert(sym_is(symbols_seq(*symbols), r.u64, "u64"@)),
                    NativeType::I8 => assert(sym_is(symbols_seq(*symbols), r.i8, "i8"@)),
                    NativeType::I16 => assert(sym_is(symbols_seq(*symbols), r.i16, "i16"@)),
                    NativeType::I32 => assert(sym_is(symbols_seq(*symbols), r.i32, "i32"@)),
                    NativeType::I64 => assert(sym_is(symbols_seq(*symbols), r.i64, "i64"@)),
                    NativeType::VU32 => assert(sym_is(symbols_seq(*symbols), r.vu32, "vu32"@)),
                    NativeType::VU64 => assert(sym_is(symbols_seq(*symbols), r.vu64, "vu64"@)),
                    NativeType::VI32 => assert(sym_is(symbols_seq(*symbols), r.vi32, "vi32"@)),
                    NativeType::VI64 => assert(sym_is(symbols_seq(*symbols), r.vi64, "vi64"@)),
                }
            }
        }
        r
    }
}

/// The fourteen native keyword texts are pairwise distinct and nonempty.
pub proof fn lemma_native_keywords_distinct()
    ensures
        forall|k1: NativeType, k2: NativeType|
            k1 != k2 ==> native_keyword(k1) != native_keyword(k2),
        forall|k: NativeType| (#[trigger] native_keyword(k)).len() > 0,
{
    reveal_strlit("u8");
    reveal_strlit("u16");
    reveal_strlit("u32");
    reveal_strlit("u64");
    reveal_strlit("i8");
    reveal_strlit("i16");
    reveal_strlit("i32");
    reveal_strlit("i64");
    reveal_strlit("vu32");
    reveal_strlit("vu64");
    reveal_strlit("vi32");
    reveal_strlit("vi64");
    assert forall|k1: NativeType, k2: NativeType| k1 != k2 implies native_keyword(k1)
        != native_keyword(k2) by {
        assert(native_keyword(k1).len() > 0 && native_keyword(k2).len() > 0);
        if native_keyword(k1) == native_keyword(k2) {
            assert(native_keyword(k1)[0] == native_keyword(k2)[0]);
            assert(native_keyword(k1).len() == native_keyword(k2).len());
            if native_keyword(k1).len() >= 2 {
                assert(native_keyword(k1)[1] == native_keyword(k2)[1]);
            }
            if native_keyword(k1).len() >= 3 {
                assert(native_keyword(k1)[2] == native_keyword(k2)[2]);
            }
            if native_keyword(k1).len() >= 4 {
                assert(native_keyword(k1)[3] == native_keyword(k2)[3]);
            }
            assert(false);
        }
    }
}

/// The id names an entry of the model holding exactly this text.
pub open spec fn sym_is(m: Seq<Seq<char>>, id: SymbolId, text: Seq<char>) -> bool {
    id.0 < m.len() && m[id.0 as int] == text
}

/// The fully assembled compilation context: the root sink symbol, the
/// interner, and the registry mapping every type-denoting symbol to its
/// resolved type.
#[derive(Debug)]
pub struct Hir {
    pub root: SymbolId,
    pub symbols: Symbols,
    pub types: TypeMap,
}

/// Every id stored in a registry entry is a valid symbol, and every message
/// field's resolved type has its own registry entry.
pub open spec fn type_entry_wf(t: Type, n: int, tm: TypeMap) -> bool {
    match t {
        Type::Message(mt) => mt.name.0 < n && forall|j: int|
            0 <= j < mt.fields@.len() ==> field_entry_wf(#[trigger] mt.fields@[j], n, tm),
        Type::Bitfield(bt) => bt.name.0 < n && forall|j: int|
            0 <= j < bt.flags@.len() ==> (#[trigger] bt.flags@[j]).name.0 < n,
        Type::Native(_) => true,
        Type::Array(ArrayType::Default(e)) => e.0 < n,
        Type::Array(ArrayType::Field { elem_type, field_name, field_type }) => elem_type.0 < n
            && field_name.0 < n && field_type.0 < n,
    }
}

pub open spec fn field_entry_wf(f: Field, n: int, tm: TypeMap) -> bool {
    &&& f.name.0 < n
    &&& f.ty.0 < n
    &&& tm.has(f.ty.0 as int)
    &&& match f.associated {
        Some(a) => a.0 < n,
        None => true,
    }
}

impl Hir {
    /// The registry's structural invariant, which the emitter and the
    /// orderer rely on.
    pub open spec fn wf(self) -> bool {
        &&& distinct_texts(self.symbols@)
        &&& self.root.0 < self.symbols@.len()
        &&& self.types.entries@.len() <= self.symbols@.len()
        &&& forall|i: int|
            self.types.has(i) ==> type_entry_wf(
                #[trigger] self.types.at(i),
                self.symbols@.len() as int,
                self.types,
            )
    }
}



/// The type expression's base identifier is this custom name.
pub open spec fn te_mentions_custom(te: TypeExpr, n: Seq<char>) -> bool {
    match te {
        TypeExpr::Ident(TypeIdent::Custom(m)) => m@ == n,
        TypeExpr::ArrayNoField(TypeIdent::Custom(m)) => m@ == n,
        TypeExpr::ArrayWithField(TypeIdent::Custom(m), _) => m@ == n,
        _ => false,
    }
}

/// Some message field's type names this custom identifier.
pub open spec fn mentions_custom(file: File, n: Seq<char>) -> bool {
    exists|d: int|
        0 <= d < file.defs@.len() && ((#[trigger] file.defs@[d]) matches TopLevel::Message(m)
            && exists|i: int|
            0 <= i < m.fields@.len() && te_mentions_custom((#[trigger] m.fields@[i]).ty, n))
}

/// Some message field declares an array whose count field is named `n`.
pub open spec fn mentions_assoc(file: File, n: Seq<char>) -> bool {
    exists|d: int|
        0 <= d < file.defs@.len() && ((#[trigger] file.defs@[d]) matches TopLevel::Message(m)
            && exists|i: int|
            0 <= i < m.fields@.len() && ((#[trigger] m.fields@[i]).ty matches
                TypeExpr::ArrayWithField(_, a) && a@ == n))
}

/// The text a type-denoting identifier stands for.
pub open spec fn type_ident_text(ti: TypeIdent) -> Seq<char> {
    match ti {
        TypeIdent::Native(k) => native_keyword(k),
        TypeIdent::Custom(n) => n@,
    }
}

/// The synthesized name of a length-prefixed array over this element text.
pub open spec fn array_default_name(elem: Seq<char>) -> Seq<char> {
    elem + "[]"@
}

/// The synthesized name of a field-associated array.
pub open spec fn array_field_name(elem: Seq<char>, f: Seq<char>) -> Seq<char> {
    elem + "["@ + f + "]"@
}

/// A name currently resolves as a user type: it is interned and its registry
/// entry is a message or a bitfield.
pub open spec fn declared_now(m: Seq<Seq<char>>, tm: TypeMap, n: Seq<char>) -> bool {
    exists|i: int|
        0 <= i < m.len() && m[i] == n && #[trigger] tm.has(i) && (tm.at(i) is Message || tm.at(i)
            is Bitfield)
}

/// The name a top-level definition declares.
pub open spec fn def_name(d: TopLevel) -> Seq<char> {
    match d {
        TopLevel::Message(msg) => msg.name@,
        TopLevel::Bitfield(b) => b.name@,
    }
}

/// Some definition of the file declares this name.
pub open spec fn declared_in(file: File, n: Seq<char>) -> bool {
    exists|i: int| 0 <= i < file.defs@.len() && def_name(#[trigger] file.defs@[i]) == n
}

/// The name is one of the native keywords.
pub open spec fn is_native_kw(n: Seq<char>) -> bool {
    exists|k: NativeType| native_keyword(k) == n
}

/// A tree free of degenerate name collisions: every name nonempty, top-level
/// names pairwise distinct, no top-level name a native keyword or holding a
/// bracket, and field names distinct within each message. Trees from
/// reasonable schema text satisfy this; the builder is total regardless, but
/// its exact registry description is stated for such trees.
pub open spec fn file_clean(file: File) -> bool {
    &&& crate::ast::file_names_wf(file)
    &&& forall|i: int, j: int|
        0 <= i < j < file.defs@.len() ==> def_name(file.defs@[i]) != def_name(file.defs@[j])
    &&& forall|i: int|
        0 <= i < file.defs@.len() ==> !is_native_kw(def_name(#[trigger] file.defs@[i]))
    &&& forall|i: int|
        0 <= i < file.defs@.len() ==> !def_name(#[trigger] file.defs@[i]).contains('[')
    &&& forall|i: int|
        0 <= i < file.defs@.len() ==> match #[trigger] file.defs@[i] {
            TopLevel::Message(msg) => forall|p: int, q: int|
                0 <= p < q < msg.fields@.len() ==> (#[trigger] msg.fields@[p]).name@ != (
                #[trigger] msg.fields@[q]).name@,
            TopLevel::Bitfield(_) => true,
        }
}

/// This field declares a field-associated array whose count comes from the
/// sibling named `name`.
pub open spec fn refs_name(f: crate::ast::Field, name: Seq<char>) -> bool {
    f.ty matches TypeExpr::ArrayWithField(_, a) && a@ == name
}

/// A type expression resolves, judged against the file's declared names and
/// the associations recorded while scanning the first `upto` fields.
pub open spec fn te_ok_file(
    file: File,
    fields: Seq<crate::ast::Field>,
    upto: int,
    te: TypeExpr,
) -> bool {
    match te {
        TypeExpr::Ident(TypeIdent::Native(_)) => true,
        TypeExpr::Ident(TypeIdent::Custom(n)) => declared_in(file, n@),
        TypeExpr::ArrayNoField(TypeIdent::Native(_)) => true,
        TypeExpr::ArrayNoField(TypeIdent::Custom(n)) => declared_in(file, n@),
        TypeExpr::ArrayWithField(ti, f) => (exists|j: int|
            0 <= j < upto && refs_name(#[trigger] fields[j], f@)) && (ti matches TypeIdent::Custom(
            n,
        ) ==> declared_in(file, n@)),
    }
}

/// The associate pass of a message succeeds: every field-associated array
/// names an existing sibling, and that first-named sibling's own type
/// resolves against what was recorded so far.
pub open spec fn phase_a_cond(file: File, fields: Seq<crate::ast::Field>, i: int) -> bool {
    fields[i].ty matches TypeExpr::ArrayWithField(_, a) ==> exists|j: int|
        0 <= j < fields.len() && (#[trigger] fields[j]).name@ == a@ && (forall|k: int|
            0 <= k < j ==> fields[k].name@ != a@) && te_ok_file(file, fields, i, fields[j].ty)
}

pub open spec fn phase_a_ok(file: File, msg: Message) -> bool {
    forall|i: int| 0 <= i < msg.fields@.len() ==> phase_a_cond(file, msg.fields@, i)
}

/// The in-bounds facts every completed field entry satisfies, whatever the
/// input tree looked like.
pub open spec fn field_ok_uncond(m: Seq<Seq<char>>, tm: TypeMap, f: Field) -> bool {
    &&& f.name.0 < m.len()
    &&& f.ty.0 < m.len()
    &&& tm.has(f.ty.0 as int)
    &&& (f.associated matches Some(a) ==> a.0 < m.len())
}

/// The resolve pass of a message succeeds: every field's type resolves with
/// the full association record in hand.
pub open spec fn phase_b_ok(file: File, msg: Message) -> bool {
    forall|i: int|
        0 <= i < msg.fields@.len() ==> te_ok_file(
            file,
            msg.fields@,
            msg.fields@.len() as int,
            (#[trigger] msg.fields@[i]).ty,
        )
}

/// Registry building succeeds on this file: both passes succeed on every
/// message.
pub open spec fn build_ok(file: File) -> bool {
    forall|i: int|
        0 <= i < file.defs@.len() ==> match #[trigger] file.defs@[i] {
            TopLevel::Message(msg) => phase_a_ok(file, msg) && phase_b_ok(file, msg),
            TopLevel::Bitfield(_) => true,
        }
}

/// What a resolved field-type symbol means, read against the final interner
/// and registry.
pub open spec fn resolved_ty_rel(m: Seq<Seq<char>>, tm: TypeMap, te: TypeExpr, id: SymbolId) -> bool {
    match te {
        TypeExpr::Ident(TypeIdent::Native(k)) => sym_is(m, id, native_keyword(k)),
        TypeExpr::Ident(TypeIdent::Custom(n)) => sym_is(m, id, n@) && tm.has(id.0 as int) && (
        tm.at(id.0 as int) is Message || tm.at(id.0 as int) is Bitfield),
        TypeExpr::ArrayNoField(ti) => sym_is(m, id, array_default_name(type_ident_text(ti)))
            && tm.has(id.0 as int),
        TypeExpr::ArrayWithField(ti, f) => sym_is(
            m,
            id,
            array_field_name(type_ident_text(ti), f@),
        ) && tm.has(id.0 as int),
    }
}

/// Every synthesized array entry is described by its own name: the entry at
/// a name `t[]` holds the element symbol for `t`, and the entry at
/// `t[count]` holds the element and count-field symbols for `t` and `count`.
pub open spec fn arrays_consistent(m: Seq<Seq<char>>, tm: TypeMap) -> bool {
    forall|i: int|
        #[trigger] tm.has(i) ==> match tm.at(i) {
            Type::Array(ArrayType::Default(e)) => e.0 < m.len() && 0 <= i < m.len() && m[i]
                == array_default_name(m[e.0 as int]),
            Type::Array(ArrayType::Field { elem_type, field_name, field_type }) => elem_type.0
                < m.len() && field_name.0 < m.len() && field_type.0 < m.len() && 0 <= i < m.len()
                && m[i] == array_field_name(m[elem_type.0 as int], m[field_name.0 as int]),
            _ => true,
        }
}

/// Every registry entry is structurally well-formed.
pub open spec fn types_wf(tm: TypeMap, n: int) -> bool {
    forall|i: int| #[trigger] tm.has(i) ==> type_entry_wf(tm.at(i), n, tm)
}

/// The registry maps every native keyword symbol.
pub open spec fn natives_has(tm: TypeMap, nts: NativeTypeSymbols) -> bool {
    forall|k: NativeType| tm.has((#[trigger] nts.spec_type_id(k)).0 as int)
}

/// Whether a name currently resolves agrees with whether the file declares
/// it.
pub open spec fn decl_equiv(m: Seq<Seq<char>>, tm: TypeMap, file: File) -> bool {
    forall|n: Seq<char>| (#[trigger] declared_now(m, tm, n)) == declared_in(file, n)
}

/// One association recorded while scanning a message: the sibling field
/// named `key` supplies the count of the array field `array_field`, whose
/// declared type resolved to `ty`.
struct AssocEntry {
    key: String,
    array_field: SymbolId,
    ty: SymbolId,
}

/// The most recently recorded association for this key.
spec fn assoc_find(s: Seq<AssocEntry>, key: Seq<char>) -> Option<AssocEntry>
    decreases s.len(),
{
    if s.len() == 0 {
        None
    } else if s.last().key@ == key {
        Some(s.last())
    } else {
        assoc_find(s.drop_last(), key)
    }
}

/// The association record agrees with the message's first `upto` fields:
/// exactly the referenced sibling names are recorded, each entry's array
/// field points at the name of a referencing array field, and its ids are
/// in bounds.
spec fn assoc_ok(
    m: Seq<Seq<char>>,
    assoc: Seq<AssocEntry>,
    fields: Seq<crate::ast::Field>,
    upto: int,
) -> bool {
    forall|k: Seq<char>|
        match #[trigger] assoc_find(assoc, k) {
            Some(e) => (exists|j: int|
                0 <= j < upto && refs_name(#[trigger] fields[j], k) && sym_is(
                    m,
                    e.array_field,
                    fields[j].name@,
                )) && e.key@ == k && e.ty.0 < m.len(),
            None => forall|j: int| 0 <= j < upto ==> !refs_name(#[trigger] fields[j], k),
        }
}

/// A type expression resolves against the current interner, registry and
/// association record: what the resolver checks.
spec fn te_resolvable(
    m: Seq<Seq<char>>,
    tm: TypeMap,
    assoc: Seq<AssocEntry>,
    te: TypeExpr,
) -> bool {
    match te {
        TypeExpr::Ident(TypeIdent::Native(_)) => true,
        TypeExpr::Ident(TypeIdent::Custom(n)) => declared_now(m, tm, n@),
        TypeExpr::ArrayNoField(TypeIdent::Native(_)) => true,
        TypeExpr::ArrayNoField(TypeIdent::Custom(n)) => declared_now(m, tm, n@),
        TypeExpr::ArrayWithField(ti, f) => (assoc_find(assoc, f@) is Some) && (ti matches
        TypeIdent::Custom(n) ==> declared_now(m, tm, n@)),
    }
}

/// A resolved field agrees with its declaration: its name symbol carries the
/// declared name, its type symbol resolves the declared type, and it is
/// marked folded exactly when some array field of the message names it.
pub open spec fn field_matches(
    m: Seq<Seq<char>>,
    tm: TypeMap,
    f: Field,
    msg: Message,
    j: int,
) -> bool {
    &&& sym_is(m, f.name, msg.fields@[j].name@)
    &&& resolved_ty_rel(m, tm, msg.fields@[j].ty, f.ty)
    &&& match f.associated {
        Some(a) => exists|ai: int|
            0 <= ai < msg.fields@.len() && refs_name(#[trigger] msg.fields@[ai], msg.fields@[j].name@)
                && sym_is(m, a, msg.fields@[ai].name@),
        None => forall|ai: int|
            0 <= ai < msg.fields@.len() ==> !refs_name(#[trigger] msg.fields@[ai], msg.fields@[j].name@),
    }
}

/// A completed message entry mirrors its declaration field for field.
pub open spec fn message_matches(m: Seq<Seq<char>>, tm: TypeMap, mt: MessageType, msg: Message) -> bool {
    &&& mt.fields@.len() == msg.fields@.len()
    &&& forall|j: int|
        0 <= j < msg.fields@.len() ==> field_matches(m, tm, #[trigger] mt.fields@[j], msg, j)
}

/// A bitfield entry mirrors its declaration flag for flag.
pub open spec fn bitfield_matches(m: Seq<Seq<char>>, bt: BitfieldType, b: Bitfield) -> bool {
    &&& bt.flags@.len() == b.flags@.len()
    &&& forall|j: int|
        0 <= j < b.flags@.len() ==> sym_is(
            m,
            (#[trigger] bt.flags@[j]).name,
            b.flags@[j].name@,
        ) && bt.flags@[j].offset == b.flags@[j].offset
}

/// What pass one leaves behind for a definition: its name interned and
/// mapped to an entry of the declared kind, bitfields already complete.
pub open spec fn def_declared(m: Seq<Seq<char>>, tm: TypeMap, d: TopLevel) -> bool {
    match d {
        TopLevel::Message(msg) => exists|id: SymbolId|
            #![trigger sym_is(m, id, msg.name@)]
            sym_is(m, id, msg.name@) && tm.has(id.0 as int) && (tm.at(id.0 as int) matches
            Type::Message(mt) && mt.name == id),
        TopLevel::Bitfield(b) => exists|id: SymbolId|
            #![trigger sym_is(m, id, b.name@)]
            sym_is(m, id, b.name@) && tm.has(id.0 as int) && (tm.at(id.0 as int) matches
            Type::Bitfield(bt) && bt.name == id && bitfield_matches(m, bt, b)),
    }
}

/// What the whole build leaves behind for a definition: as `def_declared`,
/// with messages complete.
pub open spec fn def_matches(m: Seq<Seq<char>>, tm: TypeMap, d: TopLevel) -> bool {
    match d {
        TopLevel::Message(msg) => exists|id: SymbolId|
            #![trigger sym_is(m, id, msg.name@)]
            sym_is(m, id, msg.name@) && tm.has(id.0 as int) && (tm.at(id.0 as int) matches
            Type::Message(mt) && mt.name == id && message_matches(m, tm, mt, msg)),
        TopLevel::Bitfield(b) => def_declared(m, tm, d),
    }
}

/// The registry holds the native entry for this keyword, at a symbol
/// carrying the keyword's text.
pub open spec fn native_entry_ok(m: Seq<Seq<char>>, tm: TypeMap, k: NativeType) -> bool {
    exists|id: SymbolId|
        #![trigger sym_is(m, id, native_keyword(k))]
        sym_is(m, id, native_keyword(k)) && tm.has(id.0 as int) && tm.at(id.0 as int)
            == Type::Native(k)
}

/// The finished registry mirrors the file: the root symbol is the empty
/// text, every native keyword maps to its native entry, and every definition
/// is registered as declared.
pub open spec fn hir_matches_file(h: Hir, file: File) -> bool {
    &&& sym_is(h.symbols@, h.root, ""@)
    &&& forall|k: NativeType| native_entry_ok(h.symbols@, h.types, k)
    &&& forall|i: int|
        0 <= i < file.defs@.len() ==> def_matches(h.symbols@, h.types, #[trigger] file.defs@[i])
}

impl Default for TypeMap {
    fn default() -> (r: TypeMap)
        ensures
            r.entries@.len() == 0,
    {
        TypeMap::new()
    }
}

/// The first field of the message carrying this name, as the associate pass
/// looks siblings up.
fn find_field(msg: &Message, name: &str) -> (r: Option<usize>)
    ensures
        r matches Some(j) ==> 0 <= j < msg.fields@.len() && msg.fields@[j as int].name@ == name@
            && (forall|k: int| 0 <= k < j ==> msg.fields@[k].name@ != name@),
        r is None ==> forall|k: int| 0 <= k < msg.fields@.len() ==> msg.fields@[k].name@ != name@,
{
    let mut j: usize = 0;
    while j < msg.fields.len()
        invariant
            0 <= j <= msg.fields@.len(),
            forall|k: int| 0 <= k < j ==> msg.fields@[k].name@ != name@,
        decreases msg.fields@.len() - j,
    {
        if crate::text::str_equal(msg.fields[j].name.as_str(), name) {
            return Some(j);
        }
        j = j + 1;
    }
    None
}

/// The most recently recorded association for this key, scanning the record
/// from its end.
fn assoc_lookup(assoc: &Vec<AssocEntry>, key: &str) -> (r: Option<(SymbolId, SymbolId)>)
    ensures
        match assoc_find(assoc@, key@) {
            Some(e) => r matches Some(p) && p.0 == e.array_field && p.1 == e.ty,
            None => r is None,
        },
{
    let mut i: usize = assoc.len();
    proof {
        assert(assoc@.subrange(0, assoc@.len() as int) =~= assoc@);
    }
    while i > 0
        invariant
            0 <= i <= assoc@.len(),
            assoc_find(assoc@, key@) == assoc_find(assoc@.subrange(0, i as int), key@),
        decreases i,
    {
        i = i - 1;
        let ghost pre = assoc@.subrange(0, i + 1 as int);
        proof {
            assert(pre.last() == assoc@[i as int]);
            assert(pre.drop_last() =~= assoc@.subrange(0, i as int));
        }
        if crate::text::str_equal(assoc[i].key.as_str(), key) {
            return Some((assoc[i].array_field, assoc[i].ty));
        }
    }
    proof {
        assert(assoc@.subrange(0, 0).len() == 0);
    }
    None
}

/// Resolves a bare custom identifier: it must already be a declared message
/// or bitfield name.
fn resolve_custom(symbols: &Symbols, types: &TypeMap, n: &String) -> (r: Result<
    SymbolId,
    CompileError,
>)
    requires
        distinct_texts(symbols@),
    ensures
        (r is Ok) == declared_now(symbols@, *types, n@),
        r matches Ok(id) ==> sym_is(symbols@, id, n@) && types.has(id.0 as int) && (types.at(
            id.0 as int,
        ) is Message || types.at(id.0 as int) is Bitfield),
        r matches Err(e) ==> (e matches CompileError::UndefinedType(nn) && nn@ == n@),
{
    match symbols.find(n.as_str()) {
        Some(id) => {
            match types.get(id) {
                Some(t) => {
                    if t.is_message() || t.is_bitfield() {
                        Ok(id)
                    } else {
                        proof {
                            assert forall|i: int|
                                0 <= i < symbols@.len() && symbols@[i] == n@ implies i == id.0
                                as int by {}
                        }
                        Err(CompileError::UndefinedType(n.clone()))
                    }
                },
                None => {
                    proof {
                        assert forall|i: int|
                            0 <= i < symbols@.len() && symbols@[i] == n@ implies i == id.0
                            as int by {}
                    }
                    Err(CompileError::UndefinedType(n.clone()))
                },
            }
        },
        None => Err(CompileError::UndefinedType(n.clone())),
    }
}

/// Builds the synthesized name of a length-prefixed array.
fn make_array_default_name(elem: &str) -> (r: String)
    ensures
        r@ == array_default_name(elem@),
{
    let mut s = String::from_str(elem);
    s.append("[]");
    s
}

/// Builds the synthesized name of a field-associated array.
fn make_array_field_name(elem: &str, f: &str) -> (r: String)
    ensures
        r@ == array_field_name(elem@, f@),
{
    let mut s = String::from_str(elem);
    s.append("[");
    s.append(f);
    s.append("]");
    s
}

/// Maps a field's declared type expression to its type symbol, synthesizing
/// and registering array types as needed; the first synthesis of an array
/// name wins, later equal arrays share it.
#[verifier::rlimit(100)]
fn type_expr_to_type_id(
    ty: &TypeExpr,
    symbols: &mut Symbols,
    natives: &NativeTypeSymbols,
    types: &mut TypeMap,
    assoc: &Vec<AssocEntry>,
) -> (r: Result<SymbolId, CompileError>)
    requires
        distinct_texts(symbols_seq(*old(symbols))),
        symbols_seq(*old(symbols)).len() + 2 < 0xFFFF_FFFEusize,
        natives.consistent_with(symbols_seq(*old(symbols))),
        old(types).entries@.len() <= symbols_seq(*old(symbols)).len(),
        arrays_consistent(symbols_seq(*old(symbols)), *old(types)),
        types_wf(*old(types), symbols_seq(*old(symbols)).len() as int),
        forall|k: Seq<char>|
            (#[trigger] assoc_find(assoc@, k)) matches Some(e) ==> e.ty.0 < symbols_seq(
                *old(symbols),
            ).len(),
    ensures
        distinct_texts(final(symbols)@),
        old(symbols)@.len() <= final(symbols)@.len() <= old(symbols)@.len() + 2,
        forall|i: int| 0 <= i < old(symbols)@.len() ==> final(symbols)@[i] == old(symbols)@[i],
        natives.consistent_with(final(symbols)@),
        final(types).entries@.len() <= final(symbols)@.len(),
        arrays_consistent(final(symbols)@, *final(types)),
        types_wf(*final(types), final(symbols)@.len() as int),
        forall|j: int|
            #[trigger] old(types).has(j) ==> final(types).has(j) && final(types).at(j) == old(
                types,
            ).at(j),
        forall|j: int|
            #[trigger] final(types).has(j) && !old(types).has(j) ==> final(types).at(j) is Array,
        forall|n: Seq<char>|
            (#[trigger] declared_now(final(symbols)@, *final(types), n)) == declared_now(
                old(symbols)@,
                *old(types),
                n,
            ),
        r matches Ok(id) ==> resolved_ty_rel(final(symbols)@, *final(types), *ty, id),
        (r is Ok) == te_resolvable(old(symbols)@, *old(types), assoc@, *ty),
        ty matches TypeExpr::Ident(ti) ==> final(symbols)@ == old(symbols)@ && *final(types)
            == *old(types),
        ty matches TypeExpr::ArrayWithField(ti, f) ==> (r matches Ok(id) ==> (!old(types).has(
            id.0 as int,
        ) ==> (final(types).at(id.0 as int) matches Type::Array(
            ArrayType::Field { elem_type, field_name, field_type },
        ) && (assoc_find(assoc@, f@) matches Some(e) && field_type == e.ty)))),
        r matches Err(e) ==> (e is UndefinedType || e is UnknownAssociatedField),
        r matches Err(e) ==> (e matches CompileError::UndefinedType(n) ==> !declared_now(
            old(symbols)@,
            *old(types),
            n@,
        ) && te_mentions_custom(*ty, n@)),
        r matches Err(e) ==> (e matches CompileError::UnknownAssociatedField(n) ==> (ty matches
            TypeExpr::ArrayWithField(ti, f) && f@ == n@ && assoc_find(assoc@, n@) is None)),
{
    let ghost m0 = symbols@;
    let ghost tm0 = *types;
    match ty {
        TypeExpr::Ident(ti) => {
            match ti {
                TypeIdent::Native(k) => Ok(natives.type_id(*k)),
                TypeIdent::Custom(n) => resolve_custom(symbols, types, n),
            }
        },
        TypeExpr::ArrayNoField(ti) => {
            let elem_id = match ti {
                TypeIdent::Native(k) => natives.type_id(*k),
                TypeIdent::Custom(n) => {
                    match resolve_custom(symbols, types, n) {
                        Ok(id) => id,
                        Err(e) => {
                            return Err(e);
                        },
                    }
                },
            };
            let elem_str: &str = match ti {
                TypeIdent::Native(k) => native_keyword_str(*k),
                TypeIdent::Custom(n) => n.as_str(),
            };
            let name = make_array_default_name(elem_str);
            let array_id = symbols.insert(name.as_str());
            proof {
                lemma_insert_preserves_distinct(m0, name@);
                broadcast use crate::symbols::lemma_insert_model_entries;

                assert(sym_is(symbols@, array_id, array_default_name(elem_str@)));
            }
            let absent = types.get(array_id).is_none();
            if absent {
                types.insert(array_id, Type::Array(ArrayType::Default(elem_id)));
            }
            proof {
                broadcast use crate::symbols::lemma_insert_model_entries;

                assert forall|n: Seq<char>|
                    (#[trigger] declared_now(symbols@, *types, n)) == declared_now(m0, tm0, n) by {
                    lemma_declared_now_stable(m0, symbols@, tm0, *types, n);
                }
            }
            Ok(array_id)
        },
        TypeExpr::ArrayWithField(ti, f) => {
            let looked = assoc_lookup(assoc, f.as_str());
            let assoc_ty = match looked {
                Some(p) => p.1,
                None => {
                    return Err(CompileError::UnknownAssociatedField(f.clone()));
                },
            };
            let elem_id = match ti {
                TypeIdent::Native(k) => natives.type_id(*k),
                TypeIdent::Custom(n) => {
                    match resolve_custom(symbols, types, n) {
                        Ok(id) => id,
                        Err(e) => {
                            return Err(e);
                        },
                    }
                },
            };
            let elem_str: &str = match ti {
                TypeIdent::Native(k) => native_keyword_str(*k),
                TypeIdent::Custom(n) => n.as_str(),
            };
            let name = make_array_field_name(elem_str, f.as_str());
            let ghost m_pre = symbols@;
            let fname_id = symbols.insert(f.as_str());
            proof {
                lemma_insert_preserves_distinct(m_pre, f@);
                broadcast use crate::symbols::lemma_insert_model_entries;

            }
            let ghost m_mid = symbols@;
            let array_id = symbols.insert(name.as_str());
            proof {
                lemma_insert_preserves_distinct(m_mid, name@);
                broadcast use crate::symbols::lemma_insert_model_entries;

                assert(sym_is(symbols@, array_id, array_field_name(elem_str@, f@)));
                assert(sym_is(symbols@, fname_id, f@));
            }
            let absent = types.get(array_id).is_none();
            if absent {
                types.insert(
                    array_id,
                    Type::Array(
                        ArrayType::Field {
                            elem_type: elem_id,
                            field_name: fname_id,
                            field_type: assoc_ty,
                        },
                    ),
                );
            }
            proof {
                broadcast use crate::symbols::lemma_insert_model_entries;

                assert forall|n: Seq<char>|
                    (#[trigger] declared_now(symbols@, *types, n)) == declared_now(m0, tm0, n) by {
                    lemma_declared_now_stable(m0, symbols@, tm0, *types, n);
                }
            }
            Ok(array_id)
        },
    }
}

/// A name resolves after an extension exactly when it resolved before, as
/// long as the extension preserved old interner entries and old registry
/// entries, and added only array entries.
proof fn lemma_declared_now_stable(
    m0: Seq<Seq<char>>,
    m1: Seq<Seq<char>>,
    tm0: TypeMap,
    tm1: TypeMap,
    n: Seq<char>,
)
    requires
        m1.len() >= m0.len(),
        forall|i: int| 0 <= i < m0.len() ==> m1[i] == m0[i],
        forall|j: int|
            #[trigger] tm0.has(j) ==> tm1.has(j) && tm1.at(j) == tm0.at(j),
        forall|j: int|
            #[trigger] tm1.has(j) && !tm0.has(j) ==> tm1.at(j) is Array,
        tm0.entries@.len() <= m0.len(),
    ensures
        declared_now(m1, tm1, n) == declared_now(m0, tm0, n),
{
    if declared_now(m1, tm1, n) {
        let i = choose|i: int|
            0 <= i < m1.len() && m1[i] == n && #[trigger] tm1.has(i) && (tm1.at(i) is Message
                || tm1.at(i) is Bitfield);
        if tm0.has(i) {
            assert(0 <= i < m0.len());
            assert(declared_now(m0, tm0, n));
        } else {
            assert(tm1.at(i) is Array);
            assert(false);
        }
    }
    if declared_now(m0, tm0, n) {
        let i = choose|i: int|
            0 <= i < m0.len() && m0[i] == n && #[trigger] tm0.has(i) && (tm0.at(i) is Message
                || tm0.at(i) is Bitfield);
        assert(tm1.has(i) && tm1.at(i) == tm0.at(i));
        assert(m1[i] == n);
        assert(declared_now(m1, tm1, n));
    }
}

/// A definition's registration survives an extension that preserves every
/// existing registry entry and every existing interner entry.
proof fn lemma_def_fact_extend(
    m0: Seq<Seq<char>>,
    m1: Seq<Seq<char>>,
    tm0: TypeMap,
    tm1: TypeMap,
    d: TopLevel,
    complete: bool,
)
    requires
        m1.len() >= m0.len(),
        forall|i: int| 0 <= i < m0.len() ==> m1[i] == m0[i],
        forall|j: int| #[trigger] tm0.has(j) ==> tm1.has(j) && tm1.at(j) == tm0.at(j),
        tm0.entries@.len() <= m0.len(),
        complete ==> def_matches(m0, tm0, d),
        !complete ==> def_declared(m0, tm0, d),
    ensures
        complete ==> def_matches(m1, tm1, d),
        !complete ==> def_declared(m1, tm1, d),
{
    match d {
        TopLevel::Message(msg) => {
            if complete {
                let id = choose|id: SymbolId|
                    #![trigger sym_is(m0, id, msg.name@)]
                    sym_is(m0, id, msg.name@) && tm0.has(id.0 as int) && (tm0.at(id.0 as int)
                        matches Type::Message(mt) && mt.name == id && message_matches(
                        m0,
                        tm0,
                        mt,
                        msg,
                    ));
                assert(sym_is(m1, id, msg.name@));
                let mt = tm0.at(id.0 as int)->Message_0;
                assert(message_matches(m1, tm1, mt, msg)) by {
                    assert forall|j: int| 0 <= j < msg.fields@.len() implies field_matches(
                        m1,
                        tm1,
                        #[trigger] mt.fields@[j],
                        msg,
                        j,
                    ) by {
                        assert(field_matches(m0, tm0, mt.fields@[j], msg, j));
                        lemma_resolved_rel_extend(m0, m1, tm0, tm1, msg.fields@[j].ty, mt.fields@[j].ty);
                    }
                }
            } else {
                let id = choose|id: SymbolId|
                    #![trigger sym_is(m0, id, msg.name@)]
                    sym_is(m0, id, msg.name@) && tm0.has(id.0 as int) && (tm0.at(id.0 as int)
                        matches Type::Message(mt) && mt.name == id);
                assert(sym_is(m1, id, msg.name@));
            }
        },
        TopLevel::Bitfield(b) => {
            let id = choose|id: SymbolId|
                #![trigger sym_is(m0, id, b.name@)]
                sym_is(m0, id, b.name@) && tm0.has(id.0 as int) && (tm0.at(id.0 as int) matches
                Type::Bitfield(bt) && bt.name == id && bitfield_matches(m0, bt, b));
            assert(sym_is(m1, id, b.name@));
            let bt = tm0.at(id.0 as int)->Bitfield_0;
            assert(bitfield_matches(m1, bt, b));
        },
    }
}

/// A resolved field-type relation survives the same kind of extension.
proof fn lemma_resolved_rel_extend(
    m0: Seq<Seq<char>>,
    m1: Seq<Seq<char>>,
    tm0: TypeMap,
    tm1: TypeMap,
    te: TypeExpr,
    id: SymbolId,
)
    requires
        m1.len() >= m0.len(),
        forall|i: int| 0 <= i < m0.len() ==> m1[i] == m0[i],
        forall|j: int| #[trigger] tm0.has(j) ==> tm1.has(j) && tm1.at(j) == tm0.at(j),
        resolved_ty_rel(m0, tm0, te, id),
    ensures
        resolved_ty_rel(m1, tm1, te, id),
{
}

/// A definition's registration also survives overwriting one registry entry
/// with a message entry, as long as the overwritten symbol's text is not
/// this definition's name.
proof fn lemma_def_fact_overwrite(
    m0: Seq<Seq<char>>,
    tm0: TypeMap,
    tm1: TypeMap,
    d: TopLevel,
    w: int,
    complete: bool,
)
    requires
        forall|j: int| j != w ==> tm1.has(j) == tm0.has(j) && (tm0.has(j) ==> tm1.at(j) == tm0.at(j)),
        tm1.has(w),
        tm1.at(w) is Message,
        tm0.has(w),
        tm0.at(w) is Message,
        0 <= w < m0.len(),
        m0[w] != def_name(d),
        complete ==> def_matches(m0, tm0, d),
        !complete ==> def_declared(m0, tm0, d),
    ensures
        complete ==> def_matches(m0, tm1, d),
        !complete ==> def_declared(m0, tm1, d),
{
    match d {
        TopLevel::Message(msg) => {
            if complete {
                let id = choose|id: SymbolId|
                    #![trigger sym_is(m0, id, msg.name@)]
                    sym_is(m0, id, msg.name@) && tm0.has(id.0 as int) && (tm0.at(id.0 as int)
                        matches Type::Message(mt) && mt.name == id && message_matches(
                        m0,
                        tm0,
                        mt,
                        msg,
                    ));
                assert(id.0 as int != w);
                let mt = tm0.at(id.0 as int)->Message_0;
                assert(message_matches(m0, tm1, mt, msg)) by {
                    assert forall|j: int| 0 <= j < msg.fields@.len() implies field_matches(
                        m0,
                        tm1,
                        #[trigger] mt.fields@[j],
                        msg,
                        j,
                    ) by {
                        assert(field_matches(m0, tm0, mt.fields@[j], msg, j));
                        lemma_resolved_rel_overwrite(m0, tm0, tm1, msg.fields@[j].ty, mt.fields@[j].ty, w);
                    }
                }
            } else {
                let id = choose|id: SymbolId|
                    #![trigger sym_is(m0, id, msg.name@)]
                    sym_is(m0, id, msg.name@) && tm0.has(id.0 as int) && (tm0.at(id.0 as int)
                        matches Type::Message(mt) && mt.name == id);
                assert(id.0 as int != w);
            }
        },
        TopLevel::Bitfield(b) => {
            let id = choose|id: SymbolId|
                #![trigger sym_is(m0, id, b.name@)]
                sym_is(m0, id, b.name@) && tm0.has(id.0 as int) && (tm0.at(id.0 as int) matches
                Type::Bitfield(bt) && bt.name == id && bitfield_matches(m0, bt, b));
            assert(id.0 as int != w);
        },
    }
}

proof fn lemma_resolved_rel_overwrite(
    m0: Seq<Seq<char>>,
    tm0: TypeMap,
    tm1: TypeMap,
    te: TypeExpr,
    id: SymbolId,
    w: int,
)
    requires
        forall|j: int| j != w ==> tm1.has(j) == tm0.has(j) && (tm0.has(j) ==> tm1.at(j) == tm0.at(j)),
        tm1.has(w),
        tm1.at(w) is Message,
        resolved_ty_rel(m0, tm0, te, id),
    ensures
        resolved_ty_rel(m0, tm1, te, id),
{
}

/// A native keyword's registration survives extensions and message
/// overwrites at symbols whose text is not the keyword.
proof fn lemma_native_entry_extend(
    m0: Seq<Seq<char>>,
    m1: Seq<Seq<char>>,
    tm0: TypeMap,
    tm1: TypeMap,
    k: NativeType,
)
    requires
        m1.len() >= m0.len(),
        forall|i: int| 0 <= i < m0.len() ==> m1[i] == m0[i],
        forall|j: int| #[trigger] tm0.has(j) ==> tm1.has(j) && tm1.at(j) == tm0.at(j),
        native_entry_ok(m0, tm0, k),
    ensures
        native_entry_ok(m1, tm1, k),
{
    let id = choose|id: SymbolId|
        #![trigger sym_is(m0, id, native_keyword(k))]
        sym_is(m0, id, native_keyword(k)) && tm0.has(id.0 as int) && tm0.at(id.0 as int)
            == Type::Native(k);
    assert(sym_is(m1, id, native_keyword(k)));
}

proof fn lemma_native_entry_overwrite(
    m0: Seq<Seq<char>>,
    tm0: TypeMap,
    tm1: TypeMap,
    k: NativeType,
    w: int,
)
    requires
        forall|j: int| j != w ==> tm1.has(j) == tm0.has(j) && (tm0.has(j) ==> tm1.at(j) == tm0.at(j)),
        0 <= w < m0.len(),
        m0[w] != native_keyword(k),
        native_entry_ok(m0, tm0, k),
    ensures
        native_entry_ok(m0, tm1, k),
{
    let id = choose|id: SymbolId|
        #![trigger sym_is(m0, id, native_keyword(k))]
        sym_is(m0, id, native_keyword(k)) && tm0.has(id.0 as int) && tm0.at(id.0 as int)
            == Type::Native(k);
    assert(id.0 as int != w);
}

/// Writing a message or bitfield entry at a symbol extends the set of
/// resolving names by exactly that symbol's text.
proof fn lemma_declared_now_insert(
    m1: Seq<Seq<char>>,
    tm0: TypeMap,
    tm1: TypeMap,
    id: SymbolId,
    n: Seq<char>,
)
    requires
        id.0 < m1.len(),
        forall|j: int| j != id.0 as int ==> tm1.has(j) == tm0.has(j) && (tm0.has(j) ==> tm1.at(j) == tm0.at(j)),
        tm1.has(id.0 as int),
        tm1.at(id.0 as int) is Message || tm1.at(id.0 as int) is Bitfield,
        tm0.entries@.len() <= m1.len(),
    ensures
        declared_now(m1, tm1, n) == (declared_now(m1, tm0, n) || n == m1[id.0 as int]),
{
    if n == m1[id.0 as int] {
        assert(declared_now(m1, tm1, n));
    }
    if declared_now(m1, tm0, n) {
        let i = choose|i: int|
            0 <= i < m1.len() && m1[i] == n && #[trigger] tm0.has(i) && (tm0.at(i) is Message
                || tm0.at(i) is Bitfield);
        if i == id.0 as int {
            assert(declared_now(m1, tm1, n));
        } else {
            assert(tm1.has(i) && tm1.at(i) == tm0.at(i));
            assert(declared_now(m1, tm1, n));
        }
    }
    if declared_now(m1, tm1, n) && n != m1[id.0 as int] {
        let i = choose|i: int|
            0 <= i < m1.len() && m1[i] == n && #[trigger] tm1.has(i) && (tm1.at(i) is Message
                || tm1.at(i) is Bitfield);
        assert(i != id.0 as int);
        assert(tm0.has(i) && tm0.at(i) == tm1.at(i));
        assert(declared_now(m1, tm0, n));
    }
}

/// Growing only the interner, with the registry untouched, changes no
/// name's resolution.
proof fn lemma_declared_now_grow(
    m0: Seq<Seq<char>>,
    m1: Seq<Seq<char>>,
    tm: TypeMap,
    n: Seq<char>,
)
    requires
        m1.len() >= m0.len(),
        forall|i: int| 0 <= i < m0.len() ==> m1[i] == m0[i],
        tm.entries@.len() <= m0.len(),
    ensures
        declared_now(m1, tm, n) == declared_now(m0, tm, n),
{
    if declared_now(m1, tm, n) {
        let i = choose|i: int|
            0 <= i < m1.len() && m1[i] == n && #[trigger] tm.has(i) && (tm.at(i) is Message
                || tm.at(i) is Bitfield);
        assert(i < m0.len());
        assert(declared_now(m0, tm, n));
    }
    if declared_now(m0, tm, n) {
        let i = choose|i: int|
            0 <= i < m0.len() && m0[i] == n && #[trigger] tm.has(i) && (tm.at(i) is Message
                || tm.at(i) is Bitfield);
        assert(m1[i] == n);
        assert(declared_now(m1, tm, n));
    }
}

proof fn lemma_arrays_consistent_grow(m0: Seq<Seq<char>>, m1: Seq<Seq<char>>, tm: TypeMap)
    requires
        m1.len() >= m0.len(),
        forall|i: int| 0 <= i < m0.len() ==> m1[i] == m0[i],
        tm.entries@.len() <= m0.len(),
        arrays_consistent(m0, tm),
    ensures
        arrays_consistent(m1, tm),
{
    assert forall|i: int| #[trigger] tm.has(i) implies match tm.at(i) {
        Type::Array(ArrayType::Default(e)) => e.0 < m1.len() && 0 <= i < m1.len() && m1[i]
            == array_default_name(m1[e.0 as int]),
        Type::Array(ArrayType::Field { elem_type, field_name, field_type }) => elem_type.0
            < m1.len() && field_name.0 < m1.len() && field_type.0 < m1.len() && 0 <= i < m1.len()
            && m1[i] == array_field_name(m1[elem_type.0 as int], m1[field_name.0 as int]),
        _ => true,
    } by {
        assert(i < m0.len());
    }
}

proof fn lemma_contains_grow(m0: Seq<Seq<char>>, m1: Seq<Seq<char>>, t: Seq<char>)
    requires
        m1.len() >= m0.len(),
        forall|i: int| 0 <= i < m0.len() ==> m1[i] == m0[i],
        contains_text(m0, t),
    ensures
        contains_text(m1, t),
{
    let i = choose|i: int| 0 <= i < m0.len() && m0[i] == t;
    assert(m1[i] == t);
}

/// Interns a bitfield's flag names, in declaration order.
fn build_flags(symbols: &mut Symbols, bitfield: &Bitfield) -> (flags: Vec<Bitflag>)
    requires
        distinct_texts(symbols_seq(*old(symbols))),
        symbols_seq(*old(symbols)).len() + bitfield.flags@.len() < 0xFFFF_FFFEusize,
    ensures
        distinct_texts(final(symbols)@),
        old(symbols)@.len() <= final(symbols)@.len() <= old(symbols)@.len()
            + bitfield.flags@.len(),
        forall|i: int| 0 <= i < old(symbols)@.len() ==> final(symbols)@[i] == old(symbols)@[i],
        flags@.len() == bitfield.flags@.len(),
        forall|j: int|
            0 <= j < flags@.len() ==> sym_is(
                final(symbols)@,
                (#[trigger] flags@[j]).name,
                bitfield.flags@[j].name@,
            ) && flags@[j].offset == bitfield.flags@[j].offset,
{
    broadcast use crate::symbols::lemma_insert_model_entries;

    let mut flags: Vec<Bitflag> = Vec::new();
    let mut fi: usize = 0;
    while fi < bitfield.flags.len()
        invariant
            0 <= fi <= bitfield.flags@.len(),
            flags@.len() == fi,
            distinct_texts(symbols@),
            old(symbols)@.len() <= symbols@.len() <= old(symbols)@.len() + fi,
            symbols_seq(*old(symbols)).len() + bitfield.flags@.len() < 0xFFFF_FFFEusize,
            forall|i: int| 0 <= i < old(symbols)@.len() ==> symbols@[i] == old(symbols)@[i],
            forall|j: int|
                0 <= j < fi ==> sym_is(
                    symbols@,
                    (#[trigger] flags@[j]).name,
                    bitfield.flags@[j].name@,
                ) && flags@[j].offset == bitfield.flags@[j].offset,
        decreases bitfield.flags@.len() - fi,
    {
        let ghost m_pre = symbols@;
        let flag_name = symbols.insert(bitfield.flags[fi].name.as_str());
        proof {
            lemma_insert_preserves_distinct(m_pre, bitfield.flags@[fi as int].name@);
        }
        flags.push(Bitflag { name: flag_name, offset: bitfield.flags[fi].offset });
        fi = fi + 1;
    }
    flags
}

/// Synthesized array names always hold a bracket, so they never collide
/// with declared names that hold none.
pub proof fn lemma_array_names_bracketed_pub(elem: Seq<char>, f: Seq<char>)
    ensures
        array_default_name(elem).contains('['),
        array_field_name(elem, f).contains('['),
{
    lemma_array_names_bracketed(elem, f);
}

proof fn lemma_array_names_bracketed(elem: Seq<char>, f: Seq<char>)
    ensures
        array_default_name(elem).contains('['),
        array_field_name(elem, f).contains('['),
{
    reveal_strlit("[]");
    reveal_strlit("[");
    reveal_strlit("]");
    assert(array_default_name(elem)[elem.len() as int] == '[');
    assert(array_field_name(elem, f)[elem.len() as int] == '[');
}

proof fn lemma_assoc_ok_grow(
    m0: Seq<Seq<char>>,
    m1: Seq<Seq<char>>,
    assoc: Seq<AssocEntry>,
    fields: Seq<crate::ast::Field>,
    upto: int,
)
    requires
        m1.len() >= m0.len(),
        forall|i: int| 0 <= i < m0.len() ==> m1[i] == m0[i],
        assoc_ok(m0, assoc, fields, upto),
    ensures
        assoc_ok(m1, assoc, fields, upto),
{
    assert forall|k: Seq<char>| match #[trigger] assoc_find(assoc, k) {
        Some(e) => (exists|j: int|
            0 <= j < upto && refs_name(#[trigger] fields[j], k) && sym_is(
                m1,
                e.array_field,
                fields[j].name@,
            )) && e.key@ == k && e.ty.0 < m1.len(),
        None => forall|j: int| 0 <= j < upto ==> !refs_name(#[trigger] fields[j], k),
    } by {
        match assoc_find(assoc, k) {
            Some(e) => {
                let j = choose|j: int|
                    0 <= j < upto && refs_name(#[trigger] fields[j], k) && sym_is(
                        m0,
                        e.array_field,
                        fields[j].name@,
                    );
                assert(sym_is(m1, e.array_field, fields[j].name@));
                assert(refs_name(fields[j], k));
            },
            None => {},
        }
    }
}

proof fn lemma_field_matches_extend(
    m0: Seq<Seq<char>>,
    m1: Seq<Seq<char>>,
    tm0: TypeMap,
    tm1: TypeMap,
    f: Field,
    msg: Message,
    j: int,
)
    requires
        m1.len() >= m0.len(),
        forall|i: int| 0 <= i < m0.len() ==> m1[i] == m0[i],
        forall|jj: int| #[trigger] tm0.has(jj) ==> tm1.has(jj) && tm1.at(jj) == tm0.at(jj),
        0 <= j < msg.fields@.len(),
        field_matches(m0, tm0, f, msg, j),
    ensures
        field_matches(m1, tm1, f, msg, j),
{
    lemma_resolved_rel_extend(m0, m1, tm0, tm1, msg.fields@[j].ty, f.ty);
    match f.associated {
        Some(a) => {
            let ai = choose|ai: int|
                0 <= ai < msg.fields@.len() && refs_name(#[trigger] msg.fields@[ai], msg.fields@[j].name@)
                    && sym_is(m0, a, msg.fields@[ai].name@);
            assert(sym_is(m1, a, msg.fields@[ai].name@));
            assert(refs_name(msg.fields@[ai], msg.fields@[j].name@));
        },
        None => {},
    }
}

/// What the resolver checks agrees with the file-level resolvability
/// judgment, through the declared-name equivalence and the association
/// record.
proof fn lemma_te_bridge(
    file: File,
    m: Seq<Seq<char>>,
    tm: TypeMap,
    assoc: Seq<AssocEntry>,
    fields: Seq<crate::ast::Field>,
    upto: int,
    te: TypeExpr,
)
    requires
        decl_equiv(m, tm, file),
        assoc_ok(m, assoc, fields, upto),
    ensures
        te_resolvable(m, tm, assoc, te) == te_ok_file(file, fields, upto, te),
{
    match te {
        TypeExpr::ArrayWithField(ti, f) => {
            assert((assoc_find(assoc, f@) is Some) == (exists|j: int|
                0 <= j < upto && refs_name(#[trigger] fields[j], f@))) by {
                match assoc_find(assoc, f@) {
                    Some(e) => {},
                    None => {},
                }
            }
        },
        _ => {},
    }
}

impl Hir {
    /// Builds the full registry from a parsed file: pass one declares every
    /// top-level name, pass two resolves each message's fields, recording
    /// associations and marking folded fields. Resolution failures are
    /// returned as typed errors, never panics.
    pub fn new(file: &File) -> (r: Result<Hir, CompileError>)
        requires
            decl_count(*file) <= 0x0FFF_FFFF,
        ensures
            r matches Ok(h) ==> h.wf(),
            r matches Ok(h) ==> h.symbols@.len() < 0xFFFF_FFFEusize,
            r matches Ok(h) ==> sym_is(h.symbols@, h.root, ""@),
            r matches Ok(h) ==> arrays_consistent(h.symbols@, h.types),
            r matches Ok(h) ==> (forall|i: int|
                #[trigger] h.types.has(i) && h.types.at(i) is Native ==> is_native_kw(
                    h.symbols@[i],
                )),
            file_clean(*file) ==> ((r is Ok) == build_ok(*file)),
            file_clean(*file) ==> (r matches Ok(h) ==> hir_matches_file(h, *file)),
            file_clean(*file) ==> (r matches Ok(h) ==> decl_equiv(h.symbols@, h.types, *file)),
            file_clean(*file) ==> (r matches Ok(h) ==> !h.types.has(h.root.0 as int)),
            r matches Err(e) ==> (e is UndefinedType || e is UnknownAssociatedField),
            file_clean(*file) ==> (r matches Err(e) ==> match e {
                CompileError::UndefinedType(n) => !declared_in(*file, n@) && mentions_custom(
                    *file,
                    n@,
                ),
                CompileError::UnknownAssociatedField(n) => mentions_assoc(*file, n@),
                _ => true,
            }),
    {
        proof {
            crate::ast::lemma_decl_count_nonneg(file.defs@);
        }
        let (mut symbols, root, natives, mut types) = init_context();
        // declare: every top-level name gets its skeleton entry first
        let mut di: usize = 0;
        proof {
            assert(file.defs@.subrange(0, 0).len() == 0);
        }
        while di < file.defs.len()
            invariant
                0 <= di <= file.defs@.len(),
                decl_count(*file) <= 0x0FFF_FFFF,
                ctx_inv(symbols@, types, natives),
                symbols@.len() <= 13 + decl_count_seq(file.defs@.subrange(0, di as int)),
                sym_is(symbols@, root, ""@),
                forall|d: int|
                    0 <= d < di ==> contains_text(symbols@, def_name(#[trigger] file.defs@[d])),
                file_clean(*file) ==> forall|k: NativeType| native_entry_ok(symbols@, types, k),
                file_clean(*file) ==> forall|n: Seq<char>|
                    (#[trigger] declared_now(symbols@, types, n)) == (exists|d: int|
                        0 <= d < di && def_name(#[trigger] file.defs@[d]) == n),
                file_clean(*file) ==> forall|d: int|
                    0 <= d < di ==> def_declared(symbols@, types, #[trigger] file.defs@[d]),
            decreases file.defs@.len() - di,
        {
            proof {
                crate::ast::lemma_dcs_snoc(file.defs@, di as int);
                crate::ast::lemma_dcs_prefix(file.defs@, di as int + 1);
                crate::ast::lemma_decl_count_nonneg(file.defs@.subrange(0, di as int));
                if file_clean(*file) {
                    assert(!declared_now(symbols@, types, def_name(file.defs@[di as int]))) by {
                        if declared_now(symbols@, types, def_name(file.defs@[di as int])) {
                            let d0 = choose|d0: int|
                                0 <= d0 < di && def_name(#[trigger] file.defs@[d0]) == def_name(
                                    file.defs@[di as int],
                                );
                        }
                    }
                }
            }
            let ghost m_pre = symbols@;
            let ghost tm_pre = types;
            declare_def(file, di, &mut symbols, &mut types, &natives);
            proof {
                assert forall|d: int| 0 <= d < di + 1 implies contains_text(
                    symbols@,
                    def_name(#[trigger] file.defs@[d]),
                ) by {
                    if d < di {
                        lemma_contains_grow(m_pre, symbols@, def_name(file.defs@[d]));
                    }
                }
                if file_clean(*file) {
                    assert forall|n: Seq<char>|
                        (#[trigger] declared_now(symbols@, types, n)) == (exists|d: int|
                            0 <= d < di + 1 && def_name(#[trigger] file.defs@[d]) == n) by {
                        if declared_now(symbols@, types, n) {
                            if n == def_name(file.defs@[di as int]) {
                                assert(def_name(file.defs@[di as int]) == n);
                            } else {
                                let d0 = choose|d0: int|
                                    0 <= d0 < di && def_name(#[trigger] file.defs@[d0]) == n;
                            }
                        }
                        if exists|d: int| 0 <= d < di + 1 && def_name(#[trigger] file.defs@[d])
                            == n {
                            let d0 = choose|d0: int|
                                0 <= d0 < di + 1 && def_name(#[trigger] file.defs@[d0]) == n;
                            if d0 < di {
                                assert(declared_now(m_pre, tm_pre, n));
                            }
                        }
                    }
                    assert forall|d: int| 0 <= d < di + 1 implies def_declared(
                        symbols@,
                        types,
                        #[trigger] file.defs@[d],
                    ) by {
                        if d < di {
                            assert(def_declared(m_pre, tm_pre, file.defs@[d]));
                        }
                    }
                }
            }
            di = di + 1;
        }
        proof {
            assert(file.defs@.subrange(0, file.defs@.len() as int) =~= file.defs@);
            if file_clean(*file) {
                assert forall|n: Seq<char>|
                    (#[trigger] declared_now(symbols@, types, n)) == declared_in(*file, n) by {}
            }
            assert(file.defs@.subrange(0, 0).len() == 0);
        }
        // resolve: walk every message's fields with all names in scope
        let mut dj: usize = 0;
        while dj < file.defs.len()
            invariant
                0 <= dj <= file.defs@.len(),
                decl_count(*file) <= 0x0FFF_FFFF,
                ctx_inv(symbols@, types, natives),
                symbols@.len() <= 13 + decl_count(*file) + 6 * decl_count_seq(
                    file.defs@.subrange(0, dj as int),
                ),
                sym_is(symbols@, root, ""@),
                forall|d: int|
                    0 <= d < file.defs@.len() ==> contains_text(
                        symbols@,
                        def_name(#[trigger] file.defs@[d]),
                    ),
                file_clean(*file) ==> forall|k: NativeType| native_entry_ok(symbols@, types, k),
                file_clean(*file) ==> decl_equiv(symbols@, types, *file),
                file_clean(*file) ==> forall|d: int|
                    dj <= d < file.defs@.len() ==> def_declared(
                        symbols@,
                        types,
                        #[trigger] file.defs@[d],
                    ),
                file_clean(*file) ==> forall|d: int|
                    0 <= d < dj ==> def_matches(symbols@, types, #[trigger] file.defs@[d]),
                file_clean(*file) ==> forall|d: int|
                    0 <= d < dj ==> match #[trigger] file.defs@[d] {
                        TopLevel::Message(mm) => phase_a_ok(*file, mm) && phase_b_ok(*file, mm),
                        TopLevel::Bitfield(_) => true,
                    },
            decreases file.defs@.len() - dj,
        {
            proof {
                crate::ast::lemma_dcs_snoc(file.defs@, dj as int);
                crate::ast::lemma_dcs_prefix(file.defs@, dj as int + 1);
                crate::ast::lemma_decl_count_nonneg(file.defs@.subrange(0, dj as int));
            }
            let is_msg = matches!(&file.defs[dj], TopLevel::Message(_));
            if is_msg {
                let ghost m_pre = symbols@;
                let ghost tm_pre = types;
                let res = resolve_message(file, dj, &mut symbols, &mut types, &natives);
                match res {
                    Ok(_) => {
                        proof {
                            assert(res is Ok);
                        }
                    },
                    Err(e) => {
                        proof {
                            if file_clean(*file) {
                                assert(!build_ok(*file)) by {
                                    if build_ok(*file) {
                                        assert(match file.defs@[dj as int] {
                                            TopLevel::Message(mm) => phase_a_ok(*file, mm)
                                                && phase_b_ok(*file, mm),
                                            TopLevel::Bitfield(_) => true,
                                        });
                                    }
                                }
                            }
                        }
                        return Err(e);
                    },
                }
                proof {
                    assert forall|d: int| 0 <= d < file.defs@.len() implies contains_text(
                        symbols@,
                        def_name(#[trigger] file.defs@[d]),
                    ) by {
                        lemma_contains_grow(m_pre, symbols@, def_name(file.defs@[d]));
                    }
                    if file_clean(*file) {
                        assert forall|d: int|
                            dj + 1 <= d < file.defs@.len() implies def_declared(
                            symbols@,
                            types,
                            #[trigger] file.defs@[d],
                        ) by {
                            assert(def_declared(m_pre, tm_pre, file.defs@[d]));
                            assert(def_name(file.defs@[d]) != def_name(file.defs@[dj as int]));
                        }
                        assert forall|d: int| 0 <= d < dj + 1 implies def_matches(
                            symbols@,
                            types,
                            #[trigger] file.defs@[d],
                        ) by {
                            if d < dj {
                                assert(def_matches(m_pre, tm_pre, file.defs@[d]));
                                assert(def_name(file.defs@[d]) != def_name(
                                    file.defs@[dj as int],
                                ));
                            } else {
                                assert(res is Ok);
                                assert(def_matches(symbols@, types, file.defs@[dj as int]));
                            }
                        }
                    }
                }
            } else {
                proof {
                    if file_clean(*file) {
                        assert forall|d: int| 0 <= d < dj + 1 implies def_matches(
                            symbols@,
                            types,
                            #[trigger] file.defs@[d],
                        ) by {
                            if d == dj as int {
                                assert(def_declared(symbols@, types, file.defs@[d]));
                                assert(file.defs@[d] is Bitfield);
                            }
                        }
                    }
                }
            }
            dj = dj + 1;
        }
        proof {
            assert(file.defs@.subrange(0, file.defs@.len() as int) =~= file.defs@);
            if file_clean(*file) {
                assert(!types.has(root.0 as int)) by {
                    lemma_native_keywords_distinct();
                    reveal_strlit("");
                    assert(""@.len() == 0);
                    if types.has(root.0 as int) {
                        assert(symbols@[root.0 as int] == ""@);
                        match types.at(root.0 as int) {
                            Type::Message(_) => {
                                assert(declared_now(symbols@, types, ""@));
                                let d = choose|d: int|
                                    0 <= d < file.defs@.len() && def_name(
                                        #[trigger] file.defs@[d],
                                    ) == ""@;
                                assert(crate::ast::def_wf(file.defs@[d]));
                            },
                            Type::Bitfield(_) => {
                                assert(declared_now(symbols@, types, ""@));
                                let d = choose|d: int|
                                    0 <= d < file.defs@.len() && def_name(
                                        #[trigger] file.defs@[d],
                                    ) == ""@;
                                assert(crate::ast::def_wf(file.defs@[d]));
                            },
                            Type::Native(_) => {
                                assert(is_native_kw(""@));
                                let k = choose|k: NativeType| native_keyword(k) == ""@;
                                assert(native_keyword(k).len() > 0);
                            },
                            Type::Array(a) => {
                                match a {
                                    ArrayType::Default(e) => {
                                        lemma_array_names_bracketed(
                                            symbols@[e.0 as int],
                                            Seq::<char>::empty(),
                                        );
                                        assert(""@.contains('['));
                                    },
                                    ArrayType::Field { elem_type, field_name, field_type } => {
                                        lemma_array_names_bracketed(
                                            symbols@[elem_type.0 as int],
                                            symbols@[field_name.0 as int],
                                        );
                                        assert(""@.contains('['));
                                    },
                                }
                            },
                        }
                    }
                }
            }
        }
        Ok(Hir { root, symbols, types })
    }
}

/// Builds the initial compilation context: a fresh interner holding the
/// root symbol and the native keywords, and a registry mapping each
/// keyword's symbol to its native type.
#[verifier::rlimit(100)]
fn init_context() -> (r: (Symbols, SymbolId, NativeTypeSymbols, TypeMap))
    ensures
        ({
            let (symbols, root, natives, types) = r;
            &&& distinct_texts(symbols@)
            &&& symbols@.len() <= 13
            &&& sym_is(symbols@, root, ""@)
            &&& natives.consistent_with(symbols@)
            &&& natives_has(types, natives)
            &&& forall|k: NativeType| native_entry_ok(symbols@, types, k)
            &&& forall|n: Seq<char>| !(#[trigger] declared_now(symbols@, types, n))
            &&& forall|i: int|
                #[trigger] types.has(i) && types.at(i) is Native ==> is_native_kw(symbols@[i])
            &&& forall|i: int| #[trigger] types.has(i) ==> types.at(i) is Native
            &&& types.entries@.len() <= symbols@.len()
            &&& types_wf(types, symbols@.len() as int)
            &&& arrays_consistent(symbols@, types)
        }),
{
        broadcast use crate::symbols::lemma_insert_model_entries;

        let mut symbols = Symbols::new();
        let root = symbols.insert("");
        proof {
            assert(symbols@ =~= Seq::<Seq<char>>::empty().push(""@));
            assert(distinct_texts(symbols@));
            assert(sym_is(symbols@, root, ""@));
        }
        let natives = NativeTypeSymbols::new(&mut symbols);
        proof {
            assert(sym_is(symbols@, root, ""@));
            assert(symbols@.len() <= 13);
            assert forall|k1: NativeType, k2: NativeType| k1 != k2 implies natives.spec_type_id(k1)
                != natives.spec_type_id(k2) by {
                lemma_native_keywords_distinct();
                assert(sym_is(symbols@, natives.spec_type_id(k1), native_keyword(k1)));
                assert(sym_is(symbols@, natives.spec_type_id(k2), native_keyword(k2)));
            }
            assert(natives.i8.0 < symbols@.len()) by {
                assert(sym_is(symbols@, natives.spec_type_id(NativeType::I8), native_keyword(NativeType::I8)));
            }
            assert(natives.i16.0 < symbols@.len()) by {
                assert(sym_is(symbols@, natives.spec_type_id(NativeType::I16), native_keyword(NativeType::I16)));
            }
            assert(natives.i32.0 < symbols@.len()) by {
                assert(sym_is(symbols@, natives.spec_type_id(NativeType::I32), native_keyword(NativeType::I32)));
            }
            assert(natives.i64.0 < symbols@.len()) by {
                assert(sym_is(symbols@, natives.spec_type_id(NativeType::I64), native_keyword(NativeType::I64)));
            }
            assert(natives.u8.0 < symbols@.len()) by {
                assert(sym_is(symbols@, natives.spec_type_id(NativeType::U8), native_keyword(NativeType::U8)));
            }
            assert(natives.u16.0 < symbols@.len()) by {
                assert(sym_is(symbols@, natives.spec_type_id(NativeType::U16), native_keyword(NativeType::U16)));
            }
            assert(natives.u32.0 < symbols@.len()) by {
                assert(sym_is(symbols@, natives.spec_type_id(NativeType::U32), native_keyword(NativeType::U32)));
            }
            assert(natives.u64.0 < symbols@.len()) by {
                assert(sym_is(symbols@, natives.spec_type_id(NativeType::U64), native_keyword(NativeType::U64)));
            }
            assert(natives.vi32.0 < symbols@.len()) by {
                assert(sym_is(symbols@, natives.spec_type_id(NativeType::VI32), native_keyword(NativeType::VI32)));
            }
            assert(natives.vi64.0 < symbols@.len()) by {
                assert(sym_is(symbols@, natives.spec_type_id(NativeType::VI64), native_keyword(NativeType::VI64)));
            }
            assert(natives.vu32.0 < symbols@.len()) by {
                assert(sym_is(symbols@, natives.spec_type_id(NativeType::VU32), native_keyword(NativeType::VU32)));
            }
            assert(natives.vu64.0 < symbols@.len()) by {
                assert(sym_is(symbols@, natives.spec_type_id(NativeType::VU64), native_keyword(NativeType::VU64)));
            }
            assert(natives.i8.0 != natives.i16.0) by {
                assert(natives.spec_type_id(NativeType::I8) != natives.spec_type_id(NativeType::I16));
            }
            assert(natives.i8.0 != natives.i32.0) by {
                assert(natives.spec_type_id(NativeType::I8) != natives.spec_type_id(NativeType::I32));
            }
            assert(natives.i8.0 != natives.i64.0) by {
                assert(natives.spec_type_id(NativeType::I8) != natives.spec_type_id(NativeType::I64));
            }
            assert(natives.i8.0 != natives.u8.0) by {
                assert(natives.spec_type_id(NativeType::I8) != natives.spec_type_id(NativeType::U8));
            }
            assert(natives.i8.0 != natives.u16.0) by {
                assert(natives.spec_type_id(NativeType::I8) != natives.spec_type_id(NativeType::U16));
            }
            assert(natives.i8.0 != natives.u32.0) by {
                assert(natives.spec_type_id(NativeType::I8) != natives.spec_type_id(NativeType::U32));
            }
            assert(natives.i8.0 != natives.u64.0) by {
                assert(natives.spec_type_id(NativeType::I8) != natives.spec_type_id(NativeType::U64));
            }
            assert(natives.i8.0 != natives.vi32.0) by {
                assert(natives.spec_type_id(NativeType::I8) != natives.spec_type_id(NativeType::VI32));
            }
            assert(natives.i8.0 != natives.vi64.0) by {
                assert(natives.spec_type_id(NativeType::I8) != natives.spec_type_id(NativeType::VI64));
            }
            assert(natives.i8.0 != natives.vu32.0) by {
                assert(natives.spec_type_id(NativeType::I8) != natives.spec_type_id(NativeType::VU32));
            }
            assert(natives.i8.0 != natives.vu64.0) by {
                assert(natives.spec_type_id(NativeType::I8) != natives.spec_type_id(NativeType::VU64));
            }
            assert(natives.i16.0 != natives.i32.0) by {
                assert(natives.spec_type_id(NativeType::I16) != natives.spec_type_id(NativeType::I32));
            }
            assert(natives.i16.0 != natives.i64.0) by {
                assert(natives.spec_type_id(NativeType::I16) != natives.spec_type_id(NativeType::I64));
            }
            assert(natives.i16.0 != natives.u8.0) by {
                assert(natives.spec_type_id(NativeType::I16) != natives.spec_type_id(NativeType::U8));
            }
            assert(natives.i16.0 != natives.u16.0) by {
                assert(natives.spec_type_id(NativeType::I16) != natives.spec_type_id(NativeType::U16));
            }
            assert(natives.i16.0 != natives.u32.0) by {
                assert(natives.spec_type_id(NativeType::I16) != natives.spec_type_id(NativeType::U32));
            }
            assert(natives.i16.0 != natives.u64.0) by {
                assert(natives.spec_type_id(NativeType::I16) != natives.spec_type_id(NativeType::U64));
            }
            assert(natives.i16.0 != natives.vi32.0) by {
                assert(natives.spec_type_id(NativeType::I16) != natives.spec_type_id(NativeType::VI32));
            }
            assert(natives.i16.0 != natives.vi64.0) by {
                assert(natives.spec_type_id(NativeType::I16) != natives.spec_type_id(NativeType::VI64));
            }
            assert(natives.i16.0 != natives.vu32.0) by {
                assert(natives.spec_type_id(NativeType::I16) != natives.spec_type_id(NativeType::VU32));
            }
            assert(natives.i16.0 != natives.vu64.0) by {
                assert(natives.spec_type_id(NativeType::I16) != natives.spec_type_id(NativeType::VU64));
            }
            assert(natives.i32.0 != natives.i64.0) by {
                assert(natives.spec_type_id(NativeType::I32) != natives.spec_type_id(NativeType::I64));
            }
            assert(natives.i32.0 != natives.u8.0) by {
                assert(natives.spec_type_id(NativeType::I32) != natives.spec_type_id(NativeType::U8));
            }
            assert(natives.i32.0 != natives.u16.0) by {
                assert(natives.spec_type_id(NativeType::I32) != natives.spec_type_id(NativeType::U16));
            }
            assert(natives.i32.0 != natives.u32.0) by {
                assert(natives.spec_type_id(NativeType::I32) != natives.spec_type_id(NativeType::U32));
            }
            assert(natives.i32.0 != natives.u64.0) by {
                assert(natives.spec_type_id(NativeType::I32) != natives.spec_type_id(NativeType::U64));
            }
            assert(natives.i32.0 != natives.vi32.0) by {
                assert(natives.spec_type_id(NativeType::I32) != natives.spec_type_id(NativeType::VI32));
            }
            assert(natives.i32.0 != natives.vi64.0) by {
                assert(natives.spec_type_id(NativeType::I32) != natives.spec_type_id(NativeType::VI64));
            }
            assert(natives.i32.0 != natives.vu32.0) by {
                assert(natives.spec_type_id(NativeType::I32) != natives.spec_type_id(NativeType::VU32));
            }
            assert(natives.i32.0 != natives.vu64.0) by {
                assert(natives.spec_type_id(NativeType::I32) != natives.spec_type_id(NativeType::VU64));
            }
            assert(natives.i64.0 != natives.u8.0) by {
                assert(natives.spec_type_id(NativeType::I64) != natives.spec_type_id(NativeType::U8));
            }
            assert(natives.i64.0 != natives.u16.0) by {
                assert(natives.spec_type_id(NativeType::I64) != natives.spec_type_id(NativeType::U16));
            }
            assert(natives.i64.0 != natives.u32.0) by {
                assert(natives.spec_type_id(NativeType::I64) != natives.spec_type_id(NativeType::U32));
            }
            assert(natives.i64.0 != natives.u64.0) by {
                assert(natives.spec_type_id(NativeType::I64) != natives.spec_type_id(NativeType::U64));
            }
            assert(natives.i64.0 != natives.vi32.0) by {
                assert(natives.spec_type_id(NativeType::I64) != natives.spec_type_id(NativeType::VI32));
            }
            assert(natives.i64.0 != natives.vi64.0) by {
                assert(natives.spec_type_id(NativeType::I64) != natives.spec_type_id(NativeType::VI64));
            }
            assert(natives.i64.0 != natives.vu32.0) by {
                assert(natives.spec_type_id(NativeType::I64) != natives.spec_type_id(NativeType::VU32));
            }
            assert(natives.i64.0 != natives.vu64.0) by {
                assert(natives.spec_type_id(NativeType::I64) != natives.spec_type_id(NativeType::VU64));
            }
            assert(natives.u8.0 != natives.u16.0) by {
                assert(natives.spec_type_id(NativeType::U8) != natives.spec_type_id(NativeType::U16));
            }
            assert(natives.u8.0 != natives.u32.0) by {
                assert(natives.spec_type_id(NativeType::U8) != natives.spec_type_id(NativeType::U32));
            }
            assert(natives.u8.0 != natives.u64.0) by {
                assert(natives.spec_type_id(NativeType::U8) != natives.spec_type_id(NativeType::U64));
            }
            assert(natives.u8.0 != natives.vi32.0) by {
                assert(natives.spec_type_id(NativeType::U8) != natives.spec_type_id(NativeType::VI32));
            }
            assert(natives.u8.0 != natives.vi64.0) by {
                assert(natives.spec_type_id(NativeType::U8) != natives.spec_type_id(NativeType::VI64));
            }
            assert(natives.u8.0 != natives.vu32.0) by {
                assert(natives.spec_type_id(NativeType::U8) != natives.spec_type_id(NativeType::VU32));
            }
            assert(natives.u8.0 != natives.vu64.0) by {
                assert(natives.spec_type_id(NativeType::U8) != natives.spec_type_id(NativeType::VU64));
            }
            assert(natives.u16.0 != natives.u32.0) by {
                assert(natives.spec_type_id(NativeType::U16) != natives.spec_type_id(NativeType::U32));
            }
            assert(natives.u16.0 != natives.u64.0) by {
                assert(natives.spec_type_id(NativeType::U16) != natives.spec_type_id(NativeType::U64));
            }
            assert(natives.u16.0 != natives.vi32.0) by {
                assert(natives.spec_type_id(NativeType::U16) != natives.spec_type_id(NativeType::VI32));
            }
            assert(natives.u16.0 != natives.vi64.0) by {
                assert(natives.spec_type_id(NativeType::U16) != natives.spec_type_id(NativeType::VI64));
            }
            assert(natives.u16.0 != natives.vu32.0) by {
                assert(natives.spec_type_id(NativeType::U16) != natives.spec_type_id(NativeType::VU32));
            }
            assert(natives.u16.0 != natives.vu64.0) by {
                assert(natives.spec_type_id(NativeType::U16) != natives.spec_type_id(NativeType::VU64));
            }
            assert(natives.u32.0 != natives.u64.0) by {
                assert(natives.spec_type_id(NativeType::U32) != natives.spec_type_id(NativeType::U64));
            }
            assert(natives.u32.0 != natives.vi32.0) by {
                assert(natives.spec_type_id(NativeType::U32) != natives.spec_type_id(NativeType::VI32));
            }
            assert(natives.u32.0 != natives.vi64.0) by {
                assert(natives.spec_type_id(NativeType::U32) != natives.spec_type_id(NativeType::VI64));
            }
            assert(natives.u32.0 != natives.vu32.0) by {
                assert(natives.spec_type_id(NativeType::U32) != natives.spec_type_id(NativeType::VU32));
            }
            assert(natives.u32.0 != natives.vu64.0) by {
                assert(natives.spec_type_id(NativeType::U32) != natives.spec_type_id(NativeType::VU64));
            }
            assert(natives.u64.0 != natives.vi32.0) by {
                assert(natives.spec_type_id(NativeType::U64) != natives.spec_type_id(NativeType::VI32));
            }
            assert(natives.u64.0 != natives.vi64.0) by {
                assert(natives.spec_type_id(NativeType::U64) != natives.spec_type_id(NativeType::VI64));
            }
            assert(natives.u64.0 != natives.vu32.0) by {
                assert(natives.spec_type_id(NativeType::U64) != natives.spec_type_id(NativeType::VU32));
            }
            assert(natives.u64.0 != natives.vu64.0) by {
                assert(natives.spec_type_id(NativeType::U64) != natives.spec_type_id(NativeType::VU64));
            }
            assert(natives.vi32.0 != natives.vi64.0) by {
                assert(natives.spec_type_id(NativeType::VI32) != natives.spec_type_id(NativeType::VI64));
            }
            assert(natives.vi32.0 != natives.vu32.0) by {
                assert(natives.spec_type_id(NativeType::VI32) != natives.spec_type_id(NativeType::VU32));
            }
            assert(natives.vi32.0 != natives.vu64.0) by {
                assert(natives.spec_type_id(NativeType::VI32) != natives.spec_type_id(NativeType::VU64));
            }
            assert(natives.vi64.0 != natives.vu32.0) by {
                assert(natives.spec_type_id(NativeType::VI64) != natives.spec_type_id(NativeType::VU32));
            }
            assert(natives.vi64.0 != natives.vu64.0) by {
                assert(natives.spec_type_id(NativeType::VI64) != natives.spec_type_id(NativeType::VU64));
            }
            assert(natives.vu32.0 != natives.vu64.0) by {
                assert(natives.spec_type_id(NativeType::VU32) != natives.spec_type_id(NativeType::VU64));
            }
        }
        let mut types = TypeMap::new();
        types.insert(natives.i8, Type::Native(NativeType::I8));
        proof {
            assert(types.at(natives.i8.0 as int) == Type::Native(NativeType::I8));
            assert(forall|i: int| #[trigger] types.has(i) ==> types.at(i) is Native);
            assert(types.entries@.len() <= symbols@.len());
        }
        types.insert(natives.i16, Type::Native(NativeType::I16));
        proof {
            assert(types.at(natives.i8.0 as int) == Type::Native(NativeType::I8) && types.at(natives.i16.0 as int) == Type::Native(NativeType::I16));
            assert(forall|i: int| #[trigger] types.has(i) ==> types.at(i) is Native);
            assert(types.entries@.len() <= symbols@.len());
        }
        types.insert(natives.i32, Type::Native(NativeType::I32));
        proof {
            assert(types.at(natives.i8.0 as int) == Type::Native(NativeType::I8) && types.at(natives.i16.0 as int) == Type::Native(NativeType::I16) && types.at(natives.i32.0 as int) == Type::Native(NativeType::I32));
            assert(forall|i: int| #[trigger] types.has(i) ==> types.at(i) is Native);
            assert(types.entries@.len() <= symbols@.len());
        }
        types.insert(natives.i64, Type::Native(NativeType::I64));
        proof {
            assert(types.at(natives.i8.0 as int) == Type::Native(NativeType::I8) && types.at(natives.i16.0 as int) == Type::Native(NativeType::I16) && types.at(natives.i32.0 as int) == Type::Native(NativeType::I32) && types.at(natives.i64.0 as int) == Type::Native(NativeType::I64));
            assert(forall|i: int| #[trigger] types.has(i) ==> types.at(i) is Native);
            assert(types.entries@.len() <= symbols@.len());
        }
        types.insert(natives.u8, Type::Native(NativeType::U8));
        proof {
            assert(types.at(natives.i8.0 as int) == Type::Native(NativeType::I8) && types.at(natives.i16.0 as int) == Type::Native(NativeType::I16) && types.at(natives.i32.0 as int) == Type::Native(NativeType::I32) && types.at(natives.i64.0 as int) == Type::Native(NativeType::I64) && types.at(natives.u8.0 as int) == Type::Native(NativeType::U8));
            assert(forall|i: int| #[trigger] types.has(i) ==> types.at(i) is Native);
            assert(types.entries@.len() <= symbols@.len());
        }
        types.insert(natives.u16, Type::Native(NativeType::U16));
        proof {
            assert(types.at(natives.i8.0 as int) == Type::Native(NativeType::I8) && types.at(natives.i16.0 as int) == Type::Native(NativeType::I16) && types.at(natives.i32.0 as int) == Type::Native(NativeType::I32) && types.at(natives.i64.0 as int) == Type::Native(NativeType::I64) && types.at(natives.u8.0 as int) == Type::Native(NativeType::U8) && types.at(natives.u16.0 as int) == Type::Native(NativeType::U16));
            assert(forall|i: int| #[trigger] types.has(i) ==> types.at(i) is Native);
            assert(types.entries@.len() <= symbols@.len());
        }
        types.insert(natives.u32, Type::Native(NativeType::U32));
        proof {
            assert(types.at(natives.i8.0 as int) == Type::Native(NativeType::I8) && types.at(natives.i16.0 as int) == Type::Native(NativeType::I16) && types.at(natives.i32.0 as int) == Type::Native(NativeType::I32) && types.at(natives.i64.0 as int) == Type::Native(NativeType::I64) && types.at(natives.u8.0 as int) == Type::Native(NativeType::U8) && types.at(natives.u16.0 as int) == Type::Native(NativeType::U16) && types.at(natives.u32.0 as int) == Type::Native(NativeType::U32));
            assert(forall|i: int| #[trigger] types.has(i) ==> types.at(i) is Native);
            assert(types.entries@.len() <= symbols@.len());
        }
        types.insert(natives.u64, Type::Native(NativeType::U64));
        proof {
            assert(types.at(natives.i8.0 as int) == Type::Native(NativeType::I8) && types.at(natives.i16.0 as int) == Type::Native(NativeType::I16) && types.at(natives.i32.0 as int) == Type::Native(NativeType::I32) && types.at(natives.i64.0 as int) == Type::Native(NativeType::I64) && types.at(natives.u8.0 as int) == Type::Native(NativeType::U8) && types.at(natives.u16.0 as int) == Type::Native(NativeType::U16) && types.at(natives.u32.0 as int) == Type::Native(NativeType::U32) && types.at(natives.u64.0 as int) == Type::Native(NativeType::U64));
            assert(forall|i: int| #[trigger] types.has(i) ==> types.at(i) is Native);
            assert(types.entries@.len() <= symbols@.len());
        }
        types.insert(natives.vi32, Type::Native(NativeType::VI32));
        proof {
            assert(types.at(natives.i8.0 as int) == Type::Native(NativeType::I8) && types.at(natives.i16.0 as int) == Type::Native(NativeType::I16) && types.at(natives.i32.0 as int) == Type::Native(NativeType::I32) && types.at(natives.i64.0 as int) == Type::Native(NativeType::I64) && types.at(natives.u8.0 as int) == Type::Native(NativeType::U8) && types.at(natives.u16.0 as int) == Type::Native(NativeType::U16) && types.at(natives.u32.0 as int) == Type::Native(NativeType::U32) && types.at(natives.u64.0 as int) == Type::Native(NativeType::U64) && types.at(natives.vi32.0 as int) == Type::Native(NativeType::VI32));
            assert(forall|i: int| #[trigger] types.has(i) ==> types.at(i) is Native);
            assert(types.entries@.len() <= symbols@.len());
        }
        types.insert(natives.vi64, Type::Native(NativeType::VI64));
        proof {
            assert(types.at(natives.i8.0 as int) == Type::Native(NativeType::I8) && types.at(natives.i16.0 as int) == Type::Native(NativeType::I16) && types.at(natives.i32.0 as int) == Type::Native(NativeType::I32) && types.at(natives.i64.0 as int) == Type::Native(NativeType::I64) && types.at(natives.u8.0 as int) == Type::Native(NativeType::U8) && types.at(natives.u16.0 as int) == Type::Native(NativeType::U16) && types.at(natives.u32.0 as int) == Type::Native(NativeType::U32) && types.at(natives.u64.0 as int) == Type::Native(NativeType::U64) && types.at(natives.vi32.0 as int) == Type::Native(NativeType::VI32) && types.at(natives.vi64.0 as int) == Type::Native(NativeType::VI64));
            assert(forall|i: int| #[trigger] types.has(i) ==> types.at(i) is Native);
            assert(types.entries@.len() <= symbols@.len());
        }
        types.insert(natives.vu32, Type::Native(NativeType::VU32));
        proof {
            assert(types.at(natives.i8.0 as int) == Type::Native(NativeType::I8) && types.at(natives.i16.0 as int) == Type::Native(NativeType::I16) && types.at(natives.i32.0 as int) == Type::Native(NativeType::I32) && types.at(natives.i64.0 as int) == Type::Native(NativeType::I64) && types.at(natives.u8.0 as int) == Type::Native(NativeType::U8) && types.at(natives.u16.0 as int) == Type::Native(NativeType::U16) && types.at(natives.u32.0 as int) == Type::Native(NativeType::U32) && types.at(natives.u64.0 as int) == Type::Native(NativeType::U64) && types.at(natives.vi32.0 as int) == Type::Native(NativeType::VI32) && types.at(natives.vi64.0 as int) == Type::Native(NativeType::VI64) && types.at(natives.vu32.0 as int) == Type::Native(NativeType::VU32));
            assert(forall|i: int| #[trigger] types.has(i) ==> types.at(i) is Native);
            assert(types.entries@.len() <= symbols@.len());
        }
        types.insert(natives.vu64, Type::Native(NativeType::VU64));
        proof {
            assert(types.at(natives.i8.0 as int) == Type::Native(NativeType::I8) && types.at(natives.i16.0 as int) == Type::Native(NativeType::I16) && types.at(natives.i32.0 as int) == Type::Native(NativeType::I32) && types.at(natives.i64.0 as int) == Type::Native(NativeType::I64) && types.at(natives.u8.0 as int) == Type::Native(NativeType::U8) && types.at(natives.u16.0 as int) == Type::Native(NativeType::U16) && types.at(natives.u32.0 as int) == Type::Native(NativeType::U32) && types.at(natives.u64.0 as int) == Type::Native(NativeType::U64) && types.at(natives.vi32.0 as int) == Type::Native(NativeType::VI32) && types.at(natives.vi64.0 as int) == Type::Native(NativeType::VI64) && types.at(natives.vu32.0 as int) == Type::Native(NativeType::VU32) && types.at(natives.vu64.0 as int) == Type::Native(NativeType::VU64));
            assert(forall|i: int| #[trigger] types.has(i) ==> types.at(i) is Native);
            assert(types.entries@.len() <= symbols@.len());
        }
        proof {
            assert forall|k: NativeType| tm_has_native(types, natives, k) by {
                match k {
                    NativeType::U8 => assert(types.has(natives.u8.0 as int)),
                    NativeType::U16 => assert(types.has(natives.u16.0 as int)),
                    NativeType::U32 => assert(types.has(natives.u32.0 as int)),
                    NativeType::U64 => assert(types.has(natives.u64.0 as int)),
                    NativeType::I8 => assert(types.has(natives.i8.0 as int)),
                    NativeType::I16 => assert(types.has(natives.i16.0 as int)),
                    NativeType::I32 => assert(types.has(natives.i32.0 as int)),
                    NativeType::I64 => assert(types.has(natives.i64.0 as int)),
                    NativeType::VU32 => assert(types.has(natives.vu32.0 as int)),
                    NativeType::VU64 => assert(types.has(natives.vu64.0 as int)),
                    NativeType::VI32 => assert(types.has(natives.vi32.0 as int)),
                    NativeType::VI64 => assert(types.has(natives.vi64.0 as int)),
                }
            }
            assert(natives_has(types, natives));
            assert forall|k: NativeType| native_entry_ok(symbols@, types, k) by {
                assert(sym_is(symbols@, natives.spec_type_id(k), native_keyword(k)));
                match k {
                    NativeType::U8 => assert(types.at(natives.u8.0 as int) == Type::Native(NativeType::U8)),
                    NativeType::U16 => assert(types.at(natives.u16.0 as int) == Type::Native(NativeType::U16)),
                    NativeType::U32 => assert(types.at(natives.u32.0 as int) == Type::Native(NativeType::U32)),
                    NativeType::U64 => assert(types.at(natives.u64.0 as int) == Type::Native(NativeType::U64)),
                    NativeType::I8 => assert(types.at(natives.i8.0 as int) == Type::Native(NativeType::I8)),
                    NativeType::I16 => assert(types.at(natives.i16.0 as int) == Type::Native(NativeType::I16)),
                    NativeType::I32 => assert(types.at(natives.i32.0 as int) == Type::Native(NativeType::I32)),
                    NativeType::I64 => assert(types.at(natives.i64.0 as int) == Type::Native(NativeType::I64)),
                    NativeType::VU32 => assert(types.at(natives.vu32.0 as int) == Type::Native(NativeType::VU32)),
                    NativeType::VU64 => assert(types.at(natives.vu64.0 as int) == Type::Native(NativeType::VU64)),
                    NativeType::VI32 => assert(types.at(natives.vi32.0 as int) == Type::Native(NativeType::VI32)),
                    NativeType::VI64 => assert(types.at(natives.vi64.0 as int) == Type::Native(NativeType::VI64)),
                }
            }
            assert forall|n: Seq<char>| !(#[trigger] declared_now(symbols@, types, n)) by {
                if declared_now(symbols@, types, n) {
                    let i = choose|i: int|
                        0 <= i < symbols@.len() && symbols@[i] == n && #[trigger] types.has(i) && (
                        types.at(i) is Message || types.at(i) is Bitfield);
                    assert(types.at(i) is Native);
                }
            }
            assert forall|i: int|
                #[trigger] types.has(i) && types.at(i) is Native implies is_native_kw(
                symbols@[i]) by {
                assert(types.at(i) is Native);
                let k = types.at(i)->Native_0;
                assert(types.at(natives.spec_type_id(k).0 as int) == Type::Native(k)
                    || !tm_has_native(types, natives, k));
            }
        }
    (symbols, root, natives, types)
}

/// The registry maps this keyword's symbol.
pub open spec fn tm_has_native(tm: TypeMap, nts: NativeTypeSymbols, k: NativeType) -> bool {
    tm.has(nts.spec_type_id(k).0 as int)
}

/// The context invariant carried through both passes: distinct interned
/// texts, the native table consistent and registered, every registry entry
/// well-formed, and synthesized arrays described by their names.
pub open spec fn ctx_inv(m: Seq<Seq<char>>, tm: TypeMap, natives: NativeTypeSymbols) -> bool {
    &&& distinct_texts(m)
    &&& natives.consistent_with(m)
    &&& natives_has(tm, natives)
    &&& tm.entries@.len() <= m.len()
    &&& types_wf(tm, m.len() as int)
    &&& arrays_consistent(m, tm)
    &&& (forall|i: int| #[trigger] tm.has(i) && tm.at(i) is Native ==> is_native_kw(m[i]))
}

/// Declares one top-level definition: interns its name and creates its
/// registry entry, a skeleton for a message, the completed flag list for a
/// bitfield.
#[verifier::rlimit(100)]
fn declare_def(
    file: &File,
    di: usize,
    symbols: &mut Symbols,
    types: &mut TypeMap,
    natives: &NativeTypeSymbols,
)
    requires
        di < file.defs@.len(),
        ctx_inv(symbols_seq(*old(symbols)), *old(types), *natives),
        symbols_seq(*old(symbols)).len() + decl_items(file.defs@[di as int]) < 0xFFFF_FFFEusize,
        file_clean(*file) ==> !declared_now(
            symbols_seq(*old(symbols)),
            *old(types),
            def_name(file.defs@[di as int]),
        ),
        file_clean(*file) ==> !is_native_kw(def_name(file.defs@[di as int])),
        file_clean(*file) ==> !def_name(file.defs@[di as int]).contains('['),
    ensures
        ctx_inv(final(symbols)@, *final(types), *natives),
        final(symbols)@.len() >= old(symbols)@.len(),
        final(symbols)@.len() <= old(symbols)@.len() + decl_items(file.defs@[di as int]),
        forall|i: int| 0 <= i < old(symbols)@.len() ==> final(symbols)@[i] == old(symbols)@[i],
        contains_text(final(symbols)@, def_name(file.defs@[di as int])),
        file_clean(*file) ==> forall|n: Seq<char>|
            (#[trigger] declared_now(final(symbols)@, *final(types), n)) == (declared_now(
                old(symbols)@,
                *old(types),
                n,
            ) || n == def_name(file.defs@[di as int])),
        file_clean(*file) ==> def_declared(final(symbols)@, *final(types), file.defs@[di as int]),
        file_clean(*file) ==> forall|d: TopLevel|
            #![trigger def_declared(final(symbols)@, *final(types), d)]
            #![trigger def_matches(final(symbols)@, *final(types), d)]
            (def_declared(old(symbols)@, *old(types), d) ==> def_declared(
                final(symbols)@,
                *final(types),
                d,
            )) && (def_matches(old(symbols)@, *old(types), d) ==> def_matches(
                final(symbols)@,
                *final(types),
                d,
            )),
        file_clean(*file) ==> forall|k: NativeType|
            native_entry_ok(old(symbols)@, *old(types), k) ==> #[trigger] native_entry_ok(
                final(symbols)@,
                *final(types),
                k,
            ),
{
    broadcast use crate::symbols::lemma_insert_model_entries;

    let ghost m0 = symbols@;
    let ghost tm0 = *types;
    let ghost dname = def_name(file.defs@[di as int]);
    match &file.defs[di] {
        TopLevel::Message(message) => {
            let id = symbols.insert(message.name.as_str());
            proof {
                lemma_insert_preserves_distinct(m0, message.name@);
                lemma_arrays_consistent_grow(m0, symbols@, *types);
            }
            let ghost m1 = symbols@;
            proof {
                if file_clean(*file) {
                    lemma_target_unmapped(m0, m1, *types, *natives, id, dname);
                }
            }
            types.insert(id, Type::Message(MessageType { name: id, fields: Vec::new() }));
            proof {
                finish_declare(file, di, m0, m1, tm0, *types, *natives, id);
            }
        },
        TopLevel::Bitfield(bitfield) => {
            let id = symbols.insert(bitfield.name.as_str());
            proof {
                lemma_insert_preserves_distinct(m0, bitfield.name@);
                lemma_arrays_consistent_grow(m0, symbols@, *types);
            }
            let flags = build_flags(symbols, bitfield);
            proof {
                lemma_arrays_consistent_grow(m0, symbols@, *types);
            }
            let ghost m1 = symbols@;
            proof {
                assert(sym_is(m1, id, bitfield.name@));
                if file_clean(*file) {
                    lemma_target_unmapped(m0, m1, *types, *natives, id, dname);
                }
            }
            types.insert(id, Type::Bitfield(BitfieldType { name: id, flags }));
            proof {
                assert(bitfield_matches(m1, types.at(id.0 as int)->Bitfield_0, *bitfield));
                finish_declare(file, di, m0, m1, tm0, *types, *natives, id);
            }
        },
    }
}

/// Under a clean file, the symbol a fresh declaration interned cannot yet
/// be mapped by the registry.
proof fn lemma_target_unmapped(
    m0: Seq<Seq<char>>,
    m1: Seq<Seq<char>>,
    tm: TypeMap,
    natives: NativeTypeSymbols,
    id: SymbolId,
    dname: Seq<char>,
)
    requires
        ctx_inv(m0, tm, natives),
        m1.len() >= m0.len(),
        forall|i: int| 0 <= i < m0.len() ==> m1[i] == m0[i],
        sym_is(m1, id, dname),
        !declared_now(m0, tm, dname),
        !is_native_kw(dname),
        !dname.contains('['),
    ensures
        !tm.has(id.0 as int),
{
    if tm.has(id.0 as int) {
        assert(id.0 < m0.len());
        assert(m0[id.0 as int] == dname);
        match tm.at(id.0 as int) {
            Type::Message(_) => {
                assert(declared_now(m0, tm, dname));
            },
            Type::Bitfield(_) => {
                assert(declared_now(m0, tm, dname));
            },
            Type::Native(_) => {
                assert(is_native_kw(m0[id.0 as int]));
            },
            Type::Array(a) => {
                match a {
                    ArrayType::Default(e) => {
                        lemma_array_names_bracketed(m0[e.0 as int], Seq::<char>::empty());
                    },
                    ArrayType::Field { elem_type, field_name, field_type } => {
                        lemma_array_names_bracketed(
                            m0[elem_type.0 as int],
                            m0[field_name.0 as int],
                        );
                    },
                }
            },
        }
    }
}

/// Restores the context invariant and the declaration bookkeeping after one
/// definition's registry entry was written.
proof fn finish_declare(
    file: &File,
    di: usize,
    m0: Seq<Seq<char>>,
    m1: Seq<Seq<char>>,
    tm0: TypeMap,
    tm1: TypeMap,
    natives: NativeTypeSymbols,
    id: SymbolId,
)
    requires
        di < file.defs@.len(),
        ctx_inv(m0, tm0, natives),
        distinct_texts(m1),
        m1.len() >= m0.len(),
        forall|i: int| 0 <= i < m0.len() ==> m1[i] == m0[i],
        natives.consistent_with(m1),
        arrays_consistent(m1, tm0),
        sym_is(m1, id, def_name(file.defs@[di as int])),
        tm1.has(id.0 as int),
        tm1.at(id.0 as int) is Message || tm1.at(id.0 as int) is Bitfield,
        forall|j: int|
            j != id.0 as int ==> tm1.has(j) == tm0.has(j) && (tm0.has(j) ==> tm1.at(j) == tm0.at(
                j,
            )),
        tm1.entries@.len() <= m1.len(),
        file_clean(*file) ==> !tm0.has(id.0 as int),
        match file.defs@[di as int] {
            TopLevel::Message(msg) => tm1.at(id.0 as int) matches Type::Message(mt) && mt.name
                == id && mt.fields@.len() == 0,
            TopLevel::Bitfield(b) => tm1.at(id.0 as int) matches Type::Bitfield(bt) && bt.name
                == id && bitfield_matches(m1, bt, b),
        },
        match tm1.at(id.0 as int) {
            Type::Message(mt) => mt.name.0 < m1.len() && mt.fields@.len() == 0,
            Type::Bitfield(bt) => bt.name.0 < m1.len() && forall|j: int|
                0 <= j < bt.flags@.len() ==> (#[trigger] bt.flags@[j]).name.0 < m1.len(),
            _ => true,
        },
    ensures
        ctx_inv(m1, tm1, natives),
        contains_text(m1, def_name(file.defs@[di as int])),
        file_clean(*file) ==> forall|n: Seq<char>|
            (#[trigger] declared_now(m1, tm1, n)) == (declared_now(m0, tm0, n) || n == def_name(
                file.defs@[di as int],
            )),
        file_clean(*file) ==> def_declared(m1, tm1, file.defs@[di as int]),
        file_clean(*file) ==> forall|d: TopLevel|
            #![trigger def_declared(m1, tm1, d)]
            #![trigger def_matches(m1, tm1, d)]
            (def_declared(m0, tm0, d) ==> def_declared(m1, tm1, d)) && (def_matches(
                m0,
                tm0,
                d,
            ) ==> def_matches(m1, tm1, d)),
        file_clean(*file) ==> forall|k: NativeType|
            native_entry_ok(m0, tm0, k) ==> #[trigger] native_entry_ok(m1, tm1, k),
{
    let dname = def_name(file.defs@[di as int]);
    assert(contains_text(m1, dname)) by {
        assert(m1[id.0 as int] == dname);
    }
    assert(types_wf(tm1, m1.len() as int)) by {
        assert forall|i: int| #[trigger] tm1.has(i) implies type_entry_wf(
            tm1.at(i),
            m1.len() as int,
            tm1,
        ) by {
            if i == id.0 as int {
            } else {
                assert(tm0.has(i) && tm1.at(i) == tm0.at(i));
                assert(type_entry_wf(tm0.at(i), m0.len() as int, tm0));
                match tm0.at(i) {
                    Type::Message(mt) => {
                        assert forall|j: int| 0 <= j < mt.fields@.len() implies field_entry_wf(
                            #[trigger] mt.fields@[j],
                            m1.len() as int,
                            tm1,
                        ) by {
                            assert(field_entry_wf(mt.fields@[j], m0.len() as int, tm0));
                            let fj = mt.fields@[j];
                            if fj.ty.0 as int == id.0 as int {
                            } else {
                                assert(tm1.has(fj.ty.0 as int) == tm0.has(fj.ty.0 as int));
                            }
                        }
                    },
                    _ => {},
                }
            }
        }
    }
    assert(arrays_consistent(m1, tm1)) by {
        assert forall|i: int| #[trigger] tm1.has(i) implies match tm1.at(i) {
            Type::Array(ArrayType::Default(e)) => e.0 < m1.len() && 0 <= i < m1.len() && m1[i]
                == array_default_name(m1[e.0 as int]),
            Type::Array(ArrayType::Field { elem_type, field_name, field_type }) => elem_type.0
                < m1.len() && field_name.0 < m1.len() && field_type.0 < m1.len() && 0 <= i
                < m1.len() && m1[i] == array_field_name(
                m1[elem_type.0 as int],
                m1[field_name.0 as int],
            ),
            _ => true,
        } by {
            if i != id.0 as int {
                assert(tm0.has(i) && tm1.at(i) == tm0.at(i));
            }
        }
    }
    assert(natives_has(tm1, natives)) by {
        assert forall|k: NativeType| tm1.has((#[trigger] natives.spec_type_id(k)).0 as int) by {
            if natives.spec_type_id(k).0 as int != id.0 as int {
                assert(tm0.has(natives.spec_type_id(k).0 as int));
            }
        }
    }
    assert forall|i: int| #[trigger] tm1.has(i) && tm1.at(i) is Native implies is_native_kw(
        m1[i]) by {
        if i != id.0 as int {
            assert(tm0.has(i) && tm0.at(i) is Native);
            assert(i < m0.len());
        }
    }
    if file_clean(*file) {
        assert forall|n: Seq<char>|
            (#[trigger] declared_now(m1, tm1, n)) == (declared_now(m0, tm0, n) || n == dname) by {
            lemma_declared_now_insert(m1, tm0, tm1, id, n);
            lemma_declared_now_grow(m0, m1, tm0, n);
        }
        assert(def_declared(m1, tm1, file.defs@[di as int])) by {
            assert(sym_is(m1, id, dname));
        }
        assert forall|d: TopLevel|
            (def_declared(m0, tm0, d) ==> #[trigger] def_declared(m1, tm1, d)) && (def_matches(
                m0,
                tm0,
                d,
            ) ==> def_matches(m1, tm1, d)) by {
            if def_declared(m0, tm0, d) {
                lemma_def_fact_extend(m0, m1, tm0, tm1, d, false);
            }
            if def_matches(m0, tm0, d) {
                lemma_def_fact_extend(m0, m1, tm0, tm1, d, true);
            }
        }
        assert forall|k: NativeType|
            native_entry_ok(m0, tm0, k) ==> #[trigger] native_entry_ok(m1, tm1, k) by {
            if native_entry_ok(m0, tm0, k) {
                lemma_native_entry_extend(m0, m1, tm0, tm1, k);
            }
        }
    }
}

/// Resolves one message's fields. The associate sub-phase records, for each
/// field-associated array, which sibling supplies its count and that
/// sibling's resolved type; the resolve sub-phase then resolves every
/// field's type in declaration order and marks folded fields.
#[verifier::rlimit(100)]
fn resolve_message(
    file: &File,
    di: usize,
    symbols: &mut Symbols,
    types: &mut TypeMap,
    natives: &NativeTypeSymbols,
) -> (r: Result<(), CompileError>)
    requires
        di < file.defs@.len(),
        file.defs@[di as int] is Message,
        ctx_inv(symbols_seq(*old(symbols)), *old(types), *natives),
        symbols_seq(*old(symbols)).len() + 6 * decl_items(file.defs@[di as int]) + 2
            < 0xFFFF_FFFEusize,
        forall|d: int|
            0 <= d < file.defs@.len() ==> contains_text(
                symbols_seq(*old(symbols)),
                def_name(#[trigger] file.defs@[d]),
            ),
        file_clean(*file) ==> decl_equiv(symbols_seq(*old(symbols)), *old(types), *file),
        file_clean(*file) ==> def_declared(
            symbols_seq(*old(symbols)),
            *old(types),
            file.defs@[di as int],
        ),
    ensures
        ctx_inv(final(symbols)@, *final(types), *natives),
        final(symbols)@.len() >= old(symbols)@.len(),
        final(symbols)@.len() <= old(symbols)@.len() + 6 * decl_items(file.defs@[di as int]),
        forall|i: int| 0 <= i < old(symbols)@.len() ==> final(symbols)@[i] == old(symbols)@[i],
        file_clean(*file) ==> decl_equiv(final(symbols)@, *final(types), *file),
        file_clean(*file) ==> forall|d: TopLevel|
            #![trigger def_declared(final(symbols)@, *final(types), d)]
            #![trigger def_matches(final(symbols)@, *final(types), d)]
            def_name(d) != def_name(file.defs@[di as int]) ==> ((def_declared(
                old(symbols)@,
                *old(types),
                d,
            ) ==> def_declared(final(symbols)@, *final(types), d)) && (def_matches(
                old(symbols)@,
                *old(types),
                d,
            ) ==> def_matches(final(symbols)@, *final(types), d))),
        file_clean(*file) ==> forall|k: NativeType|
            native_entry_ok(old(symbols)@, *old(types), k) ==> #[trigger] native_entry_ok(
                final(symbols)@,
                *final(types),
                k,
            ),
        file_clean(*file) ==> (r is Ok ==> def_matches(
            final(symbols)@,
            *final(types),
            file.defs@[di as int],
        )),
        file_clean(*file) ==> ((r is Ok) == (phase_a_ok(
            *file,
            file.defs@[di as int]->Message_0,
        ) && phase_b_ok(*file, file.defs@[di as int]->Message_0))),
        r matches Err(e) ==> (e is UndefinedType || e is UnknownAssociatedField),
        file_clean(*file) ==> (r matches Err(e) ==> match e {
            CompileError::UndefinedType(n) => !declared_in(*file, n@) && mentions_custom(
                *file,
                n@,
            ),
            CompileError::UnknownAssociatedField(n) => mentions_assoc(*file, n@),
            _ => true,
        }),
{
    broadcast use crate::symbols::lemma_insert_model_entries;

    let ghost m_in = symbols@;
    let ghost tm_in = *types;
    let msg = match &file.defs[di] {
        TopLevel::Message(m) => m,
        TopLevel::Bitfield(_) => {
            proof {
                assert(false);
            }
            return Ok(());
        },
    };
    let ghost fields_v = msg.fields@;
    proof {
        assert(file.defs@[di as int] == TopLevel::Message(*msg));
        assert(decl_items(file.defs@[di as int]) == 1 + fields_v.len());
    }
    // associate: record which sibling feeds each field-associated array
    let mut assoc: Vec<AssocEntry> = Vec::new();
    let mut i: usize = 0;
    while i < msg.fields.len()
        invariant
            0 <= i <= fields_v.len(),
            fields_v == msg.fields@,
            di < file.defs@.len(),
            file.defs@[di as int] == TopLevel::Message(*msg),
            ctx_inv(symbols@, *types, *natives),
            m_in == symbols_seq(*old(symbols)),
            tm_in == *old(types),
            tm_in.entries@.len() <= m_in.len(),
            m_in.len() + 6 * (1 + fields_v.len() as int) + 2 < 0xFFFF_FFFEusize,
            m_in.len() <= symbols@.len() <= m_in.len() + 3 * i,
            forall|p: int| 0 <= p < m_in.len() ==> symbols@[p] == m_in[p],
            forall|j: int| #[trigger] tm_in.has(j) ==> types.has(j) && types.at(j) == tm_in.at(j),
            forall|j: int| #[trigger] types.has(j) && !tm_in.has(j) ==> types.at(j) is Array,
            assoc_ok(symbols@, assoc@, fields_v, i as int),
            file_clean(*file) ==> decl_equiv(symbols@, *types, *file),
            file_clean(*file) ==> forall|ii: int|
                0 <= ii < i ==> phase_a_cond(*file, fields_v, ii),
        decreases fields_v.len() - i,
    {
        let ghost m_a0 = symbols@;
        let ghost tm_a0 = *types;
        match &msg.fields[i].ty {
            TypeExpr::ArrayWithField(_ti, aname) => {
                let field_name = symbols.insert(msg.fields[i].name.as_str());
                proof {
                    lemma_insert_preserves_distinct(m_a0, fields_v[i as int].name@);
                    lemma_arrays_consistent_grow(m_a0, symbols@, *types);
                    lemma_assoc_ok_grow(m_a0, symbols@, assoc@, fields_v, i as int);
                    if file_clean(*file) {
                        assert forall|n: Seq<char>|
                            (#[trigger] declared_now(symbols@, *types, n)) == declared_in(
                            *file, n) by {
                            lemma_declared_now_grow(m_a0, symbols@, *types, n);
                        }
                    }
                }
                let sib = match find_field(msg, aname.as_str()) {
                    Some(j) => j,
                    None => {
                        proof {
                            if file_clean(*file) {
                                assert(!phase_a_cond(*file, fields_v, i as int));
                                assert(!phase_a_ok(*file, *msg));
                                assert(mentions_assoc(
                                    *file,
                                    fields_v[i as int].ty->ArrayWithField_1@,
                                )) by {
                                    assert(0 <= di < file.defs@.len());
                                    assert(file.defs@[di as int] matches TopLevel::Message(mm)
                                        && 0 <= i < mm.fields@.len() && (mm.fields@[i as int].ty
                                        matches TypeExpr::ArrayWithField(t2, a2)));
                                }
                            }
                            assert forall|d: TopLevel|
                                (def_declared(m_in, tm_in, d) ==> #[trigger] def_declared(
                                    symbols@,
                                    *types,
                                    d,
                                )) && (def_matches(m_in, tm_in, d) ==> def_matches(
                                    symbols@,
                                    *types,
                                    d,
                                )) by {
                                if def_declared(m_in, tm_in, d) {
                                    lemma_def_fact_extend(m_in, symbols@, tm_in, *types, d, false);
                                }
                                if def_matches(m_in, tm_in, d) {
                                    lemma_def_fact_extend(m_in, symbols@, tm_in, *types, d, true);
                                }
                            }
                            assert forall|k: NativeType|
                                native_entry_ok(m_in, tm_in, k) ==> #[trigger] native_entry_ok(
                                    symbols@,
                                    *types,
                                    k,
                                ) by {
                                if native_entry_ok(m_in, tm_in, k) {
                                    lemma_native_entry_extend(m_in, symbols@, tm_in, *types, k);
                                }
                            }
                        }
                        return Err(CompileError::UnknownAssociatedField(aname.clone()));
                    },
                };
                let ghost m_r0 = symbols@;
                let ghost tm_r0 = *types;
                let ghost assoc0 = assoc@;
                let sib_ty = match type_expr_to_type_id(
                    &msg.fields[sib].ty,
                    symbols,
                    natives,
                    types,
                    &assoc,
                ) {
                    Ok(v) => v,
                    Err(e) => {
                        proof {
                            if file_clean(*file) {
                                lemma_te_bridge(
                                    *file,
                                    m_r0,
                                    tm_r0,
                                    assoc0,
                                    fields_v,
                                    i as int,
                                    fields_v[sib as int].ty,
                                );
                                assert(!phase_a_cond(*file, fields_v, i as int)) by {
                                    if phase_a_cond(*file, fields_v, i as int) {
                                        let j2 = choose|j2: int|
                                            0 <= j2 < fields_v.len() && (#[trigger] fields_v[j2]).name@
                                                == fields_v[i as int].ty->ArrayWithField_1@ && (
                                            forall|k: int|
                                                0 <= k < j2 ==> fields_v[k].name@ != fields_v[i as int].ty->ArrayWithField_1@)
                                                && te_ok_file(
                                                *file,
                                                fields_v,
                                                i as int,
                                                fields_v[j2].ty,
                                            );
                                        assert(j2 == sib as int);
                                    }
                                }
                                assert(!phase_a_ok(*file, *msg));
                                lemma_err_payload(
                                    file,
                                    di,
                                    sib as int,
                                    m_r0,
                                    tm_r0,
                                    &e,
                                );
                            }
                            assert forall|d: TopLevel|
                                (def_declared(m_in, tm_in, d) ==> #[trigger] def_declared(
                                    symbols@,
                                    *types,
                                    d,
                                )) && (def_matches(m_in, tm_in, d) ==> def_matches(
                                    symbols@,
                                    *types,
                                    d,
                                )) by {
                                if def_declared(m_in, tm_in, d) {
                                    lemma_def_fact_extend(m_in, symbols@, tm_in, *types, d, false);
                                }
                                if def_matches(m_in, tm_in, d) {
                                    lemma_def_fact_extend(m_in, symbols@, tm_in, *types, d, true);
                                }
                            }
                            assert forall|k: NativeType|
                                native_entry_ok(m_in, tm_in, k) ==> #[trigger] native_entry_ok(
                                    symbols@,
                                    *types,
                                    k,
                                ) by {
                                if native_entry_ok(m_in, tm_in, k) {
                                    lemma_native_entry_extend(m_in, symbols@, tm_in, *types, k);
                                }
                            }
                        }
                        return Err(e);
                    },
                };
                proof {
                    lemma_assoc_ok_grow(m_r0, symbols@, assoc0, fields_v, i as int);
                    if file_clean(*file) {
                        assert forall|n: Seq<char>|
                            (#[trigger] declared_now(symbols@, *types, n)) == declared_in(
                            *file, n) by {
                            assert(declared_now(symbols@, *types, n) == declared_now(
                                m_r0,
                                tm_r0,
                                n,
                            ));
                        }
                    }
                }
                let ghost assoc_pre = assoc@;
                assoc.push(
                    AssocEntry { key: aname.clone(), array_field: field_name, ty: sib_ty },
                );
                proof {
                    let k0 = fields_v[i as int].ty->ArrayWithField_1@;
                    assert(assoc@.last().key@ == k0);
                    assert(assoc@.drop_last() =~= assoc_pre);
                    assert(sym_is(symbols@, field_name, fields_v[i as int].name@));
                    assert(sib_ty.0 < symbols@.len()) by {
                        match fields_v[sib as int].ty {
                            TypeExpr::Ident(TypeIdent::Native(k)) => {},
                            TypeExpr::Ident(TypeIdent::Custom(n)) => {},
                            TypeExpr::ArrayNoField(ti2) => {},
                            TypeExpr::ArrayWithField(ti2, f2) => {},
                        }
                    }
                    assert(assoc_ok(symbols@, assoc@, fields_v, i + 1 as int)) by {
                        assert forall|k: Seq<char>| match #[trigger] assoc_find(assoc@, k) {
                            Some(e) => (exists|j: int|
                                0 <= j < i + 1 && refs_name(#[trigger] fields_v[j], k) && sym_is(
                                    symbols@,
                                    e.array_field,
                                    fields_v[j].name@,
                                )) && e.key@ == k && e.ty.0 < symbols@.len(),
                            None => forall|j: int|
                                0 <= j < i + 1 ==> !refs_name(#[trigger] fields_v[j], k),
                        } by {
                            if k == k0 {
                                assert(assoc_find(assoc@, k) == Some(assoc@.last()));
                                assert(refs_name(fields_v[i as int], k));
                            } else {
                                assert(assoc_find(assoc@, k) == assoc_find(assoc_pre, k));
                            }
                        }
                    }
                    if file_clean(*file) {
                        lemma_te_bridge(
                            *file,
                            m_r0,
                            tm_r0,
                            assoc0,
                            fields_v,
                            i as int,
                            fields_v[sib as int].ty,
                        );
                        assert(phase_a_cond(*file, fields_v, i as int));
                    }
                }
            },
            _ => {
                proof {
                    assert(assoc_ok(symbols@, assoc@, fields_v, i + 1 as int)) by {
                        assert forall|k: Seq<char>| match #[trigger] assoc_find(assoc@, k) {
                            Some(e) => (exists|j: int|
                                0 <= j < i + 1 && refs_name(#[trigger] fields_v[j], k) && sym_is(
                                    symbols@,
                                    e.array_field,
                                    fields_v[j].name@,
                                )) && e.key@ == k && e.ty.0 < symbols@.len(),
                            None => forall|j: int|
                                0 <= j < i + 1 ==> !refs_name(#[trigger] fields_v[j], k),
                        } by {
                            assert(!refs_name(fields_v[i as int], k));
                        }
                    }
                    if file_clean(*file) {
                        assert(phase_a_cond(*file, fields_v, i as int));
                    }
                }
            },
        }
        i = i + 1;
    }
    let ghost m_b0 = symbols@;
    let ghost tm_b0 = *types;
    // resolve: walk the fields again, resolving each type and folding
    let mut fields: Vec<Field> = Vec::new();
    let mut fi: usize = 0;
    while fi < msg.fields.len()
        invariant
            0 <= fi <= fields_v.len(),
            fields_v == msg.fields@,
            di < file.defs@.len(),
            file.defs@[di as int] == TopLevel::Message(*msg),
            ctx_inv(symbols@, *types, *natives),
            m_in == symbols_seq(*old(symbols)),
            tm_in == *old(types),
            tm_in.entries@.len() <= m_in.len(),
            m_in.len() + 6 * (1 + fields_v.len() as int) + 2 < 0xFFFF_FFFEusize,
            m_b0.len() <= m_in.len() + 3 * fields_v.len() as int,
            m_in.len() <= m_b0.len() <= symbols@.len(),
            symbols@.len() <= m_b0.len() + 3 * fi,
            forall|p: int| 0 <= p < m_in.len() ==> symbols@[p] == m_in[p],
            forall|p: int| 0 <= p < m_b0.len() ==> symbols@[p] == m_b0[p],
            forall|j: int| #[trigger] tm_in.has(j) ==> types.has(j) && types.at(j) == tm_in.at(j),
            forall|j: int| #[trigger] types.has(j) && !tm_in.has(j) ==> types.at(j) is Array,
            assoc_ok(symbols@, assoc@, fields_v, fields_v.len() as int),
            fields@.len() == fi,
            forall|jj: int|
                0 <= jj < fi ==> field_ok_uncond(symbols@, *types, #[trigger] fields@[jj]),
            file_clean(*file) ==> forall|jj: int|
                0 <= jj < fi ==> field_matches(symbols@, *types, #[trigger] fields@[jj], *msg, jj),
            file_clean(*file) ==> forall|ii: int|
                0 <= ii < fi ==> te_ok_file(
                    *file,
                    fields_v,
                    fields_v.len() as int,
                    (#[trigger] fields_v[ii]).ty,
                ),
            file_clean(*file) ==> decl_equiv(symbols@, *types, *file),
            file_clean(*file) ==> forall|ii: int|
                0 <= ii < fields_v.len() ==> phase_a_cond(*file, fields_v, ii),
        decreases fields_v.len() - fi,
    {
        let ghost m_f0 = symbols@;
        let ghost tm_f0 = *types;
        let field_name = symbols.insert(msg.fields[fi].name.as_str());
        proof {
            lemma_insert_preserves_distinct(m_f0, fields_v[fi as int].name@);
            lemma_arrays_consistent_grow(m_f0, symbols@, *types);
            lemma_assoc_ok_grow(m_f0, symbols@, assoc@, fields_v, fields_v.len() as int);
            if file_clean(*file) {
                assert forall|n: Seq<char>|
                    (#[trigger] declared_now(symbols@, *types, n)) == declared_in(*file, n) by {
                    lemma_declared_now_grow(m_f0, symbols@, *types, n);
                }
                assert forall|jj: int| 0 <= jj < fi implies field_matches(
                    symbols@,
                    *types,
                    #[trigger] fields@[jj],
                    *msg,
                    jj,
                ) by {
                    lemma_field_matches_extend(
                        m_f0,
                        symbols@,
                        *types,
                        *types,
                        fields@[jj],
                        *msg,
                        jj,
                    );
                }
            }
        }
        let ghost m_f1 = symbols@;
        let ghost tm_f1 = *types;
        let field_type = match type_expr_to_type_id(
            &msg.fields[fi].ty,
            symbols,
            natives,
            types,
            &assoc,
        ) {
            Ok(v) => v,
            Err(e) => {
                proof {
                    if file_clean(*file) {
                        lemma_te_bridge(
                            *file,
                            m_f1,
                            tm_f1,
                            assoc@,
                            fields_v,
                            fields_v.len() as int,
                            fields_v[fi as int].ty,
                        );
                        assert(!te_ok_file(
                            *file,
                            fields_v,
                            fields_v.len() as int,
                            fields_v[fi as int].ty,
                        ));
                        assert(!phase_b_ok(*file, *msg));
                        lemma_err_payload(file, di, fi as int, m_f1, tm_f1, &e);
                    }
                    assert forall|d: TopLevel|
                                (def_declared(m_in, tm_in, d) ==> #[trigger] def_declared(
                                    symbols@,
                                    *types,
                                    d,
                                )) && (def_matches(m_in, tm_in, d) ==> def_matches(
                                    symbols@,
                                    *types,
                                    d,
                                )) by {
                                if def_declared(m_in, tm_in, d) {
                                    lemma_def_fact_extend(m_in, symbols@, tm_in, *types, d, false);
                                }
                                if def_matches(m_in, tm_in, d) {
                                    lemma_def_fact_extend(m_in, symbols@, tm_in, *types, d, true);
                                }
                            }
                            assert forall|k: NativeType|
                                native_entry_ok(m_in, tm_in, k) ==> #[trigger] native_entry_ok(
                                    symbols@,
                                    *types,
                                    k,
                                ) by {
                                if native_entry_ok(m_in, tm_in, k) {
                                    lemma_native_entry_extend(m_in, symbols@, tm_in, *types, k);
                                }
                            }
                }
                return Err(e);
            },
        };
        proof {
            lemma_assoc_ok_grow(m_f1, symbols@, assoc@, fields_v, fields_v.len() as int);
            if file_clean(*file) {
                assert forall|n: Seq<char>|
                    (#[trigger] declared_now(symbols@, *types, n)) == declared_in(*file, n) by {
                    assert(declared_now(symbols@, *types, n) == declared_now(m_f1, tm_f1, n));
                }
                assert forall|jj: int| 0 <= jj < fi implies field_matches(
                    symbols@,
                    *types,
                    #[trigger] fields@[jj],
                    *msg,
                    jj,
                ) by {
                    lemma_field_matches_extend(
                        m_f1,
                        symbols@,
                        tm_f1,
                        *types,
                        fields@[jj],
                        *msg,
                        jj,
                    );
                }
                lemma_te_bridge(
                    *file,
                    m_f1,
                    tm_f1,
                    assoc@,
                    fields_v,
                    fields_v.len() as int,
                    fields_v[fi as int].ty,
                );
            }
            assert forall|jj: int| 0 <= jj < fi implies field_ok_uncond(
                symbols@,
                *types,
                #[trigger] fields@[jj],
            ) by {
                assert(field_ok_uncond(m_f1, tm_f1, fields@[jj]));
            }
        }
        let associated = match assoc_lookup(&assoc, msg.fields[fi].name.as_str()) {
            Some(p) => Some(p.0),
            None => None,
        };
        fields.push(Field { name: field_name, ty: field_type, associated });
        proof {
            assert(sym_is(symbols@, field_name, fields_v[fi as int].name@));
            assert(resolved_ty_rel(symbols@, *types, fields_v[fi as int].ty, field_type));
            assert(field_ok_uncond(symbols@, *types, fields@[fi as int])) by {
                match fields_v[fi as int].ty {
                    TypeExpr::Ident(TypeIdent::Native(k)) => {
                        assert(sym_is(symbols@, field_type, native_keyword(k)));
                        assert(sym_is(
                            symbols@,
                            natives.spec_type_id(k),
                            native_keyword(k),
                        ));
                        assert(field_type == natives.spec_type_id(k));
                        assert(types.has(field_type.0 as int));
                    },
                    TypeExpr::Ident(TypeIdent::Custom(n)) => {},
                    TypeExpr::ArrayNoField(ti2) => {},
                    TypeExpr::ArrayWithField(ti2, f2) => {},
                }
                match fields@[fi as int].associated {
                    Some(a) => {
                        assert(assoc_find(assoc@, fields_v[fi as int].name@) is Some);
                    },
                    None => {},
                }
            }
            if file_clean(*file) {
                assert(field_matches(symbols@, *types, fields@[fi as int], *msg, fi as int)) by {
                    match assoc_find(assoc@, fields_v[fi as int].name@) {
                        Some(e) => {
                            assert(fields@[fi as int].associated == Some(e.array_field));
                        },
                        None => {
                            assert(fields@[fi as int].associated is None);
                        },
                    }
                }
            }
        }
        fi = fi + 1;
    }
    let ghost m_fin = symbols@;
    let msg_name_id = match symbols.find(msg.name.as_str()) {
        Some(x) => x,
        None => {
            proof {
                assert(contains_text(m_in, def_name(file.defs@[di as int])));
                lemma_contains_grow(m_in, symbols@, def_name(file.defs@[di as int]));
                assert(false);
            }
            return Err(CompileError::UndefinedType(msg.name.clone()));
        },
    };
    let prev_name: Option<SymbolId> = match types.get(msg_name_id) {
        Some(t) => match t {
            Type::Message(mt0) => Some(mt0.name),
            _ => None,
        },
        None => None,
    };
    match prev_name {
        Some(nm) => {
            let ghost tm_pre = *types;
            proof {
                if file_clean(*file) {
                    lemma_def_fact_extend(
                        m_in,
                        m_fin,
                        tm_in,
                        tm_pre,
                        file.defs@[di as int],
                        false,
                    );
                    let idw = choose|idw: SymbolId|
                        #![trigger sym_is(m_fin, idw, msg.name@)]
                        sym_is(m_fin, idw, msg.name@) && tm_pre.has(idw.0 as int) && (tm_pre.at(
                            idw.0 as int,
                        ) matches Type::Message(mt) && mt.name == idw);
                    assert(idw == msg_name_id);
                    assert(nm == msg_name_id);
                }
            }
            types.insert(msg_name_id, Type::Message(MessageType { name: nm, fields }));
            proof {
                finish_resolve(
                    file,
                    di,
                    m_in,
                    m_fin,
                    tm_in,
                    tm_pre,
                    *types,
                    *natives,
                    msg_name_id,
                );
                assert(symbols@ == m_fin);
                assert(file_clean(*file) ==> forall|d: TopLevel|
                    def_name(d) != def_name(file.defs@[di as int]) ==> ((def_declared(
                        m_in,
                        tm_in,
                        d,
                    ) ==> #[trigger] def_declared(symbols@, *types, d)) && (def_matches(
                        m_in,
                        tm_in,
                        d,
                    ) ==> def_matches(symbols@, *types, d))));
            }
            Ok(())
        },
        None => {
            proof {
                assert(file_clean(*file) ==> false) by {
                    if file_clean(*file) {
                        lemma_def_fact_extend(
                            m_in,
                            m_fin,
                            tm_in,
                            *types,
                            file.defs@[di as int],
                            false,
                        );
                        let idw = choose|idw: SymbolId|
                            #![trigger sym_is(m_fin, idw, msg.name@)]
                            sym_is(m_fin, idw, msg.name@) && types.has(idw.0 as int) && (types.at(
                                idw.0 as int,
                            ) matches Type::Message(mt) && mt.name == idw);
                        assert(idw == msg_name_id);
                    }
                }
                assert forall|d: TopLevel|
                                (def_declared(m_in, tm_in, d) ==> #[trigger] def_declared(
                                    symbols@,
                                    *types,
                                    d,
                                )) && (def_matches(m_in, tm_in, d) ==> def_matches(
                                    symbols@,
                                    *types,
                                    d,
                                )) by {
                                if def_declared(m_in, tm_in, d) {
                                    lemma_def_fact_extend(m_in, symbols@, tm_in, *types, d, false);
                                }
                                if def_matches(m_in, tm_in, d) {
                                    lemma_def_fact_extend(m_in, symbols@, tm_in, *types, d, true);
                                }
                            }
                            assert forall|k: NativeType|
                                native_entry_ok(m_in, tm_in, k) ==> #[trigger] native_entry_ok(
                                    symbols@,
                                    *types,
                                    k,
                                ) by {
                                if native_entry_ok(m_in, tm_in, k) {
                                    lemma_native_entry_extend(m_in, symbols@, tm_in, *types, k);
                                }
                            }
            }
            Ok(())
        },
    }
}


/// The payload of a resolution error names what failed: an undeclared
/// custom identifier some field's type mentions, or an association name
/// some array field references.
proof fn lemma_err_payload(
    file: &File,
    di: usize,
    fx: int,
    m0: Seq<Seq<char>>,
    tm0: TypeMap,
    e: &CompileError,
)
    requires
        file_clean(*file),
        di < file.defs@.len(),
        file.defs@[di as int] is Message,
        0 <= fx < file.defs@[di as int]->Message_0.fields@.len(),
        decl_equiv(m0, tm0, *file),
        e matches CompileError::UndefinedType(n) ==> !declared_now(m0, tm0, n@)
            && te_mentions_custom(file.defs@[di as int]->Message_0.fields@[fx].ty, n@),
        e matches CompileError::UnknownAssociatedField(n) ==> (
        file.defs@[di as int]->Message_0.fields@[fx].ty matches TypeExpr::ArrayWithField(ti, f)
            && f@ == n@),
    ensures
        e matches CompileError::UndefinedType(n) ==> !declared_in(*file, n@) && mentions_custom(
            *file,
            n@,
        ),
        e matches CompileError::UnknownAssociatedField(n) ==> mentions_assoc(*file, n@),
{
    let msg = file.defs@[di as int]->Message_0;
    match e {
        CompileError::UndefinedType(n) => {
            assert(!declared_in(*file, n@)) by {
                assert(declared_now(m0, tm0, n@) == declared_in(*file, n@));
            }
            assert(mentions_custom(*file, n@)) by {
                assert(0 <= di < file.defs@.len());
                assert(file.defs@[di as int] matches TopLevel::Message(mm) && 0 <= fx
                    < mm.fields@.len() && te_mentions_custom(mm.fields@[fx].ty, n@));
            }
        },
        CompileError::UnknownAssociatedField(n) => {
            assert(mentions_assoc(*file, n@)) by {
                assert(0 <= di < file.defs@.len());
                assert(file.defs@[di as int] matches TopLevel::Message(mm) && 0 <= fx
                    < mm.fields@.len() && (mm.fields@[fx].ty matches TypeExpr::ArrayWithField(
                    t2,
                    a2,
                ) && a2@ == n@));
            }
        },
        _ => {},
    }
}

/// Re-derives the caller-facing preservation facts at any exit from the
/// resolve pass on one message.
proof fn resolve_exit_facts(
    m_in: Seq<Seq<char>>,
    m1: Seq<Seq<char>>,
    tm_in: TypeMap,
    tm1: TypeMap,
    file: File,
)
    requires
        m1.len() >= m_in.len(),
        forall|p: int| 0 <= p < m_in.len() ==> m1[p] == m_in[p],
        forall|j: int| #[trigger] tm_in.has(j) ==> tm1.has(j) && tm1.at(j) == tm_in.at(j),
        tm_in.entries@.len() <= m_in.len(),
    ensures
        forall|d: TopLevel|
            (def_declared(m_in, tm_in, d) ==> #[trigger] def_declared(m1, tm1, d)) && (
            def_matches(m_in, tm_in, d) ==> def_matches(m1, tm1, d)),
        forall|k: NativeType|
            native_entry_ok(m_in, tm_in, k) ==> #[trigger] native_entry_ok(m1, tm1, k),
{
    assert forall|d: TopLevel|
        (def_declared(m_in, tm_in, d) ==> #[trigger] def_declared(m1, tm1, d)) && (def_matches(
            m_in,
            tm_in,
            d,
        ) ==> def_matches(m1, tm1, d)) by {
        if def_declared(m_in, tm_in, d) {
            lemma_def_fact_extend(m_in, m1, tm_in, tm1, d, false);
        }
        if def_matches(m_in, tm_in, d) {
            lemma_def_fact_extend(m_in, m1, tm_in, tm1, d, true);
        }
    }
    assert forall|k: NativeType|
        native_entry_ok(m_in, tm_in, k) ==> #[trigger] native_entry_ok(m1, tm1, k) by {
        if native_entry_ok(m_in, tm_in, k) {
            lemma_native_entry_extend(m_in, m1, tm_in, tm1, k);
        }
    }
}

/// Re-derives everything the caller needs after the completed field list
/// was written back into the message's registry entry.
#[verifier::rlimit(100)]
proof fn finish_resolve(
    file: &File,
    di: usize,
    m_in: Seq<Seq<char>>,
    m_fin: Seq<Seq<char>>,
    tm_in: TypeMap,
    tm_pre: TypeMap,
    tm1: TypeMap,
    natives: NativeTypeSymbols,
    w: SymbolId,
)
    requires
        di < file.defs@.len(),
        file.defs@[di as int] is Message,
        distinct_texts(m_fin),
        m_fin.len() >= m_in.len(),
        forall|p: int| 0 <= p < m_in.len() ==> m_fin[p] == m_in[p],
        forall|j: int| #[trigger] tm_in.has(j) ==> tm_pre.has(j) && tm_pre.at(j) == tm_in.at(j),
        tm_in.entries@.len() <= m_in.len(),
        ctx_inv(m_fin, tm_pre, natives),
        sym_is(m_fin, w, file.defs@[di as int]->Message_0.name@),
        tm_pre.has(w.0 as int),
        tm_pre.at(w.0 as int) is Message,
        tm1.has(w.0 as int),
        tm1.at(w.0 as int) matches Type::Message(mt) && mt.name.0 < m_fin.len()
            && mt.fields@.len() == file.defs@[di as int]->Message_0.fields@.len(),
        file_clean(*file) ==> tm1.at(w.0 as int)->Message_0.name == w,
        forall|j: int|
            j != w.0 as int ==> tm1.has(j) == tm_pre.has(j) && (tm_pre.has(j) ==> tm1.at(j)
                == tm_pre.at(j)),
        tm1.entries@.len() <= m_fin.len(),
        forall|jj: int|
            0 <= jj < tm1.at(w.0 as int)->Message_0.fields@.len() ==> field_ok_uncond(
                m_fin,
                tm_pre,
                #[trigger] tm1.at(w.0 as int)->Message_0.fields@[jj],
            ),
        file_clean(*file) ==> forall|jj: int|
            0 <= jj < tm1.at(w.0 as int)->Message_0.fields@.len() ==> field_matches(
                m_fin,
                tm_pre,
                #[trigger] tm1.at(w.0 as int)->Message_0.fields@[jj],
                file.defs@[di as int]->Message_0,
                jj,
            ),
        file_clean(*file) ==> decl_equiv(m_fin, tm_pre, *file),
        file_clean(*file) ==> !is_native_kw(def_name(file.defs@[di as int])),
    ensures
        ctx_inv(m_fin, tm1, natives),
        file_clean(*file) ==> decl_equiv(m_fin, tm1, *file),
        file_clean(*file) ==> forall|d: TopLevel|
            #![trigger def_declared(m_fin, tm1, d)]
            #![trigger def_matches(m_fin, tm1, d)]
            def_name(d) != def_name(file.defs@[di as int]) ==> ((def_declared(m_in, tm_in, d)
                ==> def_declared(m_fin, tm1, d)) && (def_matches(m_in, tm_in, d)
                ==> def_matches(m_fin, tm1, d))),
        file_clean(*file) ==> forall|k: NativeType|
            native_entry_ok(m_in, tm_in, k) ==> #[trigger] native_entry_ok(m_fin, tm1, k),
        file_clean(*file) ==> def_matches(m_fin, tm1, file.defs@[di as int]),
{
    let msg = file.defs@[di as int]->Message_0;
    let mt = tm1.at(w.0 as int)->Message_0;
    assert(types_wf(tm1, m_fin.len() as int)) by {
        assert forall|i: int| #[trigger] tm1.has(i) implies type_entry_wf(
            tm1.at(i),
            m_fin.len() as int,
            tm1,
        ) by {
            if i == w.0 as int {
                assert forall|jj: int| 0 <= jj < mt.fields@.len() implies field_entry_wf(
                    #[trigger] mt.fields@[jj],
                    m_fin.len() as int,
                    tm1,
                ) by {
                    assert(field_ok_uncond(m_fin, tm_pre, mt.fields@[jj]));
                    let fj = mt.fields@[jj];
                    if fj.ty.0 as int != w.0 as int {
                        assert(tm1.has(fj.ty.0 as int) == tm_pre.has(fj.ty.0 as int));
                    }
                }
            } else {
                assert(tm_pre.has(i) && tm1.at(i) == tm_pre.at(i));
                assert(type_entry_wf(tm_pre.at(i), m_fin.len() as int, tm_pre));
                match tm_pre.at(i) {
                    Type::Message(mti) => {
                        assert forall|jj: int| 0 <= jj < mti.fields@.len() implies field_entry_wf(
                            #[trigger] mti.fields@[jj],
                            m_fin.len() as int,
                            tm1,
                        ) by {
                            assert(field_entry_wf(mti.fields@[jj], m_fin.len() as int, tm_pre));
                            let fj = mti.fields@[jj];
                            if fj.ty.0 as int != w.0 as int {
                                assert(tm1.has(fj.ty.0 as int) == tm_pre.has(fj.ty.0 as int));
                            }
                        }
                    },
                    _ => {},
                }
            }
        }
    }
    assert(arrays_consistent(m_fin, tm1)) by {
        assert forall|i: int| #[trigger] tm1.has(i) implies match tm1.at(i) {
            Type::Array(ArrayType::Default(e)) => e.0 < m_fin.len() && 0 <= i < m_fin.len()
                && m_fin[i] == array_default_name(m_fin[e.0 as int]),
            Type::Array(ArrayType::Field { elem_type, field_name, field_type }) => elem_type.0
                < m_fin.len() && field_name.0 < m_fin.len() && field_type.0 < m_fin.len() && 0 <= i
                < m_fin.len() && m_fin[i] == array_field_name(
                m_fin[elem_type.0 as int],
                m_fin[field_name.0 as int],
            ),
            _ => true,
        } by {
            if i != w.0 as int {
                assert(tm_pre.has(i) && tm1.at(i) == tm_pre.at(i));
            }
        }
    }
    assert(natives_has(tm1, natives)) by {
        assert forall|k: NativeType| tm1.has((#[trigger] natives.spec_type_id(k)).0 as int) by {
            if natives.spec_type_id(k).0 as int != w.0 as int {
                assert(tm_pre.has(natives.spec_type_id(k).0 as int));
            }
        }
    }
    assert forall|i: int| #[trigger] tm1.has(i) && tm1.at(i) is Native implies is_native_kw(
        m_fin[i]) by {
        if i != w.0 as int {
            assert(tm_pre.has(i) && tm_pre.at(i) is Native);
        }
    }
    if file_clean(*file) {
        assert forall|n: Seq<char>|
            (#[trigger] declared_now(m_fin, tm1, n)) == declared_in(*file, n) by {
            lemma_declared_now_insert(m_fin, tm_pre, tm1, w, n);
            if n == m_fin[w.0 as int] {
                assert(declared_now(m_fin, tm_pre, n)) by {
                    assert(tm_pre.has(w.0 as int) && (tm_pre.at(w.0 as int) is Message));
                }
            }
        }
        assert forall|d: TopLevel|
            def_name(d) != def_name(file.defs@[di as int]) implies ((def_declared(m_in, tm_in, d)
            ==> #[trigger] def_declared(m_fin, tm1, d)) && (def_matches(m_in, tm_in, d)
            ==> def_matches(m_fin, tm1, d))) by {
            if def_declared(m_in, tm_in, d) {
                lemma_def_fact_extend(m_in, m_fin, tm_in, tm_pre, d, false);
                lemma_def_fact_overwrite(m_fin, tm_pre, tm1, d, w.0 as int, false);
            }
            if def_matches(m_in, tm_in, d) {
                lemma_def_fact_extend(m_in, m_fin, tm_in, tm_pre, d, true);
                lemma_def_fact_overwrite(m_fin, tm_pre, tm1, d, w.0 as int, true);
            }
        }
        assert forall|k: NativeType|
            native_entry_ok(m_in, tm_in, k) ==> #[trigger] native_entry_ok(m_fin, tm1, k) by {
            if native_entry_ok(m_in, tm_in, k) {
                lemma_native_entry_extend(m_in, m_fin, tm_in, tm_pre, k);
                lemma_native_entry_overwrite(m_fin, tm_pre, tm1, k, w.0 as int);
            }
        }
        assert(def_matches(m_fin, tm1, file.defs@[di as int])) by {
            assert(sym_is(m_fin, w, msg.name@));
            assert(message_matches(m_fin, tm1, mt, msg)) by {
                assert forall|jj: int| 0 <= jj < msg.fields@.len() implies field_matches(
                    m_fin,
                    tm1,
                    #[trigger] mt.fields@[jj],
                    msg,
                    jj,
                ) by {
                    assert(field_matches(m_fin, tm_pre, mt.fields@[jj], msg, jj));
                    lemma_resolved_rel_overwrite(
                        m_fin,
                        tm_pre,
                        tm1,
                        msg.fields@[jj].ty,
                        mt.fields@[jj].ty,
                        w.0 as int,
                    );
                }
            }
        }
    }
}
} // verus!
