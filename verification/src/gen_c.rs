//! The C code emitter: turns the ordered registry into a header artifact
//! (forward declarations, bitfield constants, aggregate bodies) and a source
//! artifact (one read-function per message), both namespaced by the schema's
//! file name. Every function's output text equals its specification-level
//! rendering.

use vstd::prelude::*;
use vstd::string::StrSliceExecFns;
use vstd::string::StringExecFns;
use crate::ast::{File, decl_count};
use crate::error::CompileError;
use crate::hir::{
    ArrayType, BitfieldType, Field, Hir, MessageType, Type, build_ok, decl_equiv, declared_in,
    file_clean, hir_matches_file, is_native_kw, mentions_assoc, mentions_custom, native_keyword,
};
use crate::order::{cyclic_remainder, is_user_type, topological_sort, valid_order};
use crate::parser::parse;
use crate::symbols::SymbolId;
use crate::text::{dec_u32, push_char, spec_dec, str_equal, to_uppercase_str, upper_of};

verus! {

/// The text interned under a symbol.
pub open spec fn sym_text(h: Hir, id: SymbolId) -> Seq<char> {
    h.symbols@[id.0 as int]
}

/// An ASCII uppercase letter.
pub open spec fn is_up(c: char) -> bool {
    65 <= c as u32 && c as u32 <= 90
}

/// An ASCII lowercase letter.
pub open spec fn is_low(c: char) -> bool {
    97 <= c as u32 && c as u32 <= 122
}

/// An ASCII digit.
pub open spec fn is_dig(c: char) -> bool {
    48 <= c as u32 && c as u32 <= 57
}

/// The ASCII lowercase counterpart of an uppercase letter.
pub open spec fn low_of(c: char) -> char {
    ((c as u32 + 32) as u8) as char
}

/// After this character, does the case converter stand behind a lowercase
/// letter or digit?
pub open spec fn prev_low(c: char) -> bool {
    !is_up(c) && (is_low(c) || is_dig(c))
}

/// What the case converter appends for one character, given whether the
/// previous character was lowercase or a digit.
pub open spec fn c_ident_piece(c: char, pl: bool) -> Seq<char> {
    if is_up(c) {
        if pl {
            seq!['_', low_of(c)]
        } else {
            seq![low_of(c)]
        }
    } else {
        seq![c]
    }
}

/// A name converted to C case convention: camel case becomes snake case.
pub open spec fn spec_c_ident(s: Seq<char>) -> Seq<char>
    decreases s.len(),
{
    if s.len() == 0 {
        Seq::empty()
    } else {
        spec_c_ident(s.drop_last()) + c_ident_piece(
            s.last(),
            if s.len() == 1 {
                false
            } else {
                prev_low(s[s.len() - 2])
            },
        )
    }
}

/// The C rendering of a type or function name: native keywords map to the
/// fixed-width C integer types; other names are case-converted, with a `_t`
/// suffix for type position.
pub open spec fn spec_to_c_name(s: Seq<char>, as_type: bool) -> Seq<char> {
    if s == "u8"@ {
        "uint8_t"@
    } else if s == "u16"@ {
        "uint16_t"@
    } else if s == "u32"@ || s == "vu32"@ {
        "uint32_t"@
    } else if s == "u64"@ || s == "vu64"@ {
        "uint64_t"@
    } else if s == "i8"@ {
        "int8_t"@
    } else if s == "i16"@ {
        "int16_t"@
    } else if s == "i32"@ || s == "vi32"@ {
        "int32_t"@
    } else if s == "i64"@ || s == "vi64"@ {
        "int64_t"@
    } else if as_type {
        spec_c_ident(s) + "_t"@
    } else {
        spec_c_ident(s)
    }
}

/// Renders a name in C case convention.
pub fn to_c_name(input: &str, as_type: bool) -> (r: String)
    ensures
        r@ == spec_to_c_name(input@, as_type),
{
    if str_equal(input, "u8") {
        return String::from_str("uint8_t");
    }
    if str_equal(input, "u16") {
        return String::from_str("uint16_t");
    }
    if str_equal(input, "u32") || str_equal(input, "vu32") {
        return String::from_str("uint32_t");
    }
    if str_equal(input, "u64") || str_equal(input, "vu64") {
        return String::from_str("uint64_t");
    }
    if str_equal(input, "i8") {
        return String::from_str("int8_t");
    }
    if str_equal(input, "i16") {
        return String::from_str("int16_t");
    }
    if str_equal(input, "i32") || str_equal(input, "vi32") {
        return String::from_str("int32_t");
    }
    if str_equal(input, "i64") || str_equal(input, "vi64") {
        return String::from_str("int64_t");
    }
    let n = input.unicode_len();
    let mut out = String::new();
    let mut prev_lowercase = false;
    let mut i: usize = 0;
    while i < n
        invariant
            n == input@.len(),
            0 <= i <= n,
            out@ == spec_c_ident(input@.subrange(0, i as int)),
            prev_lowercase == if i == 0 {
                false
            } else {
                prev_low(input@[i - 1])
            },
        decreases n - i,
    {
        let c = input.get_char(i);
        let ghost pre = input@.subrange(0, i as int);
        let u = c as u32;
        if 65 <= u && u <= 90 {
            if prev_lowercase {
                push_char(&mut out, '_');
            }
            push_char(&mut out, ((u + 32) as u8) as char);
            prev_lowercase = false;
        } else {
            push_char(&mut out, c);
            prev_lowercase = (97 <= u && u <= 122) || (48 <= u && u <= 57);
        }
        proof {
            let pre1 = input@.subrange(0, i + 1 as int);
            assert(pre1.drop_last() =~= pre);
            assert(pre1.last() == c);
            assert(out@ =~= spec_c_ident(pre1));
        }
        i = i + 1;
    }
    proof {
        assert(input@.subrange(0, n as int) =~= input@);
    }
    if as_type {
        out.append("_t");
    }
    out
}

/// The interned text of a symbol, as a string slice.
fn sym_str(hir: &Hir, id: SymbolId) -> (r: &str)
    requires
        id.0 < hir.symbols@.len(),
    ensures
        r@ == sym_text(*hir, id),
{
    match hir.symbols.get(id) {
        Some(s) => s,
        None => {
            proof {
                assert(false);
            }
            ""
        },
    }
}

/// One bitfield constant line.
pub open spec fn spec_flag_line(h: Hir, upper_name: Seq<char>, f: crate::hir::Bitflag) -> Seq<
    char,
> {
    "#define "@ + upper_name + "_"@ + upper_of(spec_to_c_name(sym_text(h, f.name), false))
        + " (1 << "@ + spec_dec(f.offset as nat) + ")\n"@
}

pub open spec fn spec_flag_lines(
    h: Hir,
    upper_name: Seq<char>,
    flags: Seq<crate::hir::Bitflag>,
    n: int,
) -> Seq<char>
    decreases n,
{
    if n <= 0 {
        Seq::empty()
    } else {
        spec_flag_lines(h, upper_name, flags, n - 1) + spec_flag_line(h, upper_name, flags[n - 1])
    }
}

/// A bitfield's constants block: a comment line naming it, one mask
/// constant per flag with value `1 << offset`, and a blank line.
pub open spec fn spec_bitfield_text(h: Hir, bt: BitfieldType) -> Seq<char> {
    "/// Bitfield: "@ + sym_text(h, bt.name) + "\n"@ + spec_flag_lines(
        h,
        upper_of(spec_to_c_name(sym_text(h, bt.name), false)),
        bt.flags@,
        bt.flags@.len() as int,
    ) + "\n"@
}

/// Ids mentioned by a bitfield entry are in bounds.
pub open spec fn bf_ok(h: Hir, bt: BitfieldType) -> bool {
    bt.name.0 < h.symbols@.len() && forall|j: int|
        0 <= j < bt.flags@.len() ==> (#[trigger] bt.flags@[j]).name.0 < h.symbols@.len()
}

/// Emits a bitfield's constants.
pub fn generate_bitfield(hir: &Hir, bitfield: &BitfieldType, out: &mut String)
    requires
        bf_ok(*hir, *bitfield),
    ensures
        final(out)@ == old(out)@ + spec_bitfield_text(*hir, *bitfield),
{
    let ghost base = out@;
    let name = sym_str(hir, bitfield.name);
    out.append("/// Bitfield: ");
    out.append(name);
    out.append("\n");
    let lower = to_c_name(name, false);
    let upper_name = to_uppercase_str(lower.as_str());
    let ghost up = upper_name@;
    let mut j: usize = 0;
    while j < bitfield.flags.len()
        invariant
            bf_ok(*hir, *bitfield),
            0 <= j <= bitfield.flags@.len(),
            up == upper_of(spec_to_c_name(sym_text(*hir, bitfield.name), false)),
            upper_name@ == up,
            out@ == base + "/// Bitfield: "@ + sym_text(*hir, bitfield.name) + "\n"@
                + spec_flag_lines(*hir, up, bitfield.flags@, j as int),
        decreases bitfield.flags@.len() - j,
    {
        let flag = &bitfield.flags[j];
        out.append("#define ");
        out.append(upper_name.as_str());
        out.append("_");
        let fl = to_c_name(sym_str(hir, flag.name), false);
        let fu = to_uppercase_str(fl.as_str());
        out.append(fu.as_str());
        out.append(" (1 << ");
        let d = dec_u32(flag.offset as u32);
        out.append(d.as_str());
        out.append(")\n");
        proof {
            assert(out@ =~= base + "/// Bitfield: "@ + sym_text(*hir, bitfield.name) + "\n"@
                + spec_flag_lines(*hir, up, bitfield.flags@, j + 1));
        }
        j = j + 1;
    }
    out.append("\n");
    proof {
        assert(out@ =~= base + spec_bitfield_text(*hir, *bitfield));
    }
}

/// One aggregate member line: the C type (a growable array for array
/// fields), the member's name, in declaration order.
pub open spec fn spec_member_line(h: Hir, f: Field) -> Seq<char> {
    "  "@ + (match h.types.at(f.ty.0 as int) {
        Type::Array(ArrayType::Default(e)) => "BlArray("@ + spec_to_c_name(sym_text(h, e), true)
            + ")"@,
        Type::Array(ArrayType::Field { elem_type, field_name, field_type }) => "BlArray("@
            + spec_to_c_name(sym_text(h, elem_type), true) + ")"@,
        _ => spec_to_c_name(sym_text(h, f.ty), true),
    }) + " "@ + sym_text(h, f.name) + ";\n"@
}

/// The fields that contribute a structural member: every field not folded
/// into an array, kept in declaration order.
pub open spec fn non_folded(fields: Seq<Field>) -> Seq<Field>
    decreases fields.len(),
{
    if fields.len() == 0 {
        Seq::empty()
    } else {
        non_folded(fields.drop_last()) + if fields.last().associated is None {
            seq![fields.last()]
        } else {
            Seq::empty()
        }
    }
}

pub open spec fn spec_member_lines(h: Hir, fields: Seq<Field>, n: int) -> Seq<char>
    decreases n,
{
    if n <= 0 {
        Seq::empty()
    } else {
        spec_member_lines(h, fields, n - 1) + if fields[n - 1].associated is None {
            spec_member_line(h, fields[n - 1])
        } else {
            Seq::empty()
        }
    }
}

pub open spec fn spec_member_lines_of(h: Hir, members: Seq<Field>) -> Seq<char>
    decreases members.len(),
{
    if members.len() == 0 {
        Seq::empty()
    } else {
        spec_member_lines_of(h, members.drop_last()) + spec_member_line(h, members.last())
    }
}

/// Law: the emitted aggregate's member lines are exactly one line per
/// non-folded field, in declaration order.
pub proof fn lemma_member_order(h: Hir, fields: Seq<Field>)
    ensures
        spec_member_lines(h, fields, fields.len() as int) == spec_member_lines_of(
            h,
            non_folded(fields),
        ),
    decreases fields.len(),
{
    if fields.len() == 0 {
    } else {
        let pre = fields.drop_last();
        lemma_member_order(h, pre);
        assert(spec_member_lines(h, fields, fields.len() - 1) == spec_member_lines(
            h,
            pre,
            pre.len() as int,
        )) by {
            lemma_member_lines_prefix(h, fields, pre.len() as int);
        }
        if fields.last().associated is None {
            assert(non_folded(fields) == non_folded(pre).push(fields.last()));
            assert(non_folded(fields).drop_last() =~= non_folded(pre));
            assert(non_folded(fields).last() == fields.last());
        } else {
            assert(non_folded(fields) =~= non_folded(pre));
        }
    }
}

proof fn lemma_member_lines_prefix(h: Hir, fields: Seq<Field>, n: int)
    requires
        0 <= n <= fields.len(),
    ensures
        spec_member_lines(h, fields, n) == spec_member_lines(
            h,
            fields.subrange(0, n),
            n,
        ),
    decreases n,
{
    if n > 0 {
        lemma_member_lines_prefix(h, fields, n - 1);
        assert(fields.subrange(0, n - 1) =~= fields.subrange(0, n).subrange(0, n - 1));
        lemma_member_lines_prefix(h, fields.subrange(0, n), n - 1);
        assert(fields.subrange(0, n)[n - 1] == fields[n - 1]);
    }
}

/// A message's aggregate body.
pub open spec fn spec_message_text(h: Hir, mt: MessageType) -> Seq<char> {
    "struct "@ + sym_text(h, mt.name) + " {\n"@ + spec_member_lines(
        h,
        mt.fields@,
        mt.fields@.len() as int,
    ) + "};\n\n"@
}

/// Ids mentioned by a message entry are in bounds and its field types
/// registered.
pub open spec fn mt_ok(h: Hir, mt: MessageType) -> bool {
    &&& mt.name.0 < h.symbols@.len()
    &&& forall|j: int|
        0 <= j < mt.fields@.len() ==> crate::hir::field_entry_wf(
            #[trigger] mt.fields@[j],
            h.symbols@.len() as int,
            h.types,
        )
}

/// Emits a message's aggregate body: every non-folded field becomes one
/// member; folded count fields contribute no storage.
pub fn generate_message(hir: &Hir, msg: &MessageType, out: &mut String)
    requires
        hir.wf(),
        mt_ok(*hir, *msg),
    ensures
        final(out)@ == old(out)@ + spec_message_text(*hir, *msg),
{
    let ghost base = out@;
    out.append("struct ");
    out.append(sym_str(hir, msg.name));
    out.append(" {\n");
    let mut j: usize = 0;
    while j < msg.fields.len()
        invariant
            hir.wf(),
            mt_ok(*hir, *msg),
            0 <= j <= msg.fields@.len(),
            out@ == base + "struct "@ + sym_text(*hir, msg.name) + " {\n"@ + spec_member_lines(
                *hir,
                msg.fields@,
                j as int,
            ),
        decreases msg.fields@.len() - j,
    {
        let f = &msg.fields[j];
        let skip = f.associated.is_some();
        if !skip {
            out.append("  ");
            let entry = match hir.types.get(f.ty) {
                Some(t) => t,
                None => {
                    proof {
                        assert(false);
                    }
                    return ;
                },
            };
            match entry {
                Type::Array(a) => {
                    let elem = match a {
                        ArrayType::Default(e) => *e,
                        ArrayType::Field { elem_type, field_name, field_type } => *elem_type,
                    };
                    out.append("BlArray(");
                    let en = to_c_name(sym_str(hir, elem), true);
                    out.append(en.as_str());
                    out.append(")");
                },
                _ => {
                    let tn = to_c_name(sym_str(hir, f.ty), true);
                    out.append(tn.as_str());
                },
            }
            out.append(" ");
            out.append(sym_str(hir, f.name));
            out.append(";\n");
        }
        proof {
            assert(out@ =~= base + "struct "@ + sym_text(*hir, msg.name) + " {\n"@
                + spec_member_lines(*hir, msg.fields@, j + 1));
        }
        j = j + 1;
    }
    out.append("};\n\n");
    proof {
        assert(out@ =~= base + spec_message_text(*hir, *msg));
    }
}


/// A forward declaration line: an opaque named handle per message or
/// bitfield, so later bodies may reference earlier ones by name.
pub open spec fn spec_forward_decl(h: Hir, t: Type) -> Seq<char> {
    match t {
        Type::Message(mt) => "typedef struct "@ + sym_text(h, mt.name) + " "@ + spec_to_c_name(
            sym_text(h, mt.name),
            true,
        ) + ";\n"@,
        Type::Bitfield(bt) => "typedef uint8_t "@ + spec_to_c_name(sym_text(h, bt.name), true)
            + ";\n"@,
        _ => Seq::empty(),
    }
}

/// A message read-function's signature.
pub open spec fn spec_msg_sig(h: Hir, ns: Seq<char>, mt: MessageType) -> Seq<char> {
    "bl_result_t bl_"@ + ns + "__read_"@ + spec_to_c_name(sym_text(h, mt.name), false)
        + "(bl_slice_t *b, "@ + spec_to_c_name(sym_text(h, mt.name), true) + " *value)"@
}

pub open spec fn spec_fn_forward_decl(h: Hir, ns: Seq<char>, t: Type) -> Seq<char> {
    match t {
        Type::Message(mt) => spec_msg_sig(h, ns, mt) + ";\n"@,
        _ => Seq::empty(),
    }
}

/// Where a field's decoded value is written: folded fields write straight
/// into their array's length member.
pub open spec fn spec_field_dest(h: Hir, f: Field) -> Seq<char> {
    match f.associated {
        Some(a) => sym_text(h, a) + ".size"@,
        None => sym_text(h, f.name),
    }
}

/// The element-reading text of an array field: a bulk byte copy for byte
/// elements, else an indexed loop using the element's own read rule.
pub open spec fn spec_elem_read(h: Hir, ns: Seq<char>, dest: Seq<char>, e: SymbolId) -> Seq<
    char,
> {
    if sym_text(h, e) == "u8"@ {
        "  BL_TRY(bl_slice__read_exact(b, value->"@ + dest + ".elems, value->"@ + dest
            + ".size));\n"@
    } else {
        "  for (uint32_t i = 0; i < value->"@ + dest + ".size; i++) {\n"@ + "    BL_TRY(bl_"@ + ns
            + "__read_"@ + spec_to_c_name(sym_text(h, e), false) + "(b, value->"@ + dest
            + ".elems + i));\n"@ + "  }\n"@
    }
}

/// One field's read text, chosen by the field's resolved type: nested reads
/// for messages, a byte for bitfields, the matching primitive for natives,
/// and length-then-elements for arrays, the length coming from the wire only
/// for default-shaped arrays.
pub open spec fn spec_field_read(h: Hir, ns: Seq<char>, f: Field) -> Seq<char> {
    "  "@ + (match h.types.at(f.ty.0 as int) {
        Type::Message(mt2) => "BL_TRY(bl_"@ + ns + "__read_"@ + spec_to_c_name(
            sym_text(h, mt2.name),
            false,
        ) + "(b, &value->"@ + spec_field_dest(h, f) + "));\n"@,
        Type::Bitfield(_) => "BL_TRY(bl_slice__read_u8(b, &value->"@ + spec_field_dest(h, f)
            + "));\n"@,
        Type::Native(k) => "BL_TRY(bl_slice__read_"@ + native_keyword(k) + "(b, &value->"@
            + spec_field_dest(h, f) + "));\n"@,
        Type::Array(ArrayType::Default(e)) => "BL_TRY(bl_slice__read_u32(b, &value->"@
            + spec_field_dest(h, f) + ".size));\n"@ + "  array_reserve(&value->"@
            + spec_field_dest(h, f) + ", value->"@ + spec_field_dest(h, f) + ".size);\n"@
            + spec_elem_read(h, ns, spec_field_dest(h, f), e),
        Type::Array(ArrayType::Field { elem_type, field_name, field_type }) => "array_reserve(&value->"@
            + spec_field_dest(h, f) + ", value->"@ + spec_field_dest(h, f) + ".size);\n"@
            + spec_elem_read(h, ns, spec_field_dest(h, f), elem_type),
    })
}

pub open spec fn spec_field_reads(h: Hir, ns: Seq<char>, fields: Seq<Field>, n: int) -> Seq<char>
    decreases n,
{
    if n <= 0 {
        Seq::empty()
    } else {
        spec_field_reads(h, ns, fields, n - 1) + spec_field_read(h, ns, fields[n - 1])
    }
}

/// A message's whole read-function: every field read in declaration order,
/// each through the failure-propagating try macro; any failure aborts the
/// function before the success return.
pub open spec fn spec_impl_message(h: Hir, ns: Seq<char>, mt: MessageType) -> Seq<char> {
    spec_msg_sig(h, ns, mt) + " {\n"@ + spec_field_reads(h, ns, mt.fields@, mt.fields@.len() as int)
        + "  return bl_result_ok;\n"@ + "}\n"@
}

pub open spec fn spec_impl_type(h: Hir, ns: Seq<char>, t: Type) -> Seq<char> {
    match t {
        Type::Message(mt) => spec_impl_message(h, ns, mt),
        _ => Seq::empty(),
    }
}

pub open spec fn spec_bitfield_or_empty(h: Hir, t: Type) -> Seq<char> {
    match t {
        Type::Bitfield(bt) => spec_bitfield_text(h, bt),
        _ => Seq::empty(),
    }
}

pub open spec fn spec_type_text(h: Hir, t: Type) -> Seq<char> {
    match t {
        Type::Message(mt) => spec_message_text(h, mt),
        _ => Seq::empty(),
    }
}

/// Concatenation of a per-type rendering over the first `n` ordered types.
pub open spec fn spec_cat(h: Hir, order: Seq<SymbolId>, n: int, which: int, ns: Seq<char>) -> Seq<
    char,
>
    decreases n,
{
    if n <= 0 {
        Seq::empty()
    } else {
        spec_cat(h, order, n - 1, which, ns) + (if which == 0 {
            spec_forward_decl(h, h.types.at(order[n - 1].0 as int))
        } else if which == 1 {
            spec_bitfield_or_empty(h, h.types.at(order[n - 1].0 as int))
        } else if which == 2 {
            spec_type_text(h, h.types.at(order[n - 1].0 as int))
        } else if which == 3 {
            spec_fn_forward_decl(h, ns, h.types.at(order[n - 1].0 as int))
        } else {
            spec_impl_type(h, ns, h.types.at(order[n - 1].0 as int))
        })
    }
}

/// The header artifact: guard, runtime include, forward declarations,
/// bitfield constants, aggregate bodies and read-function declarations, in
/// emission order.
pub open spec fn spec_header_file(h: Hir, order: Seq<SymbolId>, filename: Seq<char>) -> Seq<
    char,
> {
    let ns = spec_to_c_name(filename, false);
    "#ifndef BINLANG_"@ + filename + "_H_\n"@ + "#define BINLANG_"@ + filename + "_H_\n"@ + "\n"@
        + "#include \"binlang.h\"\n"@ + "\n"@ + spec_cat(h, order, order.len() as int, 0, ns)
        + "\n"@ + spec_cat(h, order, order.len() as int, 1, ns) + spec_cat(
        h,
        order,
        order.len() as int,
        2,
        ns,
    ) + spec_cat(h, order, order.len() as int, 3, ns) + "\n"@ + "#endif // BINLANG_"@ + filename
        + "_H_\n"@
}

/// The source artifact: the header include and one read-function per
/// message, in emission order.
pub open spec fn spec_impl_file(h: Hir, order: Seq<SymbolId>, filename: Seq<char>) -> Seq<char> {
    let ns = spec_to_c_name(filename, false);
    "#include \""@ + filename + ".h\"\n"@ + "\n"@ + spec_cat(h, order, order.len() as int, 4, ns)
}

/// Emits one field's read text.
#[verifier::rlimit(100)]
fn generate_field_read(hir: &Hir, ns: &str, f: &Field, out: &mut String)
    requires
        hir.wf(),
        crate::hir::field_entry_wf(*f, hir.symbols@.len() as int, hir.types),
    ensures
        final(out)@ == old(out)@ + spec_field_read(*hir, ns@, *f),
{
    let ghost base = out@;
    out.append("  ");
    let dest: String = match f.associated {
        Some(a) => {
            let mut d = String::from_str(sym_str(hir, a));
            d.append(".size");
            d
        },
        None => String::from_str(sym_str(hir, f.name)),
    };
    proof {
        assert(dest@ == spec_field_dest(*hir, *f));
    }
    let entry = match hir.types.get(f.ty) {
        Some(t) => t,
        None => {
            proof {
                assert(false);
            }
            return ;
        },
    };
    match entry {
        Type::Message(mt2) => {
            out.append("BL_TRY(bl_");
            out.append(ns);
            out.append("__read_");
            let f_fn = to_c_name(sym_str(hir, mt2.name), false);
            out.append(f_fn.as_str());
            out.append("(b, &value->");
            out.append(dest.as_str());
            out.append("));\n");
        },
        Type::Bitfield(_) => {
            out.append("BL_TRY(bl_slice__read_u8(b, &value->");
            out.append(dest.as_str());
            out.append("));\n");
        },
        Type::Native(k) => {
            out.append("BL_TRY(bl_slice__read_");
            out.append(crate::hir::native_keyword_str(*k));
            out.append("(b, &value->");
            out.append(dest.as_str());
            out.append("));\n");
        },
        Type::Array(a) => {
            let elem = match a {
                ArrayType::Default(e) => *e,
                ArrayType::Field { elem_type, field_name, field_type } => *elem_type,
            };
            let with_prefix = matches!(a, ArrayType::Default(_));
            if with_prefix {
                out.append("BL_TRY(bl_slice__read_u32(b, &value->");
                out.append(dest.as_str());
                out.append(".size));\n");
                out.append("  array_reserve(&value->");
                out.append(dest.as_str());
                out.append(", value->");
                out.append(dest.as_str());
                out.append(".size);\n");
            } else {
                out.append("array_reserve(&value->");
                out.append(dest.as_str());
                out.append(", value->");
                out.append(dest.as_str());
                out.append(".size);\n");
            }
            generate_elem_read(hir, ns, dest.as_str(), elem, out);
        },
    }
    proof {
        assert(out@ =~= base + spec_field_read(*hir, ns@, *f));
    }
}

/// Emits an array field's element-reading text.
#[verifier::rlimit(60)]
fn generate_elem_read(hir: &Hir, ns: &str, dest: &str, elem: SymbolId, out: &mut String)
    requires
        elem.0 < hir.symbols@.len(),
    ensures
        final(out)@ == old(out)@ + spec_elem_read(*hir, ns@, dest@, elem),
{
    let ghost base = out@;
    let elem_s = sym_str(hir, elem);
    if str_equal(elem_s, "u8") {
        out.append("  BL_TRY(bl_slice__read_exact(b, value->");
        out.append(dest);
        out.append(".elems, value->");
        out.append(dest);
        out.append(".size));\n");
    } else {
        out.append("  for (uint32_t i = 0; i < value->");
        out.append(dest);
        out.append(".size; i++) {\n");
        out.append("    BL_TRY(bl_");
        out.append(ns);
        out.append("__read_");
        let e_fn = to_c_name(elem_s, false);
        out.append(e_fn.as_str());
        out.append("(b, value->");
        out.append(dest);
        out.append(".elems + i));\n");
        out.append("  }\n");
    }
    proof {
        assert(out@ =~= base + spec_elem_read(*hir, ns@, dest@, elem));
    }
}

/// Emits one message's read-function (or its forward declaration).
#[verifier::rlimit(60)]
pub fn generate_impl_message(
    hir: &Hir,
    ns: &str,
    msg: &MessageType,
    forward_decl: bool,
    out: &mut String,
)
    requires
        hir.wf(),
        mt_ok(*hir, *msg),
    ensures
        !forward_decl ==> final(out)@ == old(out)@ + spec_impl_message(*hir, ns@, *msg),
        forward_decl ==> final(out)@ == old(out)@ + spec_msg_sig(*hir, ns@, *msg) + ";\n"@,
{
    let ghost base = out@;
    let name = sym_str(hir, msg.name);
    let typedef = to_c_name(name, true);
    let fn_name = to_c_name(name, false);
    out.append("bl_result_t bl_");
    out.append(ns);
    out.append("__read_");
    out.append(fn_name.as_str());
    out.append("(bl_slice_t *b, ");
    out.append(typedef.as_str());
    out.append(" *value)");
    proof {
        assert(out@ =~= base + spec_msg_sig(*hir, ns@, *msg));
    }
    if forward_decl {
        out.append(";\n");
        return ;
    }
    out.append(" {\n");
    let mut j: usize = 0;
    while j < msg.fields.len()
        invariant
            hir.wf(),
            mt_ok(*hir, *msg),
            0 <= j <= msg.fields@.len(),
            out@ == base + spec_msg_sig(*hir, ns@, *msg) + " {\n"@ + spec_field_reads(
                *hir,
                ns@,
                msg.fields@,
                j as int,
            ),
        decreases msg.fields@.len() - j,
    {
        let f = &msg.fields[j];
        generate_field_read(hir, ns, f, out);
        proof {
            assert(out@ =~= base + spec_msg_sig(*hir, ns@, *msg) + " {\n"@ + spec_field_reads(
                *hir,
                ns@,
                msg.fields@,
                j + 1,
            ));
        }
        j = j + 1;
    }
    out.append("  return bl_result_ok;\n");
    out.append("}\n");
    proof {
        assert(out@ =~= base + spec_impl_message(*hir, ns@, *msg));
    }
}

/// Derives the per-entry bounds the emitters need from the registry
/// invariant.
proof fn lemma_entry_emit_ok(h: Hir, i: int)
    requires
        h.wf(),
        h.types.has(i),
    ensures
        h.types.at(i) matches Type::Message(mt) ==> mt_ok(h, mt),
        h.types.at(i) matches Type::Bitfield(bt) ==> bf_ok(h, bt),
{
    assert(crate::hir::type_entry_wf(h.types.at(i), h.symbols@.len() as int, h.types));
}

/// Emits the header artifact.
#[verifier::rlimit(60)]
pub fn generate_header_file(filename: &str, hir: &Hir, sorted: &Vec<SymbolId>) -> (r: String)
    requires
        hir.wf(),
        forall|k: int|
            0 <= k < sorted@.len() ==> is_user_type(*hir, (#[trigger] sorted@[k]).0 as int),
    ensures
        r@ == spec_header_file(*hir, sorted@, filename@),
{
    let ghost h = *hir;
    let mut out = String::new();
    out.append("#ifndef BINLANG_");
    out.append(filename);
    out.append("_H_\n");
    out.append("#define BINLANG_");
    out.append(filename);
    out.append("_H_\n");
    out.append("\n");
    out.append("#include \"binlang.h\"\n");
    out.append("\n");
    let ns = to_c_name(filename, false);
    let ghost nsv = ns@;
    let ghost base0 = out@;
    let mut k: usize = 0;
    while k < sorted.len()
        invariant
            hir.wf(),
            forall|k2: int|
                0 <= k2 < sorted@.len() ==> is_user_type(*hir, (#[trigger] sorted@[k2]).0 as int),
            0 <= k <= sorted@.len(),
            ns@ == nsv,
            out@ == base0 + spec_cat(*hir, sorted@, k as int, 0, nsv),
        decreases sorted@.len() - k,
    {
        let id = sorted[k];
        let entry = match hir.types.get(id) {
            Some(t) => t,
            None => {
                proof {
                    assert(false);
                }
                return out;
            },
        };
        match entry {
            Type::Message(mt) => {
                let nm = sym_str(hir, mt.name);
                proof {
                    lemma_entry_emit_ok(*hir, id.0 as int);
                }
                out.append("typedef struct ");
                out.append(nm);
                out.append(" ");
                let td = to_c_name(nm, true);
                out.append(td.as_str());
                out.append(";\n");
            },
            Type::Bitfield(bt) => {
                proof {
                    lemma_entry_emit_ok(*hir, id.0 as int);
                }
                out.append("typedef uint8_t ");
                let td = to_c_name(sym_str(hir, bt.name), true);
                out.append(td.as_str());
                out.append(";\n");
            },
            _ => {},
        }
        proof {
            assert(out@ =~= base0 + spec_cat(*hir, sorted@, k + 1, 0, nsv));
        }
        k = k + 1;
    }
    out.append("\n");
    let ghost base1 = out@;
    let mut k1: usize = 0;
    while k1 < sorted.len()
        invariant
            hir.wf(),
            forall|k2: int|
                0 <= k2 < sorted@.len() ==> is_user_type(*hir, (#[trigger] sorted@[k2]).0 as int),
            0 <= k1 <= sorted@.len(),
            out@ == base1 + spec_cat(*hir, sorted@, k1 as int, 1, nsv),
        decreases sorted@.len() - k1,
    {
        let id = sorted[k1];
        let entry = match hir.types.get(id) {
            Some(t) => t,
            None => {
                proof {
                    assert(false);
                }
                return out;
            },
        };
        if let Type::Bitfield(bt) = entry {
            proof {
                lemma_entry_emit_ok(*hir, id.0 as int);
            }
            generate_bitfield(hir, bt, &mut out);
        }
        proof {
            assert(out@ =~= base1 + spec_cat(*hir, sorted@, k1 + 1, 1, nsv));
        }
        k1 = k1 + 1;
    }
    let ghost base2 = out@;
    let mut k2: usize = 0;
    while k2 < sorted.len()
        invariant
            hir.wf(),
            forall|k3: int|
                0 <= k3 < sorted@.len() ==> is_user_type(*hir, (#[trigger] sorted@[k3]).0 as int),
            0 <= k2 <= sorted@.len(),
            out@ == base2 + spec_cat(*hir, sorted@, k2 as int, 2, nsv),
        decreases sorted@.len() - k2,
    {
        let id = sorted[k2];
        let entry = match hir.types.get(id) {
            Some(t) => t,
            None => {
                proof {
                    assert(false);
                }
                return out;
            },
        };
        if let Type::Message(mt) = entry {
            proof {
                lemma_entry_emit_ok(*hir, id.0 as int);
            }
            generate_message(hir, mt, &mut out);
        }
        proof {
            assert(out@ =~= base2 + spec_cat(*hir, sorted@, k2 + 1, 2, nsv));
        }
        k2 = k2 + 1;
    }
    let ghost base3 = out@;
    let mut k3: usize = 0;
    while k3 < sorted.len()
        invariant
            hir.wf(),
            forall|k4: int|
                0 <= k4 < sorted@.len() ==> is_user_type(*hir, (#[trigger] sorted@[k4]).0 as int),
            0 <= k3 <= sorted@.len(),
            ns@ == nsv,
            out@ == base3 + spec_cat(*hir, sorted@, k3 as int, 3, nsv),
        decreases sorted@.len() - k3,
    {
        let id = sorted[k3];
        let entry = match hir.types.get(id) {
            Some(t) => t,
            None => {
                proof {
                    assert(false);
                }
                return out;
            },
        };
        if let Type::Message(mt) = entry {
            proof {
                lemma_entry_emit_ok(*hir, id.0 as int);
            }
            generate_impl_message(hir, ns.as_str(), mt, true, &mut out);
        }
        proof {
            assert(out@ =~= base3 + spec_cat(*hir, sorted@, k3 + 1, 3, nsv));
        }
        k3 = k3 + 1;
    }
    out.append("\n");
    out.append("#endif // BINLANG_");
    out.append(filename);
    out.append("_H_\n");
    proof {
        assert(out@ =~= spec_header_file(*hir, sorted@, filename@));
    }
    out
}

/// Emits the source artifact.
pub fn generate_impl_file(filename: &str, hir: &Hir, sorted: &Vec<SymbolId>) -> (r: String)
    requires
        hir.wf(),
        forall|k: int|
            0 <= k < sorted@.len() ==> is_user_type(*hir, (#[trigger] sorted@[k]).0 as int),
    ensures
        r@ == spec_impl_file(*hir, sorted@, filename@),
{
    let mut out = String::new();
    out.append("#include \"");
    out.append(filename);
    out.append(".h\"\n");
    out.append("\n");
    let ns = to_c_name(filename, false);
    let ghost nsv = ns@;
    let ghost base = out@;
    let mut k: usize = 0;
    while k < sorted.len()
        invariant
            hir.wf(),
            forall|k2: int|
                0 <= k2 < sorted@.len() ==> is_user_type(*hir, (#[trigger] sorted@[k2]).0 as int),
            0 <= k <= sorted@.len(),
            ns@ == nsv,
            out@ == base + spec_cat(*hir, sorted@, k as int, 4, nsv),
        decreases sorted@.len() - k,
    {
        let id = sorted[k];
        let entry = match hir.types.get(id) {
            Some(t) => t,
            None => {
                proof {
                    assert(false);
                }
                return out;
            },
        };
        if let Type::Message(mt) = entry {
            proof {
                lemma_entry_emit_ok(*hir, id.0 as int);
            }
            generate_impl_message(hir, ns.as_str(), mt, false, &mut out);
        }
        proof {
            assert(out@ =~= base + spec_cat(*hir, sorted@, k + 1, 4, nsv));
        }
        k = k + 1;
    }
    proof {
        assert(out@ =~= spec_impl_file(*hir, sorted@, filename@));
    }
    out
}


/// The registry a clean file compiles to, exactly as `Hir::new` describes
/// its result: well-formed, mirroring every definition, resolving exactly
/// the declared names, native entries only at keyword texts, and the root
/// symbol mapped to no type.
pub open spec fn compiled_registry(h: Hir, file: File) -> bool {
    &&& h.wf()
    &&& h.symbols@.len() < 0xFFFF_FFFEusize
    &&& hir_matches_file(h, file)
    &&& decl_equiv(h.symbols@, h.types, file)
    &&& forall|i: int|
        #[trigger] h.types.has(i) && h.types.at(i) is Native ==> is_native_kw(h.symbols@[i])
    &&& !h.types.has(h.root.0 as int)
}

/// The registry admits an emission order.
pub open spec fn orderable(h: Hir) -> bool {
    exists|ord: Seq<SymbolId>| valid_order(h, ord)
}

/// Compiles one parsed file to its two artifacts: build the registry, order
/// it, render. For clean trees the contract fixes the outcome: resolution
/// failures occur exactly when `build_ok` fails; success is owed whenever
/// resolution succeeds and every registry matching the file admits an
/// emission order; and a cycle report exhibits a matching registry with a
/// genuinely blocked remainder.
pub fn generate_file(filename: &str, file: &File) -> (r: Result<GeneratedCode, CompileError>)
    requires
        decl_count(*file) <= 0x0FFF_FFFF,
    ensures
        r matches Ok(out) ==> exists|h: Hir, order: Seq<SymbolId>|
            #![auto]
            h.wf() && valid_order(h, order) && (file_clean(*file) ==> compiled_registry(
                h,
                *file,
            )) && out.header@ == spec_header_file(h, order, filename@) && out.source@
                == spec_impl_file(h, order, filename@),
        file_clean(*file) ==> (r is Ok ==> build_ok(*file) && exists|h: Hir|
            #![auto]
            compiled_registry(h, *file) && orderable(h)),
        file_clean(*file) ==> ((build_ok(*file) && (forall|h: Hir|
            #[trigger] compiled_registry(h, *file) ==> orderable(h))) ==> r is Ok),
        file_clean(*file) ==> (r matches Err(e) ==> ((e is UndefinedType
            || e is UnknownAssociatedField) == !build_ok(*file))),
        file_clean(*file) ==> (r matches Err(e) ==> (e matches CompileError::CyclicDependency(ns)
            ==> exists|h: Hir, rem: Seq<int>|
            #![auto]
            compiled_registry(h, *file) && cyclic_remainder(h, rem, ns@))),
        file_clean(*file) ==> (r matches Err(e) ==> match e {
            CompileError::UndefinedType(n) => !declared_in(*file, n@) && mentions_custom(
                *file,
                n@,
            ),
            CompileError::UnknownAssociatedField(n) => mentions_assoc(*file, n@),
            _ => true,
        }),
        r matches Err(e) ==> !(e is Parse),
{
    let hir = match Hir::new(file) {
        Ok(h) => h,
        Err(e) => {
            return Err(e);
        },
    };
    let sorted = match topological_sort(&hir) {
        Ok(o) => o,
        Err(e) => {
            proof {
                if file_clean(*file) {
                    assert(compiled_registry(hir, *file));
                    assert(!orderable(hir));
                    match &e {
                        CompileError::CyclicDependency(ns) => {
                            let rem = choose|rem: Seq<int>| cyclic_remainder(hir, rem, ns@);
                            assert(compiled_registry(hir, *file) && cyclic_remainder(
                                hir,
                                rem,
                                ns@,
                            ));
                        },
                        _ => {},
                    }
                }
            }
            return Err(e);
        },
    };
    let header = generate_header_file(filename, &hir, &sorted);
    let source_text = generate_impl_file(filename, &hir, &sorted);
    let r = GeneratedCode { header, source: source_text };
    proof {
        assert(r.header@ == spec_header_file(hir, sorted@, filename@));
        assert(r.source@ == spec_impl_file(hir, sorted@, filename@));
        if file_clean(*file) {
            assert(compiled_registry(hir, *file));
            assert(orderable(hir)) by {
                assert(valid_order(hir, sorted@));
            }
        }
    }
    Ok(r)
}

/// The two generated artifacts of one schema file.
#[derive(Debug)]
pub struct GeneratedCode {
    pub header: String,
    pub source: String,
}

/// Compiles one schema file to its C declarations and read-functions:
/// parse, then compile the tree; a syntax error comes back as `Parse`,
/// every later failure exactly as `generate_file` fixes it.
pub fn generate_c(filename: &str, source: &str) -> (r: Result<GeneratedCode, CompileError>)
    requires
        source@.len() <= 0x0FFF_FFFFusize,
    ensures
        r matches Ok(out) ==> exists|h: Hir, order: Seq<SymbolId>|
            #![auto]
            h.wf() && valid_order(h, order) && out.header@ == spec_header_file(
                h,
                order,
                filename@,
            ) && out.source@ == spec_impl_file(h, order, filename@),
{
    let file = match parse(source) {
        Ok(f) => f,
        Err(e) => {
            return Err(CompileError::Parse(e));
        },
    };
    generate_file(filename, &file)
}

} // verus!
