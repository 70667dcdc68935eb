use binlang::error::CompileError;
use binlang::gen_c::{generate_c, generate_file, to_c_name};
use binlang::hir::{Hir, Type};
use binlang::order::topological_sort;
use binlang::parser::parse;

#[test]
fn to_c_name_maps_natives() {
    assert_eq!(to_c_name("u8", true), "uint8_t");
    assert_eq!(to_c_name("u16", false), "uint16_t");
    assert_eq!(to_c_name("vu32", true), "uint32_t");
    assert_eq!(to_c_name("vu64", false), "uint64_t");
    assert_eq!(to_c_name("i8", true), "int8_t");
    assert_eq!(to_c_name("vi32", true), "int32_t");
    assert_eq!(to_c_name("i64", false), "int64_t");
}

#[test]
fn to_c_name_snake_cases() {
    assert_eq!(to_c_name("FooBar", false), "foo_bar");
    assert_eq!(to_c_name("FooBar", true), "foo_bar_t");
    assert_eq!(to_c_name("Vec2D", false), "vec2_d");
    assert_eq!(to_c_name("already_snake", false), "already_snake");
    assert_eq!(to_c_name("A", true), "a_t");
}

#[test]
fn registry_declares_every_name() {
    let file = parse("message A { x: u8, }\nbitfield F { a: 0, }").unwrap();
    let hir = Hir::new(&file).unwrap();
    let a = hir.symbols.find("A").expect("A interned");
    let f = hir.symbols.find("F").expect("F interned");
    assert!(matches!(hir.types.get(a), Some(Type::Message(_))));
    assert!(matches!(hir.types.get(f), Some(Type::Bitfield(_))));
    assert_eq!(hir.symbols.get(hir.root), Some(""));
}

#[test]
fn undefined_type_is_reported() {
    let err = generate_c("s", "message A { x: B, }").unwrap_err();
    match err {
        CompileError::UndefinedType(n) => assert_eq!(n, "B"),
        other => panic!("unexpected error: {other:?}"),
    }
}

#[test]
fn unknown_associated_field_is_reported() {
    let err = generate_c("s", "message M { items: u8[count], }").unwrap_err();
    match err {
        CompileError::UnknownAssociatedField(n) => assert_eq!(n, "count"),
        other => panic!("unexpected error: {other:?}"),
    }
}

#[test]
fn forward_reference_orders_dependency_first() {
    let out = generate_c("s", "message A { b: B, }\nmessage B { x: u8, }").unwrap();
    let b_struct = out.header.find("struct B {").expect("B body emitted");
    let a_struct = out.header.find("struct A {").expect("A body emitted");
    assert!(b_struct < a_struct, "B must be declared before A");
    assert!(out.source.contains("BL_TRY(bl_s__read_b(b, &value->b));"));
}

#[test]
fn cycle_is_rejected_with_names() {
    let file = parse("message A { b: B, }\nmessage B { a: A, }").unwrap();
    let hir = Hir::new(&file).unwrap();
    let err = topological_sort(&hir).unwrap_err();
    match err {
        CompileError::CyclicDependency(names) => {
            assert_eq!(names, vec!["A".to_string(), "B".to_string()]);
        }
        other => panic!("unexpected error: {other:?}"),
    }
    let err2 = generate_c("s", "message A { b: B, }\nmessage B { a: A, }").unwrap_err();
    assert!(matches!(err2, CompileError::CyclicDependency(_)));
}

#[test]
fn self_nesting_is_a_cycle() {
    let err = generate_c("s", "message A { a: A, }").unwrap_err();
    assert!(matches!(err, CompileError::CyclicDependency(_)));
}

#[test]
fn member_order_follows_declaration_order() {
    let src = "message M { a: u8, b: u16, c: u32, d: u64, e: i8, f: i16, g: i32, h: i64, \
               i: vu32, j: vu64, k: vi32, l: vi64, }";
    let out = generate_c("s", src).unwrap();
    let expected = "struct M {\n  uint8_t a;\n  uint16_t b;\n  uint32_t c;\n  uint64_t d;\n  \
                    int8_t e;\n  int16_t f;\n  int32_t g;\n  int64_t h;\n  uint32_t i;\n  \
                    uint64_t j;\n  int32_t k;\n  int64_t l;\n};\n";
    assert!(out.header.contains(expected), "header was:\n{}", out.header);
}

#[test]
fn folded_count_field_has_no_member() {
    let src = "message Custom { x: u8, }\nmessage M { count: u32, items: Custom[count], }";
    let out = generate_c("s", src).unwrap();
    let expected = "struct M {\n  BlArray(custom_t) items;\n};\n";
    assert!(out.header.contains(expected), "header was:\n{}", out.header);
    assert!(!out.header.contains("count;"));
}

#[test]
fn folded_count_writes_into_array_length() {
    let src = "message Custom { x: u8, }\nmessage M { count: u32, items: Custom[count], }";
    let out = generate_c("s", src).unwrap();
    assert!(out.source.contains("BL_TRY(bl_slice__read_u32(b, &value->items.size));"));
    assert!(!out.source.contains("&value->count"));
    assert!(out.source.contains("array_reserve(&value->items, value->items.size);"));
    assert!(out
        .source
        .contains("for (uint32_t i = 0; i < value->items.size; i++) {"));
    assert!(out.source.contains("BL_TRY(bl_s__read_custom(b, value->items.elems + i));"));
}

#[test]
fn bitfield_constants_are_shifted_masks() {
    let out = generate_c("s", "bitfield F { a: 0, b: 3, }").unwrap();
    assert!(out.header.contains("/// Bitfield: F\n"));
    assert!(out.header.contains("#define F_A (1 << 0)\n"));
    assert!(out.header.contains("#define F_B (1 << 3)\n"));
    assert!(out.header.contains("typedef uint8_t f_t;\n"));
}

#[test]
fn bitfield_field_reads_one_byte() {
    let src = "bitfield F { a: 0, }\nmessage M { flags: F, }";
    let out = generate_c("s", src).unwrap();
    assert!(out.source.contains("BL_TRY(bl_slice__read_u8(b, &value->flags));"));
    assert!(out.header.contains("  f_t flags;\n"));
}

#[test]
fn varint_fields_use_varint_readers() {
    let out = generate_c("s", "message V { a: vu32, b: vi64, }").unwrap();
    assert!(out.source.contains("BL_TRY(bl_slice__read_vu32(b, &value->a));"));
    assert!(out.source.contains("BL_TRY(bl_slice__read_vi64(b, &value->b));"));
}

#[test]
fn byte_array_reads_in_bulk() {
    let out = generate_c("s", "message M { data: u8[], }").unwrap();
    assert!(out.source.contains("BL_TRY(bl_slice__read_u32(b, &value->data.size));"));
    assert!(out
        .source
        .contains("BL_TRY(bl_slice__read_exact(b, value->data.elems, value->data.size));"));
    assert!(out.header.contains("  BlArray(uint8_t) data;\n"));
}

#[test]
fn every_field_read_is_failure_checked() {
    let out = generate_c("s", "message M { a: u8, b: u16, c: u32, }").unwrap();
    let body_start = out.source.find(" {\n").unwrap();
    let body = &out.source[body_start + 3..];
    for line in body.lines() {
        if line.contains("read_") {
            assert!(
                line.trim_start().starts_with("BL_TRY("),
                "unchecked read: {line}"
            );
        }
    }
    assert_eq!(out.source.matches("BL_TRY(").count(), 3);
}

#[test]
fn same_frontier_orders_by_descending_symbol() {
    let out = generate_c("s", "message A { x: u8, }\nmessage B { y: u8, }").unwrap();
    let b_decl = out.header.find("typedef struct B b_t;").unwrap();
    let a_decl = out.header.find("typedef struct A a_t;").unwrap();
    assert!(b_decl < a_decl, "within one frontier, higher symbol ids come first");
}

#[test]
fn whole_artifacts_for_small_schema() {
    let out = generate_c("demo", "message A { x: u8, }").unwrap();
    let header = "#ifndef BINLANG_demo_H_\n\
                  #define BINLANG_demo_H_\n\
                  \n\
                  #include \"binlang.h\"\n\
                  \n\
                  typedef struct A a_t;\n\
                  \n\
                  struct A {\n  uint8_t x;\n};\n\
                  \n\
                  bl_result_t bl_demo__read_a(bl_slice_t *b, a_t *value);\n\
                  \n\
                  #endif // BINLANG_demo_H_\n";
    assert_eq!(out.header, header);
    let source = "#include \"demo.h\"\n\
                  \n\
                  bl_result_t bl_demo__read_a(bl_slice_t *b, a_t *value) {\n  \
                  BL_TRY(bl_slice__read_u8(b, &value->x));\n  \
                  return bl_result_ok;\n}\n";
    assert_eq!(out.source, source);
}

#[test]
fn shared_array_types_declare_once() {
    let src = "message A { xs: u8[], }\nmessage B { ys: u8[], }";
    let out = generate_c("s", src).unwrap();
    assert_eq!(out.header.matches("BlArray(uint8_t) xs;").count(), 1);
    assert_eq!(out.header.matches("BlArray(uint8_t) ys;").count(), 1);
}

#[test]
fn parse_error_propagates_through_generate() {
    let err = generate_c("s", "message A { x u8, }").unwrap_err();
    assert!(matches!(err, CompileError::Parse(_)));
}

#[test]
fn generate_file_matches_generate_c() {
    let src = "message Custom { x: u8, }\nmessage M { count: u32, items: Custom[count], }";
    let file = parse(src).unwrap();
    let from_tree = generate_file("s", &file).unwrap();
    let from_text = generate_c("s", src).unwrap();
    assert_eq!(from_tree.header, from_text.header);
    assert_eq!(from_tree.source, from_text.source);
}

#[test]
fn generate_file_reports_cycles() {
    let file = parse("message A { b: B, }\nmessage B { a: A, }").unwrap();
    let err = generate_file("s", &file).unwrap_err();
    assert!(matches!(err, CompileError::CyclicDependency(_)));
}
