//! A schema compiler for binary wire formats: parses message and bitfield
//! definitions, resolves them into a type registry, orders them so every
//! type precedes its dependents, and emits C declarations and
//! deserialization functions.

pub mod ast;
pub mod error;
pub mod gen_c;
pub mod hir;
pub mod lexer;
pub mod order;
pub mod parser;
pub mod symbols;
pub mod text;

pub use gen_c::generate_c;
pub use lexer::Span;
pub use lexer::Token;
pub use lexer::TokenKind;
