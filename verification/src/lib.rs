//! A small compiler front end: lexer, parser, name resolution, type checking
//! and C code generation for the Cleo language.
pub mod ast;
pub mod checker;
pub mod codegen;
pub mod context;
pub mod defkinds;
pub mod driver;
pub mod gather;
pub mod ir;
pub mod layout;
pub mod lexer;
pub mod lower;
pub mod methods;
pub mod outline;
pub mod parse;
pub mod parse_decl;
pub mod parse_expr;
pub mod parse_type;
pub mod registry;
pub mod symbols;
pub mod text;
pub mod token;
pub mod tokenstream;
pub mod typed_ast;
pub mod types;
pub mod typing;
