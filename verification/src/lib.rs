//! A Swift frontend: lexer, parser, semantic checks, tree dumps, manifest
//! reader and project loader, with the Foundation value conversions.
pub mod builder;
pub mod decode;
pub mod dump;
pub mod foundation;
pub mod lex_spec;
pub mod lexer;
pub mod parser;
pub mod precedence;
pub mod project;
pub mod resolve;
pub mod sema;
pub mod session;
pub mod symbols;
pub mod syntax;
pub mod text;
