//! Gobol: lexer, diagnostics, symbol tables, intermediate representation and
//! type layout for a small statically typed language, with their contracts.

pub mod token;
pub mod text;
pub mod lexer;
pub mod error;
pub mod table;
pub mod ast;
pub mod environment;
pub mod ir;
pub mod builder;
pub mod cranelift;
pub mod linking;
pub mod toolchain;
pub mod semantic_analyzer;
