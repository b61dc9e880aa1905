//! A compiler and virtual machine for a small shading language.
//!
//! Source text is scanned into tokens, parsed into a syntax tree, resolved
//! (names bound, types checked), and compiled into a flat bytecode program,
//! which a purpose-built stack machine then executes against a byte stack
//! with an explicit call/return convention.

pub mod ast;
pub mod scanner;
pub mod parser;
pub mod builtins;
pub mod compiler;
pub mod numerics;
pub mod vm;
