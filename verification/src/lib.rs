//! A verified assembler for the Hack machine language.
pub mod assembler;
pub mod code;
pub mod parser;
pub mod symbol_table;
pub mod text;
