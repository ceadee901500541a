//! Encoding and decoding support for the LoongArch target of a run-time assembler.

pub mod bytes;
pub mod relocation;
pub mod loongarch;
pub mod reloc_laws;
pub mod registers;
pub mod text;
pub mod ast;
pub mod data;
pub mod instruction_format;
pub mod target;
pub mod debug;
pub mod opmap;
pub mod matching;
pub mod compiler;
pub mod commands;
pub mod dynamic;
pub mod agreement;
pub mod parser;
pub mod syntax;
