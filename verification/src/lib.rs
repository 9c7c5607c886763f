//! A toy instruction-set machine: a textual assembly language for an
//! eight-register architecture is parsed into a structured program, symbolic
//! labels are resolved to instruction addresses, and the resolved program is
//! executed by a fetch-decode-execute engine over a small register file.

pub mod emulator;
pub mod isa;
pub mod parser;
pub mod regfile;
pub mod resolver;
