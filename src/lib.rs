//! CHIP-8 tools: a virtual machine (`model`, `interpreter`, `rng`, with the
//! laws it obeys in `laws`), an assembler (`parse`, `expr`, `instructions`,
//! `directives`, `misc`, `assembler`) and a disassembler (`disassembler`,
//! `program`, `text`).

pub mod assembler;
pub mod directives;
pub mod disassembler;
pub mod expr;
pub mod instructions;
pub mod interpreter;
pub mod laws;
pub mod misc;
pub mod model;
pub mod parse;
pub mod program;
pub mod rng;
pub mod text;
