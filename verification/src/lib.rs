//! A compiler for the CyborgPL language, from source text to a list of instructions for LLVM.
//!
//! Each stage is given twice: as mathematics, which says what the stage means, and as code, which
//! is proved to do just that.

// Text and numbers.
pub mod text;
pub mod numeral;
pub mod numw;

// From characters to a program.
pub mod ast;
pub mod token;
pub mod lexer;
pub mod grammar;
pub mod parser;

// What is wrong with a program.
pub mod fold;
pub mod typing;
pub mod typecheck;

// From a program to instructions.
pub mod ir;
pub mod emit;
pub mod lower;
pub mod layout;
pub mod codegen;
pub mod compile;

// All stages in a row, and the settings of a program.
pub mod driver;
pub mod settings;

// What holds of the stages, alone and together.
pub mod lexer_laws;
pub mod lexer_shift;
pub mod grammar_laws;
pub mod spelling;
pub mod reading;
pub mod wording;
pub mod wellformed;
pub mod shapes;
pub mod accepted;
pub mod scoping;
pub mod soundness;
pub mod wellbuilt;
pub mod ownership;
pub mod memory;
pub mod confined;
pub mod machine;
pub mod control;
pub mod freeing;
pub mod copies;
pub mod branching;
pub mod variables;
pub mod floats;
pub mod evaluation;
pub mod assignment;
pub mod calls;
pub mod bigs;
pub mod conversion;
pub mod showing;
pub mod joining;
pub mod operands;
pub mod laws;
