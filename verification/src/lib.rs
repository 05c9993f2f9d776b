//! A small compiler and the machine that runs what it compiles.
//!
//! The language has integers, real numbers, variables, lists of a fixed
//! length, arithmetic and comparisons, one statement to a line. A text goes
//! through the `scanner` (text to tokens), the `parser` (tokens to one tree or
//! one error for each line, as the `grammar` says), the code generator
//! (`codegen`: a tree to instruction lines of the `isa`) and the machine
//! (`vm`), which runs the lines and keeps a log of what they print.
//!
//! The library computes with integers only. A real number is a `Real`: a bit
//! pattern with its renderings, made by the caller. Where real numbers are to
//! be read from text or combined, the library asks the caller.

pub mod ast;
pub mod codegen;
pub mod dict;
pub mod grammar;
pub mod iloc;
pub mod isa;
pub mod lines;
pub mod number;
pub mod parser;
pub mod pipeline;
pub mod rules;
pub mod scanner;
pub mod symbol_table;
pub mod text;
pub mod theorems;
pub mod vm;

pub use ast::{Expr, ParseError, ParseResult, Position};
pub use codegen::{generate_assembly, RegisterAllocator};
pub use dict::Dict;
pub use iloc::parse_iloc;
pub use number::Real;
pub use parser::{Parser, TokenInfo};
pub use pipeline::generate_code;
pub use scanner::{run_scanner, tokenize, tokenize_vector, Token};
pub use symbol_table::{SymbolTable, SymbolTableEntry, VariableType};
pub use vm::{Demand, Fault, Step, Value, VM};
