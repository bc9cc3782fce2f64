use vstd::prelude::*;

pub mod ansi;
pub mod args;
pub mod compiler;
pub mod digits;
pub mod fasm_boilerplate;
pub mod input;
pub mod instruction_handler;
pub mod interpreter;
pub mod lexer;
pub mod parser;
pub mod token;
pub mod tokens;

pub use args::Args;
pub use args::RunMode;
pub use compiler::Compiler;
pub use input::Input;
pub use instruction_handler::Error;
pub use instruction_handler::InstructionHandler;
pub use interpreter::Interpreter;
pub use lexer::Lexer;
pub use parser::Parser;
pub use token::Token;
pub use tokens::Tokens;

verus! {

} // verus!
