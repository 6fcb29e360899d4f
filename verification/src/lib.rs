//! A small command-driven virtual machine for a postfix (stack-based)
//! language: programs are fixed-arity named procedures built from integer
//! literals, built-in operators, and quoted command sequences that can be
//! invoked dynamically.

pub mod parse;
pub mod program;
pub mod semantics;
pub mod sexp;
pub mod top_level;

pub use parse::BuiltIn;
pub use parse::CmdModel;
pub use parse::Command;
pub use program::Program;
pub use program::Stack;
pub use program::StackValue;
pub use sexp::SExp;
pub use sexp::SExpModel;
pub use top_level::Response;
pub use top_level::TopLevel;
pub use top_level::TopLevelCommand;
