//! A minimal scripting-language runtime: a lexer turns source text into
//! tokens, a single-pass parser compiles a restricted statement grammar into a
//! compact bytecode unit, and a register-based virtual machine executes that
//! unit against a mutable global environment.

pub mod bytecode;
pub mod lexer;
pub mod lvalue;
pub mod parser;
pub mod text;
pub mod vm;
