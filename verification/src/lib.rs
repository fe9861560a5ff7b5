//! A verified front end for the Nexus language, its language server and its runtime library.

pub mod ast;
pub mod lexer;
pub mod lexer_laws;
pub mod lsp;
pub mod nxc_cache;
pub mod offsets;
pub mod parser;
pub mod runtime;
pub mod stdlib;
pub mod table;
pub mod text;
pub mod tree;
pub mod typecheck;
pub mod types;
