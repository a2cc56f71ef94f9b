//! silt: the verified core of a Lua-dialect interpreter — lexer, pattern matcher,
//! tables, bytecode chunks, scopes and the formatter used by the language server.

pub mod chunk;
pub mod code;
pub mod compiler;
pub mod environment;
pub mod error;
pub mod function;
pub mod lexer;
pub mod lsp;
pub mod parser;
pub mod snippet;
pub mod standard;
pub mod lua;
pub mod lua_pattern;
pub mod table;
pub mod text;
pub mod token;
pub mod types;
pub mod userdata;
pub mod value;
