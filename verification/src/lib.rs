pub mod text;
pub mod token;
pub mod ast;
pub mod code;
pub mod object;
pub mod lexer;
pub mod eval;
pub mod intrinsic;
pub mod compiler;
pub mod vm;
pub mod parser;
pub mod message;
pub mod laws;
pub mod agreement;
pub mod roundtrip;
