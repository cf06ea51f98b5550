use vstd::prelude::*;

pub mod state;
pub mod source;
pub mod position;
pub mod helper;
pub mod comment;
pub mod lexer;
pub mod import;
pub mod export;
pub mod parse;
pub mod jsx;
pub mod f;
