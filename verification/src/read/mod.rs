pub mod error;
pub mod expr_reader;
pub mod grammar;
pub mod parser;
pub mod read;
pub mod reader;
pub mod repl_text_reader;
pub mod tokens;
