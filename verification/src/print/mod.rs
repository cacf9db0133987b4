pub mod error;
pub mod print;
pub mod printer;
pub mod repl_printer;
