//! A reader and a printer for symbolic expressions, with the numbers and the
//! expression tree they work on.
//!
//! `read::parser::parse` turns a text into expressions and
//! `print::printer::format` turns an expression into text;
//! `roundtrip::structure::lemma_round_trip` shows that the one undoes the
//! other. Integers and fractions are exact and of any size. Real numbers are
//! kept in decimal floating point, as they are written. Equality promotes
//! them to the nearest 64-bit binary float, which is found in integer
//! arithmetic; arithmetic on them is left to the caller.
pub mod data;
pub mod digits;
pub mod error;
pub mod eval;
pub mod print;
pub mod read;
pub mod repl;
pub mod roundtrip;
pub mod text;
