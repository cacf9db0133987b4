pub mod environment;
pub mod error;
pub mod eval;
pub mod evaluator;
pub mod expr_evaluator;
