pub mod binary;
pub mod divisors;
pub mod expression;
pub mod function;
pub mod integer;
pub mod number;
pub mod rational;
pub mod reals;
