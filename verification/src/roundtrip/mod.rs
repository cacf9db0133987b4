pub mod local;
pub mod normal;
pub mod numbers;
pub mod runs;
pub mod structure;
pub mod tokens;
