pub mod eval;
pub mod score;
