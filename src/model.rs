pub mod expression;
pub mod function;
pub mod maps;
pub mod source;
