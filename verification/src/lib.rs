pub mod compute;
pub mod constant;
pub mod function;
pub mod helper;
pub mod parser;
pub mod table;
pub mod text;
pub mod turtle;
