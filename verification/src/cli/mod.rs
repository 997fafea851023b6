pub mod args;
pub mod parser;
