pub mod context;
pub mod parser;
pub mod state;
pub mod tokenizer;
