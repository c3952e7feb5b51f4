pub mod document;
pub mod node;
pub mod parser;
pub mod tag;
pub mod text;
