pub mod error;
pub mod text;
pub mod types;
pub mod parser;
pub mod select;
pub mod plan;
pub mod render;
