//! Markdown tokenizing and span styling for the chat display.

pub mod parser;
pub mod tokenizer;
