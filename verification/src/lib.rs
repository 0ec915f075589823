//! Streaming parser core for JSON tool calls wrapped by text markers.

pub mod bytes;
pub mod chars;
pub mod config;
pub mod error;
pub mod event;
pub mod output;
pub mod step;
pub mod json;
pub mod laws;
pub mod lex;
pub mod parser;
pub mod sequence;
pub mod state;
pub mod object;
pub mod string;
pub mod text;
