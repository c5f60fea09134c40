//! Reading, checking and rewriting the chunk stream of PNG files.

pub mod args;
pub mod bytes;
pub mod chunk;
pub mod chunk_type;
pub mod commands;
pub mod error;
pub mod png;
mod text;
