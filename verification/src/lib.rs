//! Chunk-level codec for PNG files: chunk type codes, CRC-checked chunks and
//! the container that holds them, each with a mathematical model and
//! machine-checked contracts.

pub mod text;
pub mod chunk_type;
pub mod chunk;
pub mod png;
pub mod cli;
pub mod commands;
