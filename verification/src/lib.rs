//! Template-driven renaming of TV episode files.
//!
//! The library turns a template string into a sequence of tokens, renders
//! per-episode destination paths from those tokens, infers season numbers
//! from directory names, and orders directory listings deterministically.
//! Filesystem reads and metadata-service lookups happen outside the library;
//! their results are handed in as plain values.

pub mod paths;
pub mod renderer;
pub mod scanner;
pub mod text;
pub mod tokenizer;
