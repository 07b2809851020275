//! Tangling and untangling of Markdown documents: fenced code blocks become
//! source files, and a source file becomes a Markdown document with one
//! fenced block.

pub mod block;
pub mod config;
pub mod extract;
pub mod laws;
pub mod paths;
pub mod registry;
pub mod text;
pub mod untangle;
pub mod writer;
