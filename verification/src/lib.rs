//! Extraction of top-level type declarations from C-family source text and
//! projection of the extracted constructs into a text template.
pub mod cli;
pub mod documentation;
pub mod parser;
pub mod text;
