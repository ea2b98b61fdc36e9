//! Structural reader for PDF files.
//!
//! The reader locates the structural keywords of a PDF file in a single pass,
//! then decodes the header, the cross-reference table, the trailer dictionary
//! and the byte ranges of the indirect objects. Each decoder is specified over
//! the raw bytes and proved against that specification.
pub mod utils;
pub mod characters;
pub mod structure;
pub mod scanner;
pub mod cross_ref_table;
pub mod text;
pub mod trailer;
pub mod header;
pub mod objects;
pub mod read;
