//! Verified core of a Japanese morphological-analysis front end: decoding of
//! the library's configuration codes, the length-prefixed binary input
//! format, splitting texts into lines, and rendering analysis results as JSON
//! or as plain text.
pub mod analysis;
pub mod bytes;
pub mod config;
pub mod framing;
pub mod json;
pub mod laws;
pub mod output;
pub mod output_laws;
pub mod raw_input;
pub mod text;
