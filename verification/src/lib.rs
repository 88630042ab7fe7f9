//! Line-ending handling for formatted Typst source: detecting whether an input
//! consistently uses CRLF, and writing formatter output with the detected ending.
pub mod laws;
pub mod line_endings;
pub mod newlines;
pub mod string_builder;
pub mod utf8_newlines;
