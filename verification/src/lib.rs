//! A static checker for a small ca65-style assembly dialect.
//!
//! The pipeline runs strictly one way: source bytes are lexed into
//! positioned tokens, parsed into a span-annotated statement sequence,
//! scanned by two order-independent rules (unreferenced labels and
//! decimal-literal memory addresses), and the findings are rendered as a
//! positioned textual report.

pub mod ast;
pub mod digits;
pub mod lexer;
pub mod parser;
pub mod rules;
pub mod render;
pub mod pipeline;
