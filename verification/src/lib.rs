//! An offline reference viewer's core: a section parser that splits a
//! delimiter-structured document into titled sections, a lexical tokenizer
//! that classifies a text span into exact covering tokens, and a renderer
//! that styles tokens for a terminal.  The manager composes the three over a
//! fixed set of embedded documents.

pub mod manager;
pub mod render;
pub mod section;
pub mod text;
pub mod token;

pub use manager::get_sheet_content;
pub use section::parse_content;
