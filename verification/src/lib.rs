//! A library that turns a regular-expression string into either a
//! box-and-line "railroad" syntax diagram or a structured natural-language
//! description.
//!
//! The pipeline is: raw text -> [`parser::RegExParser`] -> [`ast::RegEx`] ->
//! either [`railroad::renderer::RailroadRenderer`] (diagram rows) or
//! [`text::TextRenderer`] (description lines plus highlight spans).

pub mod ast;
pub mod error;
pub mod extract;
pub mod parser;
pub mod railroad;
pub mod strings;
pub mod text;
