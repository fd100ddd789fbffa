//! Lexical front-end of a specification language: named UTF-8 texts, byte
//! ranges and regions over them, candidate cursors that cut a text into
//! lexical units, a renderer of line-accurate diagnostic excerpts, and a
//! reader of the character-to-glyph table of OpenType fonts.

pub mod utf8;
pub mod text;
pub mod cursor;
pub mod token;
pub mod scanner;
pub mod lexer;
pub mod excerpt;
pub mod span;
pub mod triple;
pub mod font;
pub mod error;
