//! A character-stream matcher for a small pattern language: literal
//! characters, `[...]` character classes and `-` capture markers, matched one
//! input character at a time, with captured spans collected per category.

pub mod automaton;
pub mod matcher;
pub mod pattern;

pub use automaton::{Condex, CondexState, Span};
pub use matcher::{resolve_group, CondexBuilder, TokenKind};
pub use pattern::{compile, CondexError, Element};
