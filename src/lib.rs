//! Semantic decoding of Gerber (RS-274X) syntax trees into typed commands.
//!
//! A grammar engine turns source text into a tree of named nodes
//! ([`SyntaxNode`]); this crate walks that tree in document order and decodes
//! every statement into a [`Command`], all or nothing:
//!
//! - `number`: integer and exact decimal tokens;
//! - `fields`: the value tokens of a statement, by position;
//! - `aperture`: aperture templates and aperture macro bodies;
//! - `statement`: one statement node into one command;
//! - `parser`: the tree walk, regions, and the entry points;
//! - `emit`: canonical re-emission of a command sequence as a tree;
//! - `laws`: properties of the decoder, proved.
pub mod aperture;
pub mod command;
pub mod emit;
pub mod error;
pub mod fields;
pub mod laws;
pub mod number;
pub mod parser;
pub mod statement;
pub mod syntax;

pub use command::Command;
pub use error::GerberError;
pub use parser::{Gerber, GerberParser};
pub use syntax::{Rule, SyntaxNode};
