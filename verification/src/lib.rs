//! An XML tree with exact source positions and a compact binary form.
//!
//! Text is parsed into a tree whose strings are spans of the source. The
//! tree exists in a borrowed and an owned form, and either form can be
//! written to and read back from a flat byte stream.
pub mod arena;
pub mod builder;
pub mod document;
pub mod error;
pub mod laws;
pub mod node;
pub mod strspan;
pub mod to_bin;
pub mod to_xml;
pub mod token;
pub mod utf8;

pub use arena::DocumentSourceRef;
pub use document::{DeclarationNode, Document, OwnedDeclarationNode, OwnedDocument};
pub use strspan::{StrSpan, StringSpan};
