//! Semantic syntax highlighting.
//!
//! Given a document tree whose name-resolution facts have been filled in by
//! the host, the library walks the tree and produces an ordered sequence of
//! tagged text ranges: which token is a keyword, which identifier defines a
//! local binding, which ranges belong to embedded fixture source, and so on.

pub mod bytes;
pub mod highlight;
pub mod kind;
pub mod line_index;
pub mod shadow;
pub mod syntax;
pub mod text_edit;
pub mod tokens;
pub mod tags;
pub mod text_range;
