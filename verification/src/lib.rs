//! Structural refactorings for GDScript sources: the text and syntax-tree
//! logic behind `gd refactor`, with its contracts proved by Verus.
pub mod assoc;
pub mod edits;
pub mod parse;
pub mod refactor;
pub mod syntax;
pub mod text;
