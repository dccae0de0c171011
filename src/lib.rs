//! A small line-oriented text editor: a parser turning command lines into
//! operations, and an undoable character buffer that applies them.

pub mod chars;
pub mod lexical;
pub mod ops;
pub mod text;
