//! A find-and-replace engine: a literal or regular-expression pattern and a
//! replacement template, applied to whole texts.

pub mod source;
pub mod text;
pub mod replacer;
