//! Line-oriented typed token reading: one line of text is trimmed, split into
//! tokens and every token is decoded into a value of the requested type.

pub mod chars;
pub mod error;
pub mod input;
pub mod laws;
pub mod line;
pub mod number;
pub mod tokens;
pub mod value;
