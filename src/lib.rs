//! Decoding of the Lisp-like text that EmacSQL stores in its columns, and the
//! typed extraction of decoded values.
pub mod classify;
pub mod text;
pub mod lisp;
pub mod grammar;
pub mod parser;
pub mod laws;
pub mod value;
pub mod utils;
