//! Parsing of a single content line, `NAME[;PARAM=value[,value]*]*:VALUE`, from raw bytes.
//!
//! The scanner in [`scanner`] is proved equal, on every byte sequence, to the grammar that
//! [`grammar`] states over byte positions; [`error`] holds the located error model.
pub mod error;
pub mod grammar;
pub mod encoding;
pub mod located;
pub mod scanner;
pub mod reference;
pub mod checks;


