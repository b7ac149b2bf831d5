//! Byte-accurate text transformations behind two small command-line tools:
//! a concatenating one that can number lines, and a truncating one that
//! keeps the first lines or bytes of each input.
//!
//! Everything here works on values in memory. A caller opens and reads the
//! inputs, hands over what it read, and writes out what it gets back.

pub mod ascii;
pub mod catr;
pub mod decimal;
pub mod error;
pub mod headr;
pub mod lines;
pub mod number;
pub mod orchestrate;
pub mod parse;
pub mod source;
pub mod truncate;
