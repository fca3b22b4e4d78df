//! What the library has from other crates, as functions on plain values.

pub mod address;
pub mod clock;
pub mod digest;
pub mod json;
pub mod pattern;
pub mod std_text;
