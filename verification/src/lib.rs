//! Tools that bring the state of a live chain into a raw chain
//! specification: storage entries are written as a hex snapshot, the
//! snapshot is merged into the `top` object of a chain specification, and the
//! result is padded to the size that the consuming tool asks for.
//!
//! The library decides and computes; it reads and writes no file. Documents
//! come in as lines or bytes and go out the same way, whole or one line at a
//! time.

pub mod hex_text;
pub mod line;
pub mod merge_into_raw;
pub mod pad_with_spaces;
pub mod parse;
pub mod prefix;
pub mod snap_2_json;
pub mod to_hex_snap;
pub mod to_json;
pub mod views;
