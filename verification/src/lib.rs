//! Core engine of a terminal typing tutor: key-to-finger mappings, random
//! selection of practice words, a rolling window of upcoming characters, the
//! per-character attempt loop, and session statistics.

pub mod align;
pub mod attempter;
pub mod chunk;
pub mod hand;
pub mod practice_set;
pub mod stats;
pub mod typed_chars;
