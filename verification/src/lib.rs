//! A Wordle-style solving engine.
//!
//! Given accumulated positional feedback from prior guesses against an
//! unknown five-letter solution, the library computes per-position feedback
//! for a guess, decides which candidate words remain consistent with the
//! feedback seen so far, narrows a candidate set accordingly, and ranks
//! candidates by popularity or by how much a guess would be expected to
//! shrink the remaining set.

pub mod entropy;
pub mod feedback;
pub mod filter;
pub mod matcher;
pub mod rank;
