//! A Tip5 sponge hash over the prime field of order 2^64 - 2^32 + 1.
//!
//! Field elements are kept in Montgomery form; the permutation works on their raw words. Every
//! function states its result over a model of those words, and the hash functions are pinned
//! to the permutation's definition round by round.
pub mod b_field_element;
pub mod digest;
pub mod sponge;
pub mod tip5;

pub use b_field_element::BFieldElement;
pub use digest::Digest;
pub use sponge::{Domain, Sponge, RATE};
pub use tip5::{Tip5, MDS_MATRIX_FIRST_COLUMN, NUM_ROUNDS, NUM_SPLIT_AND_LOOKUP, STATE_SIZE};
