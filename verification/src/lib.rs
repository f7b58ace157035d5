//! A brute-force proof-of-work search: given a base string, find a suffix of
//! 7-bit ASCII bytes such that the SHA-1 digest of (base + suffix) starts
//! with a requested number of zero hex digits.
//!
//! The candidate suffixes are the base-128 encodings of the integers in a
//! bounded candidate space; the space is sized from the difficulty and split
//! into contiguous per-worker ranges.  A small dice-game simulator's pure
//! step logic lives in its own module.

pub mod encoding;
pub mod hashing;
pub mod orchard;
pub mod partition;
pub mod search;
pub mod space;
