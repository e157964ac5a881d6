//! A bloom filter: a fixed-size bit array answering "might this item have
//! been inserted?" with no false negatives.
//!
//! Items are byte sequences. Each operation derives `k` positions in the bit
//! array from a single pluggable hash capability by varying its seed over
//! `0..k`. Deletion is not supported: bits only ever go from false to true.

mod bits;
pub mod filter;
pub mod hasher;
pub mod params;

pub use filter::{BloomError, BloomFilter};
pub use hasher::{BloomHasher, Murmur3};
pub use params::optimal_hash_functions;
