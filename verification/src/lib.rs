//! Brute-force search support for Bitcoin private keys whose derived
//! pay-to-public-key-hash address starts with a fixed textual prefix.
//!
//! The pipeline is: generate a fixed-length Base58 candidate string from a
//! seeded xorshift128 stream, decode it as a base-58 big integer into a
//! 32-byte scalar, derive the compressed-key legacy address for that scalar,
//! and test the address against the target prefix.

pub mod address;
pub mod base58;
pub mod hexcode;
pub mod nums;
pub mod rng;
pub mod search;
pub mod sink;
