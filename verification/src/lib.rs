//! Cryptographic identity primitives for a blockchain-style client: a
//! Base58 codec built on verified long division, a SHA-256 hash chain,
//! secp256k1 key generation, signing and verification, and Base58 address
//! derivation, with numbered error categories.

#![allow(unused_imports)]
use vstd::prelude::*;

pub mod base58;
pub mod ecdsa;
pub mod error_num;
pub mod hashing;
pub mod radix;
