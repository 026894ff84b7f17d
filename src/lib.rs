//! File encryption with a versioned, self-describing header.
//!
//! The library holds the protocol: the registry of strategies per format
//! version, the header wire format, key stretching, the cipher chain, the
//! integrity checksum and the per-file encrypt/decrypt steps. Reading and
//! writing files is left to the caller.
use vstd::prelude::*;

pub mod checksum;
pub mod compress;
pub mod config;
pub mod encoding;
pub mod errors;
pub mod hash;
pub mod header;
pub mod key;
pub mod mockfile;
pub mod pipeline;
pub mod salt;
pub mod shred;
pub mod source;
pub mod strategy;
pub mod symmetric;

verus! {

} // verus!
