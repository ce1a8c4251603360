//! Verified core of the Original Works protocol tooling: the EIP-4844 blob
//! codec that packs compressed DDEX messages into a KZG blob, and the
//! decisions of the data provider and of the validator node.

pub mod blob;
pub mod chain;
pub mod decoder;
pub mod deflate;
pub mod encoder;
pub mod errors;
pub mod hex;
pub mod kzg;
pub mod laws;
pub mod messages;
pub mod node;
pub mod path;
pub mod provider;
pub mod text;
pub mod xml;

use vstd::prelude::*;

verus! {

/// Number of bytes in one EIP-4844 blob.
pub const BYTES_PER_BLOB: usize = 131072;

/// Number of bytes in one field element of a blob.
pub const BYTES_PER_FIELD_ELEMENT: usize = 32;

/// Number of payload bytes carried by one field element; its first byte is a
/// marker (1 on the last field element of a message, 0 otherwise).
pub const RAW_CHUNK_SIZE: usize = 31;

} // verus!
