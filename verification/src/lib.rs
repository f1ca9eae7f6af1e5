//! A hierarchical secret store: cleartext secrets are organized as
//! slash-separated paths and persisted so that every path segment and every
//! secret body is individually enciphered — the on-disk directory tree itself
//! is the encrypted index, with no separate metadata file.
//!
//! The crate holds the cryptographic transform layer, the path-segment codec,
//! and the tree reconstruction and search engine built on top of it, each
//! with a verified contract. Callers supply a passphrase and a storage root;
//! the crate derives the key, and every operation takes the immutable
//! encryption parameters by reference. Filesystem access itself stays with
//! the caller, which hands in plain values and performs the decided actions.

pub mod builder;
pub mod crypto;
pub mod errors;
pub mod rank;
pub mod store;
pub mod text;
pub mod transform;
pub mod tree;
