//! Splitting a secret into encrypted, redundant shards and putting it back together.
//!
//! A text is cut into runs of bytes, each run is kept in several copies as shards, each
//! shard is sealed with a key derived from a passphrase, and the sealed shards are
//! packaged as Base64 for transport. The reverse path unpacks and opens the shards and
//! joins the texts of the first complete run of shard numbers it finds.

pub mod algorithm;
pub mod b64;
pub mod cli;
pub mod commands;
pub mod crypto;
pub mod hashes;
pub mod laws;
pub mod steg;
pub mod text;
