//! The shard algorithm: the shard types, cutting and sealing, opening and reassembly.

pub mod decrypt;
pub mod encrypt;
pub mod models;
