//! The values that travel through the library: plain shards, encrypted shards, and errors.

use vstd::prelude::*;

verus! {

/// One piece of the secret: the Base64 text of a run of its bytes, the position of that
/// run among all runs (`id`, counted from 1), which copy of the run this is
/// (`replica_number`, counted from 1), and the number of runs the secret was asked to be
/// split into.
#[derive(Clone, Debug)]
pub struct Shard {
    pub id: usize,
    pub data: String,
    pub replica_number: usize,
    pub total_shards: usize,
}

/// A shard as a mathematical value.
pub struct ShardView {
    pub id: nat,
    pub data: Seq<char>,
    pub replica_number: nat,
    pub total_shards: nat,
}

impl View for Shard {
    type V = ShardView;

    open spec fn view(&self) -> ShardView {
        ShardView {
            id: self.id as nat,
            data: self.data@,
            replica_number: self.replica_number as nat,
            total_shards: self.total_shards as nat,
        }
    }
}

/// A sealed shard: the Base64 text of the ciphertext and the Base64 text of the nonce it
/// was sealed under.
#[derive(Clone, Debug)]
pub struct EncryptedData {
    pub encrypted_data: String,
    pub nonce: String,
}

/// The error of the Base64 decoder.
#[verifier::external_type_specification]
#[verifier::external_body]
pub struct ExDecodeError(base64::DecodeError);

/// The error of the UTF-8 check on owned bytes.
#[verifier::external_type_specification]
#[verifier::external_body]
pub struct ExFromUtf8Error(std::string::FromUtf8Error);

/// Why an operation of the library was refused.
#[derive(Debug)]
pub enum HorcruxError {
    /// The secret has fewer bytes than the number of shards asked for.
    TooManyShards,
    /// There was nothing to put back together.
    NoShards,
    /// A text that should be Base64 is not a canonical padded Base64 encoding.
    Base64(base64::DecodeError),
    /// Bytes that should be UTF-8 text are not.
    Utf8(std::string::FromUtf8Error),
    /// A ciphertext did not verify under the key and nonce.
    DecryptionFailed,
}

} // verus!
