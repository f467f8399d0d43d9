//! Unpacking transported shards, opening them, and putting the secret back together.

use vstd::prelude::*;
use vstd::utf8::{decode_utf8, valid_utf8};
use vstd::string::StringExecFns;
use crate::b64::{b64_decoded, b64_decodes, decode_base64, lemma_decode_encode};
use crate::crypto::{derive_key, opening, reports, secret_key, try_open_shard, Opening};
use crate::algorithm::encrypt::views;
use crate::algorithm::models::{EncryptedData, HorcruxError, Shard, ShardView};
use crate::text::string_from_utf8;

verus! {

/// Turns each transported package back into the bytes it carries.
///
/// Refused at the first package that is not Base64 text.
pub fn unpackage(data: Vec<String>) -> (r: Result<Vec<Vec<u8>>, HorcruxError>)
    ensures
        r is Ok <==> forall|i: int| 0 <= i < data.len() ==> b64_decodes(#[trigger] data[i]@),
        r matches Ok(v) ==> v.len() == data.len() && forall|i: int|
            0 <= i < data.len() ==> (#[trigger] v[i])@ == b64_decoded(data[i]@),
        r matches Err(e) ==> e is Base64,
{
    let mut out: Vec<Vec<u8>> = Vec::new();
    let mut i: usize = 0;
    while i < data.len()
        invariant
            i <= data.len(),
            out.len() == i,
            forall|j: int| 0 <= j < i ==> b64_decodes(#[trigger] data[j]@),
            forall|j: int| 0 <= j < i ==> (#[trigger] out[j])@ == b64_decoded(data[j]@),
        decreases data.len() - i,
    {
        match decode_base64(data[i].as_str()) {
            Ok(bytes) => {
                proof {
                    lemma_decode_encode(bytes@);
                }
                out.push(bytes);
            },
            Err(e) => {
                return Err(HorcruxError::Base64(e));
            },
        }
        i = i + 1;
    }
    Ok(out)
}

/// Every shard before position `i` opens.
pub open spec fn opened_before(shards: Seq<EncryptedData>, key: Seq<u8>, i: int) -> bool {
    forall|j: int| 0 <= j < i ==> (#[trigger] opening(shards[j], key)) is Opened
}

/// Opening the shards in turn, none is reached whose nonce is Base64 of the wrong length.
pub open spec fn nonces_fit(shards: Seq<EncryptedData>, key: Seq<u8>) -> bool {
    forall|i: int|
        0 <= i < shards.len() && opened_before(shards, key, i) ==> !(#[trigger] opening(
            shards[i],
            key,
        ) is BadNonce)
}

/// Opens each shard in turn under the key of `key`; `None` where a shard is reached whose
/// nonce is Base64 text of other than 24 bytes.
pub fn try_decrypt_shards(shards: &Vec<EncryptedData>, key: &str) -> (r: Option<Result<Vec<Vec<u8>>, HorcruxError>>)
    ensures
        r is None <==> !nonces_fit(shards@, secret_key(key@)),
        r matches Some(x) ==> (x is Ok <==> opened_before(shards@, secret_key(key@), shards.len() as int)),
        r matches Some(Ok(v)) ==> v.len() == shards.len() && forall|i: int|
            0 <= i < shards.len() ==> opening(shards[i], secret_key(key@)) == Opening::Opened(
                (#[trigger] v[i])@,
            ),
        r matches Some(Err(e)) ==> exists|i: int|
            0 <= i < shards.len() && opened_before(shards@, secret_key(key@), i) && reports(
                #[trigger] opening(shards[i], secret_key(key@)),
                e,
            ),
{
    let ghost k = secret_key(key@);
    let mut out: Vec<Vec<u8>> = Vec::new();
    if shards.len() == 0 {
        return Some(Ok(out));
    }
    let secret = derive_key(key);
    let mut i: usize = 0;
    while i < shards.len()
        invariant
            i <= shards.len(),
            out.len() == i,
            secret@ == k,
            secret@.len() == 32,
            k == secret_key(key@),
            opened_before(shards@, k, i as int),
            forall|j: int| 0 <= j < i ==> opening(shards[j], k) == Opening::Opened((#[trigger] out[j])@),
        decreases shards.len() - i,
    {
        match try_open_shard(&shards[i], secret.as_slice()) {
            None => {
                proof {
                    assert(!nonces_fit(shards@, k)) by {
                        assert(opening(shards@[i as int], k) is BadNonce);
                    }
                }
                return None;
            },
            Some(Err(e)) => {
                proof {
                    assert(nonces_fit(shards@, k)) by {
                        assert forall|j: int|
                            0 <= j < shards.len() && opened_before(shards@, k, j) implies !(#[trigger] opening(
                            shards[j],
                            k,
                        ) is BadNonce) by {
                            if j > i {
                                assert(opening(shards[i as int], k) is Opened);
                            }
                        }
                    }
                    assert(!opened_before(shards@, k, shards.len() as int)) by {
                        assert(!(opening(shards[i as int], k) is Opened));
                    }
                }
                return Some(Err(e));
            },
            Some(Ok(m)) => {
                out.push(m);
            },
        }
        i = i + 1;
    }
    Some(Ok(out))
}

/// Opens each shard in turn under the key of `key`.
///
/// Refused at the first shard whose nonce or ciphertext is not Base64 text, or whose
/// ciphertext does not verify.
pub fn decrypt_shards(shards: Vec<EncryptedData>, key: &str) -> (r: Result<Vec<Vec<u8>>, HorcruxError>)
    requires
        nonces_fit(shards@, secret_key(key@)),
    ensures
        r is Ok <==> opened_before(shards@, secret_key(key@), shards.len() as int),
        r matches Ok(v) ==> v.len() == shards.len() && forall|i: int|
            0 <= i < shards.len() ==> opening(shards[i], secret_key(key@)) == Opening::Opened(
                (#[trigger] v[i])@,
            ),
        r matches Err(e) ==> exists|i: int|
            0 <= i < shards.len() && opened_before(shards@, secret_key(key@), i) && reports(
                #[trigger] opening(shards[i], secret_key(key@)),
                e,
            ),
{
    match try_decrypt_shards(&shards, key) {
        Some(r) => r,
        None => {
            proof {
                assert(false);
            }
            Err(HorcruxError::DecryptionFailed)
        },
    }
}


/// The shards kept when looking through `s` for shard number `next`, then `next + 1`, and
/// so on: a shard is kept when its number is the one looked for.
pub open spec fn pick_from(s: Seq<ShardView>, next: nat) -> Seq<ShardView>
    decreases s.len(),
{
    if s.len() == 0 {
        seq![]
    } else if s[0].id == next {
        seq![s[0]] + pick_from(s.drop_first(), next + 1)
    } else {
        pick_from(s.drop_first(), next)
    }
}

/// What putting the text of a run of shards together comes to.
pub enum Reassembly {
    /// Every shard's data is Base64 of UTF-8 text: the texts one after the other.
    Text(Seq<char>),
    /// The first shard that fails has data that is not Base64 text.
    BadBase64,
    /// The first shard that fails carries bytes that are not UTF-8.
    BadUtf8,
}

/// Puts the texts that the shards carry together, in order, stopping at the first shard
/// that fails.
pub open spec fn reassemble(picked: Seq<ShardView>) -> Reassembly
    decreases picked.len(),
{
    if picked.len() == 0 {
        Reassembly::Text(seq![])
    } else if !b64_decodes(picked[0].data) {
        Reassembly::BadBase64
    } else if !valid_utf8(b64_decoded(picked[0].data)) {
        Reassembly::BadUtf8
    } else {
        match reassemble(picked.drop_first()) {
            Reassembly::Text(t) => Reassembly::Text(decode_utf8(b64_decoded(picked[0].data)) + t),
            other => other,
        }
    }
}

/// `t` in front of the text of `r`, if it is one.
pub open spec fn prepend(t: Seq<char>, r: Reassembly) -> Reassembly {
    match r {
        Reassembly::Text(u) => Reassembly::Text(t + u),
        other => other,
    }
}

/// Puts the secret back together from a heap of shards: keeps the first shard numbered 1,
/// the first after it numbered 2, and so on, and joins the texts they carry.
///
/// Refused when there are no shards, or at the first kept shard whose data is not Base64
/// text of UTF-8.
pub fn shards_to_str(shards: Vec<Shard>) -> (r: Result<String, HorcruxError>)
    requires
        shards.len() < usize::MAX,
    ensures
        shards.len() == 0 ==> (r matches Err(e) && e is NoShards),
        shards.len() > 0 ==> match reassemble(pick_from(views(shards@), 1)) {
            Reassembly::Text(t) => (r matches Ok(s) && s@ == t),
            Reassembly::BadBase64 => (r matches Err(e) && e is Base64),
            Reassembly::BadUtf8 => (r matches Err(e) && e is Utf8),
        },
{
    if shards.len() == 0 {
        return Err(HorcruxError::NoShards);
    }
    let ghost all = views(shards@);
    let mut found: usize = 1;
    let mut picked: Vec<Shard> = Vec::new();
    let mut i: usize = 0;
    assert(all.skip(0) =~= all);
    while i < shards.len()
        invariant
            all == views(shards@),
            shards.len() < usize::MAX,
            i <= shards.len(),
            found == picked.len() + 1,
            picked.len() <= i,
            views(picked@) + pick_from(all.skip(i as int), found as nat) == pick_from(all, 1),
        decreases shards.len() - i,
    {
        let ghost rest = all.skip(i as int);
        assert(rest.drop_first() =~= all.skip(i + 1));
        assert(rest[0] == shards@[i as int]@);
        if shards[i].id == found {
            let ghost old_picked = picked@;
            let shard = &shards[i];
            picked.push(
                Shard {
                    id: shard.id,
                    data: shard.data.clone(),
                    replica_number: shard.replica_number,
                    total_shards: shard.total_shards,
                },
            );
            proof {
                assert(views(picked@) =~= views(old_picked).push(rest[0]));
                assert(views(picked@) + pick_from(all.skip(i + 1), (found + 1) as nat) =~= views(
                    old_picked,
                ) + pick_from(rest, found as nat));
            }
            found = found + 1;
        }
        i = i + 1;
    }
    let ghost pk = views(picked@);
    assert(pk =~= pick_from(all, 1));
    let mut data = String::new();
    let mut k: usize = 0;
    assert(pk.skip(0) =~= pk);
    while k < picked.len()
        invariant
            pk == views(picked@),
            pk == pick_from(views(shards@), 1),
            shards.len() > 0,
            k <= picked.len(),
            reassemble(pk) == prepend(data@, reassemble(pk.skip(k as int))),
        decreases picked.len() - k,
    {
        let ghost rest = pk.skip(k as int);
        assert(rest.drop_first() =~= pk.skip(k + 1));
        assert(rest[0] == picked@[k as int]@);
        match decode_base64(picked[k].data.as_str()) {
            Ok(bytes) => {
                proof {
                    lemma_decode_encode(bytes@);
                }
                match string_from_utf8(bytes) {
                    Ok(text) => {
                        let ghost before = data@;
                        data.append(text.as_str());
                        proof {
                            match reassemble(pk.skip(k + 1)) {
                                Reassembly::Text(u) => {
                                    assert(data@ + u =~= before + (text@ + u));
                                },
                                _ => {},
                            }
                        }
                    },
                    Err(e) => {
                        assert(reassemble(rest) is BadUtf8);
                        return Err(HorcruxError::Utf8(e));
                    },
                }
            },
            Err(e) => {
                assert(reassemble(rest) is BadBase64);
                return Err(HorcruxError::Base64(e));
            },
        }
        k = k + 1;
    }
    proof {
        assert(pk.skip(k as int).len() == 0);
        assert(data@ + seq![] =~= data@);
    }
    Ok(data)
}

} // verus!
