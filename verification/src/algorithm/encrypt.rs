//! Cutting a secret into shards, sealing them, and packaging them for transport.

use vstd::prelude::*;
use vstd::string::StringSliceAdditionalSpecFns;
use crate::b64::{b64_encode, encode_base64};
use vstd::utf8::encode_utf8;
use crate::crypto::{derive_key, seal_shard_fresh, sealable_len, sealed_with, secret_key};
use crate::algorithm::models::{EncryptedData, HorcruxError, Shard, ShardView};

verus! {

/// The abstract values of a sequence of shards.
pub open spec fn views(v: Seq<Shard>) -> Seq<ShardView> {
    v.map_values(|s: Shard| s@)
}

/// The runs of `size` bytes that `b` is cut into, in order; the last may be shorter.
pub open spec fn chunks_of(b: Seq<u8>, size: nat) -> Seq<Seq<u8>>
    decreases b.len(),
{
    if b.len() == 0 || size == 0 {
        seq![]
    } else if b.len() <= size {
        seq![b]
    } else {
        seq![b.take(size as int)] + chunks_of(b.skip(size as int), size)
    }
}

/// The `replicas` copies of the shard with number `id` that carries `chunk`.
pub open spec fn copies(chunk: Seq<u8>, id: nat, total_shards: nat, replicas: nat) -> Seq<ShardView> {
    Seq::new(
        replicas,
        |r: int|
            ShardView {
                id,
                data: b64_encode(chunk),
                replica_number: (r + 1) as nat,
                total_shards,
            },
    )
}

/// The copies of each run in turn, numbering the runs from `first_id`.
pub open spec fn shards_from(chunks: Seq<Seq<u8>>, first_id: nat, total_shards: nat, replicas: nat) -> Seq<ShardView>
    decreases chunks.len(),
{
    if chunks.len() == 0 {
        seq![]
    } else {
        copies(chunks[0], first_id, total_shards, replicas) + shards_from(
            chunks.drop_first(),
            first_id + 1,
            total_shards,
            replicas,
        )
    }
}

/// The shards that the bytes `b` are cut into, in runs of `size` bytes.
pub open spec fn planned_shards(b: Seq<u8>, size: nat, total_shards: nat, replicas: nat) -> Seq<ShardView> {
    shards_from(chunks_of(b, size), 1, total_shards, replicas)
}

/// The longest run that cutting `len` bytes into runs of `size` bytes makes.
pub open spec fn longest_run(len: nat, size: nat) -> nat {
    if size < len {
        size
    } else {
        len
    }
}

/// The Base64 text of a run of `len` bytes fits in memory.
pub open spec fn encodable_len(len: nat) -> bool {
    (len + 2) / 3 * 4 <= usize::MAX
}

proof fn lemma_encodable_mono(a: nat, b: nat)
    requires
        a <= b,
        encodable_len(b),
    ensures
        encodable_len(a),
{
    assert((a + 2) / 3 <= (b + 2) / 3) by (nonlinear_arith)
        requires
            a <= b,
    ;
    assert((a + 2) / 3 * 4 <= (b + 2) / 3 * 4) by (nonlinear_arith)
        requires
            (a + 2) / 3 <= (b + 2) / 3,
    ;
}

/// Cuts `inp` into runs of `shard_size` bytes (the last may be shorter) and makes
/// `replicas` copies of each run as shards numbered from 1, each recording `total_shards`.
///
/// The program asks for `total_shards` runs and takes as run length the input's byte
/// length divided by `total_shards` in single-precision floating point, rounded up; that
/// computation is floating point and stands outside this library.
///
/// Refused when the input has fewer bytes than the number of shards asked for.
pub fn str_to_shards(inp: &str, total_shards: usize, replicas: usize, shard_size: usize) -> (r: Result<
    Vec<Shard>,
    HorcruxError,
>)
    requires
        inp.spec_bytes().len() < total_shards || shard_size > 0,
        inp.spec_bytes().len() < usize::MAX,
        encodable_len(longest_run(inp.spec_bytes().len(), shard_size as nat)),
    ensures
        r is Err <==> inp.spec_bytes().len() < total_shards,
        r matches Err(e) ==> e is TooManyShards,
        r matches Ok(v) ==> views(v@) == planned_shards(
            inp.spec_bytes(),
            shard_size as nat,
            total_shards as nat,
            replicas as nat,
        ),
{
    let bytes = inp.as_bytes();
    let len = bytes.len();
    if len < total_shards {
        return Err(HorcruxError::TooManyShards);
    }
    let size = shard_size;
    let ghost b = bytes@;
    let ghost plan = planned_shards(b, size as nat, total_shards as nat, replicas as nat);
    let mut out: Vec<Shard> = Vec::new();
    let mut start: usize = 0;
    let mut id: usize = 1;
    assert(b.skip(0) =~= b);
    while start < len
        invariant
            b == bytes@,
            len == b.len(),
            len < usize::MAX,
            0 < size,
            encodable_len(longest_run(len as nat, size as nat)),
            start <= len,
            1 <= id <= start + 1,
            plan == planned_shards(b, size as nat, total_shards as nat, replicas as nat),
            views(out@) + shards_from(chunks_of(b.skip(start as int), size as nat), id as nat, total_shards as nat, replicas as nat) == plan,
        decreases len - start,
    {
        let end: usize = if len - start <= size { len } else { start + size };
        let chunk = &bytes[start..end];
        proof {
            lemma_encodable_mono(chunk@.len(), longest_run(len as nat, size as nat));
        }
        let data = encode_base64(chunk);
        let ghost rest = b.skip(start as int);
        let ghost these = copies(chunk@, id as nat, total_shards as nat, replicas as nat);
        proof {
            if rest.len() <= size {
                assert(chunk@ =~= rest);
                assert(b.skip(end as int).len() == 0);
            } else {
                assert(chunk@ =~= rest.take(size as int));
                assert(rest.skip(size as int) =~= b.skip(end as int));
            }
            assert(chunks_of(rest, size as nat)[0] == chunk@);
            assert(chunks_of(rest, size as nat).drop_first() =~= chunks_of(b.skip(end as int), size as nat));
        }
        let ghost before = views(out@);
        let mut copy: usize = 0;
        while copy < replicas
            invariant
                copy <= replicas,
                data@ == b64_encode(chunk@),
                these == copies(chunk@, id as nat, total_shards as nat, replicas as nat),
                views(out@) == before + these.take(copy as int),
            decreases replicas - copy,
        {
            let ghost old_out = out@;
            out.push(Shard { id, data: data.clone(), replica_number: copy + 1, total_shards });
            proof {
                assert(views(out@) =~= views(old_out).push(out@.last()@));
                assert(these.take(copy + 1) =~= these.take(copy as int).push(these[copy as int]));
            }
            copy = copy + 1;
        }
        proof {
            assert(these.take(replicas as int) =~= these);
            assert(views(out@) + shards_from(chunks_of(b.skip(end as int), size as nat), (id + 1) as nat, total_shards as nat, replicas as nat)
                =~= before + shards_from(chunks_of(rest, size as nat), id as nat, total_shards as nat, replicas as nat));
        }
        start = end;
        id = id + 1;
    }
    proof {
        assert(b.skip(start as int).len() == 0);
        assert(views(out@) =~= plan);
    }
    Ok(out)
}


/// Seals each serialized shard under the key of `key`, each with a fresh random nonce.
///
/// The nonces are chance: what is stated is that each result is its shard sealed under
/// the passphrase's key and some 24-byte nonce.
pub fn encrypt_shards(shards: &Vec<String>, key: &str) -> (out: Vec<EncryptedData>)
    requires
        forall|i: int| 0 <= i < shards.len() ==> sealable_len(#[trigger] encode_utf8(shards[i]@).len()),
    ensures
        out.len() == shards.len(),
        forall|i: int|
            0 <= i < shards.len() ==> sealed_with(
                #[trigger] out[i],
                encode_utf8(shards[i]@),
                secret_key(key@),
            ),
{
    let secret = derive_key(key);
    let mut out: Vec<EncryptedData> = Vec::new();
    let mut i: usize = 0;
    while i < shards.len()
        invariant
            i <= shards.len(),
            out.len() == i,
            secret@ == secret_key(key@),
            secret@.len() == 32,
            forall|i: int| 0 <= i < shards.len() ==> sealable_len(#[trigger] encode_utf8(shards[i]@).len()),
            forall|j: int| 0 <= j < i ==> sealed_with(#[trigger] out[j], encode_utf8(shards[j]@), secret_key(key@)),
        decreases shards.len() - i,
    {
        let plaintext = shards[i].as_str().as_bytes();
        assert(sealable_len(encode_utf8(shards[i as int]@).len()));
        let sealed = seal_shard_fresh(plaintext, secret.as_slice());
        out.push(sealed);
        i = i + 1;
    }
    out
}

/// Packages each serialized encrypted shard for transport as the Base64 text of its bytes.
pub fn package(shards: Vec<String>) -> (out: Vec<String>)
    requires
        forall|i: int| 0 <= i < shards.len() ==> encodable_len(#[trigger] encode_utf8(shards[i]@).len()),
    ensures
        out.len() == shards.len(),
        forall|i: int| 0 <= i < shards.len() ==> (#[trigger] out[i])@ == b64_encode(encode_utf8(shards[i]@)),
{
    let mut out: Vec<String> = Vec::new();
    let mut i: usize = 0;
    while i < shards.len()
        invariant
            i <= shards.len(),
            out.len() == i,
            forall|i: int| 0 <= i < shards.len() ==> encodable_len(#[trigger] encode_utf8(shards[i]@).len()),
            forall|j: int| 0 <= j < i ==> (#[trigger] out[j])@ == b64_encode(encode_utf8(shards[j]@)),
        decreases shards.len() - i,
    {
        assert(encodable_len(encode_utf8(shards[i as int]@).len()));
        let text = encode_base64(shards[i].as_str().as_bytes());
        out.push(text);
        i = i + 1;
    }
    out
}

} // verus!
