//! Laws that relate the operations of the library to one another.

use vstd::prelude::*;
use vstd::utf8::{decode_utf8, encode_utf8, is_ascii_chars, is_ascii_chars_encode_utf8, valid_utf8};
use crate::b64::{b64_decoded, b64_decodes, b64_encode, lemma_decode_encode};
use crate::crypto::{lemma_open_sealed, opening, sealed_with, secret_key, Opening};
use crate::algorithm::decrypt::{nonces_fit, opened_before, pick_from, reassemble, Reassembly};
use crate::hashes::{decoded_hashes, encoded_hashes, join_with, lemma_split_on_len, split_on};
use crate::algorithm::encrypt::{chunks_of, copies, planned_shards, shards_from};
use crate::algorithm::models::{EncryptedData, ShardView};
use crate::text::lemma_decode_utf8_concat;

verus! {

/// The runs one after the other.
pub open spec fn concat_all(chunks: Seq<Seq<u8>>) -> Seq<u8>
    decreases chunks.len(),
{
    if chunks.len() == 0 {
        seq![]
    } else {
        chunks[0] + concat_all(chunks.drop_first())
    }
}

/// Every run is UTF-8.
pub open spec fn all_utf8(chunks: Seq<Seq<u8>>) -> bool {
    forall|c: int| 0 <= c < chunks.len() ==> valid_utf8(#[trigger] chunks[c])
}

/// Cutting bytes into runs loses and reorders nothing, and makes no run empty.
pub proof fn lemma_chunks_concat(b: Seq<u8>, size: nat)
    requires
        size > 0,
    ensures
        concat_all(chunks_of(b, size)) == b,
        forall|c: int| 0 <= c < chunks_of(b, size).len() ==> 0 < (#[trigger] chunks_of(b, size)[c]).len() <= size,
        b.len() > 0 ==> chunks_of(b, size).len() > 0,
    decreases b.len(),
{
    if b.len() == 0 {
    } else if b.len() <= size {
        let cs = chunks_of(b, size);
        assert(cs.drop_first() =~= Seq::<Seq<u8>>::empty());
        assert(cs[0] == b);
        assert(concat_all(cs.drop_first()) == Seq::<u8>::empty());
        assert(concat_all(cs) =~= b);
    } else {
        let cs = chunks_of(b, size);
        lemma_chunks_concat(b.skip(size as int), size);
        assert(cs.drop_first() =~= chunks_of(b.skip(size as int), size));
        assert(b =~= b.take(size as int) + b.skip(size as int));
        assert forall|c: int| 0 <= c < cs.len() implies 0 < (#[trigger] cs[c]).len() <= size by {
            if c > 0 {
                assert(cs[c] == cs.drop_first()[c - 1]);
            }
        }
    }
}

/// Looking for shard `n` skips shards with other numbers.
proof fn lemma_pick_skips(a: Seq<ShardView>, x: Seq<ShardView>, n: nat)
    requires
        forall|i: int| 0 <= i < a.len() ==> (#[trigger] a[i]).id != n,
    ensures
        pick_from(a + x, n) == pick_from(x, n),
    decreases a.len(),
{
    if a.len() > 0 {
        assert((a + x).drop_first() =~= a.drop_first() + x);
        assert((a + x)[0] == a[0]);
        lemma_pick_skips(a.drop_first(), x, n);
    } else {
        assert(a + x =~= x);
    }
}

/// Of the copies of each run, the first is kept when looking for the numbers in turn.
proof fn lemma_pick_first_copies(chunks: Seq<Seq<u8>>, id: nat, total: nat, replicas: nat)
    requires
        replicas >= 1,
    ensures
        pick_from(shards_from(chunks, id, total, replicas), id) == shards_from(chunks, id, total, 1),
    decreases chunks.len(),
{
    if chunks.len() > 0 {
        let cs = copies(chunks[0], id, total, replicas);
        let rest = shards_from(chunks.drop_first(), id + 1, total, replicas);
        lemma_pick_first_copies(chunks.drop_first(), id + 1, total, replicas);
        let all = cs + rest;
        assert(all[0] == cs[0]);
        assert(all.drop_first() =~= cs.drop_first() + rest);
        lemma_pick_skips(cs.drop_first(), rest, id + 1);
        assert(copies(chunks[0], id, total, 1) =~= seq![cs[0]]);
    }
}

/// Putting single copies of UTF-8 runs together gives the text of all the runs.
proof fn lemma_reassemble_runs(chunks: Seq<Seq<u8>>, id: nat, total: nat)
    requires
        all_utf8(chunks),
    ensures
        valid_utf8(concat_all(chunks)),
        reassemble(shards_from(chunks, id, total, 1)) == Reassembly::Text(decode_utf8(concat_all(chunks))),
    decreases chunks.len(),
{
    let s = shards_from(chunks, id, total, 1);
    if chunks.len() == 0 {
        assert(valid_utf8(seq![]));
        assert(decode_utf8(seq![]) =~= Seq::<char>::empty());
    } else {
        let rest = chunks.drop_first();
        assert(all_utf8(rest)) by {
            assert forall|c: int| 0 <= c < rest.len() implies valid_utf8(#[trigger] rest[c]) by {
                assert(rest[c] == chunks[c + 1]);
            }
        }
        lemma_reassemble_runs(rest, id + 1, total);
        let head = copies(chunks[0], id, total, 1);
        assert(s == head + shards_from(rest, id + 1, total, 1));
        assert(s[0] == head[0]);
        assert(s.drop_first() =~= shards_from(rest, id + 1, total, 1));
        lemma_decode_encode(chunks[0]);
        assert(valid_utf8(chunks[0]));
        lemma_decode_utf8_concat(chunks[0], concat_all(rest));
    }
}

/// The runs of `size` bytes that `str_to_shards` cuts a text into are each UTF-8 text.
pub open spec fn runs_are_text(s: Seq<char>, size: nat) -> bool {
    all_utf8(chunks_of(encode_utf8(s), size))
}

/// Putting back together the shards that a text is cut into gives the text, whenever at
/// least one copy of each run is made and each run of bytes is itself UTF-8 text.
pub proof fn lemma_shards_round_trip(s: Seq<char>, size: nat, total_shards: nat, replicas: nat)
    requires
        replicas >= 1,
        size > 0,
        encode_utf8(s).len() > 0,
        runs_are_text(s, size),
    ensures
        planned_shards(encode_utf8(s), size, total_shards, replicas).len() > 0,
        reassemble(pick_from(planned_shards(encode_utf8(s), size, total_shards, replicas), 1))
            == Reassembly::Text(s),
{
    broadcast use vstd::utf8::group_utf8_lib;

    let b = encode_utf8(s);
    let chunks = chunks_of(b, size);
    lemma_chunks_concat(b, size);
    lemma_pick_first_copies(chunks, 1, total_shards, replicas);
    lemma_reassemble_runs(chunks, 1, total_shards);
    assert(decode_utf8(b) == s);
    let plan = planned_shards(b, size, total_shards, replicas);
    assert(plan.len() > 0) by {
        let first = copies(chunks[0], 1, total_shards, replicas);
        assert(plan == first + shards_from(chunks.drop_first(), 2, total_shards, replicas));
    }
}

/// Bytes below 128 are UTF-8 text.
proof fn lemma_ascii_bytes_utf8(b: Seq<u8>)
    requires
        forall|i: int| 0 <= i < b.len() ==> #[trigger] b[i] < 128,
    ensures
        valid_utf8(b),
{
    broadcast use vstd::utf8::group_utf8_lib;

    let chars = Seq::new(b.len(), |i: int| b[i] as char);
    assert(is_ascii_chars(chars));
    is_ascii_chars_encode_utf8(chars);
    assert(encode_utf8(chars) =~= b);
}

/// Every run of an ASCII text is UTF-8 text.
pub proof fn lemma_ascii_runs_are_text(s: Seq<char>, size: nat)
    requires
        is_ascii_chars(s),
    ensures
        runs_are_text(s, size),
{
    let b = encode_utf8(s);
    is_ascii_chars_encode_utf8(s);
    assert forall|i: int| 0 <= i < b.len() implies #[trigger] b[i] < 128 by {
        assert(s[i] as u8 == b[i]);
    }
    if size > 0 {
        let chunks = chunks_of(b, size);
        lemma_chunk_bytes_from(b, size);
        assert forall|c: int| 0 <= c < chunks.len() implies valid_utf8(#[trigger] chunks[c]) by {
            lemma_ascii_bytes_utf8(chunks[c]);
        }
    }
}

/// Every byte of a run is a byte of the whole.
proof fn lemma_chunk_bytes_from(b: Seq<u8>, size: nat)
    requires
        size > 0,
        forall|i: int| 0 <= i < b.len() ==> #[trigger] b[i] < 128,
    ensures
        forall|c: int, i: int|
            0 <= c < chunks_of(b, size).len() && 0 <= i < chunks_of(b, size)[c].len() ==> #[trigger] chunks_of(
                b,
                size,
            )[c][i] < 128,
    decreases b.len(),
{
    if b.len() > size {
        let rest = b.skip(size as int);
        assert forall|i: int| 0 <= i < rest.len() implies #[trigger] rest[i] < 128 by {
            assert(rest[i] == b[i + size]);
        }
        lemma_chunk_bytes_from(rest, size);
        let cs = chunks_of(b, size);
        assert forall|c: int, i: int| 0 <= c < cs.len() && 0 <= i < cs[c].len() implies #[trigger] cs[c][i] < 128 by {
            if c > 0 {
                assert(cs[c] == chunks_of(rest, size)[c - 1]);
            } else {
                assert(cs[0][i] == b[i]);
            }
        }
    }
}


/// Opening in turn what was sealed under a passphrase's key gives back every message, and
/// meets no nonce of the wrong length on the way.
pub proof fn lemma_decrypt_encrypt(sealed: Seq<EncryptedData>, messages: Seq<Seq<u8>>, key: Seq<char>)
    requires
        sealed.len() == messages.len(),
        forall|i: int| 0 <= i < sealed.len() ==> sealed_with(#[trigger] sealed[i], messages[i], secret_key(key)),
    ensures
        nonces_fit(sealed, secret_key(key)),
        opened_before(sealed, secret_key(key), sealed.len() as int),
        forall|i: int|
            0 <= i < sealed.len() ==> #[trigger] opening(sealed[i], secret_key(key)) == Opening::Opened(messages[i]),
{
    let k = secret_key(key);
    assert forall|i: int| 0 <= i < sealed.len() implies #[trigger] opening(sealed[i], k) == Opening::Opened(
        messages[i],
    ) by {
        lemma_open_sealed(sealed[i], messages[i], k);
    }
}

/// Unpacking what was packaged gives back the bytes of each serialized shard.
pub proof fn lemma_unpackage_package(serialized: Seq<Seq<char>>, packages: Seq<Seq<char>>)
    requires
        packages.len() == serialized.len(),
        forall|i: int| 0 <= i < packages.len() ==> #[trigger] packages[i] == b64_encode(encode_utf8(serialized[i])),
    ensures
        forall|i: int| 0 <= i < packages.len() ==> b64_decodes(#[trigger] packages[i]),
        forall|i: int| 0 <= i < packages.len() ==> b64_decoded(#[trigger] packages[i]) == encode_utf8(serialized[i]),
{
    assert forall|i: int| 0 <= i < packages.len() implies b64_decodes(#[trigger] packages[i]) && b64_decoded(
        packages[i],
    ) == encode_utf8(serialized[i]) by {
        lemma_decode_encode(encode_utf8(serialized[i]));
    }
}


/// Text without `sep` extends the last piece.
proof fn lemma_split_extend(y: Seq<char>, z: Seq<char>, sep: char)
    requires
        !z.contains(sep),
    ensures
        split_on(y + z, sep) == split_on(y, sep).update(
            split_on(y, sep).len() - 1,
            split_on(y, sep).last() + z,
        ),
        split_on(y, sep).len() >= 1,
    decreases z.len(),
{
    let p = split_on(y, sep);
    lemma_split_on_len(y, sep);
    if z.len() == 0 {
        assert(y + z =~= y);
        assert(p.last() + z =~= p.last());
        assert(p.update(p.len() - 1, p.last()) =~= p);
    } else {
        let z0 = z.drop_last();
        assert(!z0.contains(sep)) by {
            if z0.contains(sep) {
                let i = choose|i: int| 0 <= i < z0.len() && z0[i] == sep;
                assert(z[i] == sep);
            }
        }
        lemma_split_extend(y, z0, sep);
        assert((y + z).drop_last() =~= y + z0);
        assert((y + z).last() == z.last());
        assert(z.last() != sep) by {
            assert(z[z.len() - 1] == z.last());
        }
        assert(p.last() + z =~= (p.last() + z0).push(z.last()));
        assert(split_on(y + z, sep) =~= p.update(p.len() - 1, p.last() + z));
    }
}

/// Splitting the parts joined by a separator that none of them holds gives the parts.
pub proof fn lemma_split_join(parts: Seq<Seq<char>>, sep: char)
    requires
        parts.len() >= 1,
        forall|i: int| 0 <= i < parts.len() ==> !(#[trigger] parts[i]).contains(sep),
    ensures
        split_on(join_with(parts, sep), sep) == parts,
    decreases parts.len(),
{
    if parts.len() == 1 {
        let e: Seq<char> = seq![];
        lemma_split_extend(e, parts[0], sep);
        assert(e + parts[0] =~= parts[0]);
        assert(split_on(e, sep).last() + parts[0] =~= parts[0]);
        assert(split_on(join_with(parts, sep), sep) =~= parts);
    } else {
        let init = parts.drop_last();
        assert forall|i: int| 0 <= i < init.len() implies !(#[trigger] init[i]).contains(sep) by {
            assert(init[i] == parts[i]);
        }
        lemma_split_join(init, sep);
        let j = join_with(init, sep);
        let js = j + seq![sep];
        assert(js.drop_last() =~= j);
        assert(split_on(js, sep) == split_on(j, sep).push(seq![]));
        assert(parts.last() == parts[parts.len() - 1]);
        lemma_split_extend(js, parts.last(), sep);
        assert(Seq::<char>::empty() + parts.last() =~= parts.last());
        assert(split_on(join_with(parts, sep), sep) =~= parts);
    }
}

/// Reading the hashes out of an encoded list of hashes gives the hashes back, when there is
/// at least one and none holds a comma.
pub proof fn lemma_hashes_round_trip(hashes: Seq<Seq<char>>)
    requires
        hashes.len() >= 1,
        forall|i: int| 0 <= i < hashes.len() ==> !(#[trigger] hashes[i]).contains(','),
    ensures
        decoded_hashes(encoded_hashes(hashes)) == Some(hashes),
{
    broadcast use vstd::utf8::group_utf8_lib;

    let bytes = encode_utf8(join_with(hashes, ','));
    lemma_decode_encode(bytes);
    lemma_split_join(hashes, ',');
}


/// The copies of the runs, in order: shard `i` is copy `i % replicas + 1` of run
/// `i / replicas`, numbered from `first_id`.
pub proof fn lemma_shards_from_shape(chunks: Seq<Seq<u8>>, first_id: nat, total: nat, replicas: nat)
    requires
        replicas >= 1,
    ensures
        shards_from(chunks, first_id, total, replicas).len() == chunks.len() * replicas,
        forall|i: int|
            0 <= i < chunks.len() * replicas ==> {
                let s = #[trigger] shards_from(chunks, first_id, total, replicas)[i];
                &&& s.id == first_id + i / (replicas as int)
                &&& s.replica_number == i % (replicas as int) + 1
                &&& s.total_shards == total
                &&& s.data == b64_encode(chunks[i / (replicas as int)])
            },
    decreases chunks.len(),
{
    let all = shards_from(chunks, first_id, total, replicas);
    let r = replicas as int;
    if chunks.len() == 0 {
        assert(chunks.len() * replicas == 0);
    } else {
        let rest = chunks.drop_first();
        lemma_shards_from_shape(rest, first_id + 1, total, replicas);
        let head = copies(chunks[0], first_id, total, replicas);
        let tail = shards_from(rest, first_id + 1, total, replicas);
        assert(all == head + tail);
        assert(chunks.len() * replicas == rest.len() * replicas + replicas) by (nonlinear_arith)
            requires
                chunks.len() == rest.len() + 1,
        ;
        assert forall|i: int| 0 <= i < chunks.len() * replicas implies {
            let s = #[trigger] all[i];
            &&& s.id == first_id + i / r
            &&& s.replica_number == i % r + 1
            &&& s.total_shards == total
            &&& s.data == b64_encode(chunks[i / r])
        } by {
            if i < r {
                assert(i / r == 0 && i % r == i) by (nonlinear_arith)
                    requires
                        0 <= i < r,
                ;
                assert(all[i] == head[i]);
            } else {
                let k = i - r;
                assert(i / r == k / r + 1 && i % r == k % r) by (nonlinear_arith)
                    requires
                        k == i - r,
                        0 <= k,
                        r >= 1,
                ;
                assert(all[i] == tail[k]);
                assert(0 <= k / r < rest.len()) by (nonlinear_arith)
                    requires
                        0 <= k < rest.len() * r,
                        r >= 1,
                ;
                assert(rest[k / r] == chunks[i / r]);
            }
        }
    }
}


/// The texts that a run of shards carries.
pub open spec fn datas(x: Seq<ShardView>) -> Seq<Seq<char>> {
    x.map_values(|s: ShardView| s.data)
}

/// Some shard of `w` has number `k`.
pub open spec fn has_id(w: Seq<ShardView>, k: nat) -> bool {
    exists|i: int| 0 <= i < w.len() && (#[trigger] w[i]).id == k
}

/// Putting shards together looks at their texts alone.
proof fn lemma_reassemble_by_data(x: Seq<ShardView>, y: Seq<ShardView>)
    requires
        datas(x) == datas(y),
    ensures
        reassemble(x) == reassemble(y),
    decreases x.len(),
{
    assert(x.len() == datas(x).len() && y.len() == datas(y).len());
    if x.len() > 0 {
        assert(x[0].data == datas(x)[0]);
        assert(y[0].data == datas(y)[0]);
        assert(datas(x.drop_first()) =~= datas(x).drop_first());
        assert(datas(y.drop_first()) =~= datas(y).drop_first());
        lemma_reassemble_by_data(x.drop_first(), y.drop_first());
    }
}

/// Looking for the numbers `next`, `next + 1`, ... up to `m` through shards whose numbers
/// never go down, whose text is fixed by their number, and among which each of these
/// numbers occurs, finds one shard of each number, in order.
proof fn lemma_pick_greedy(w: Seq<ShardView>, next: nat, m: nat, d: spec_fn(nat) -> Seq<char>)
    requires
        next <= m + 1,
        forall|i: int, j: int| 0 <= i < j < w.len() ==> (#[trigger] w[i]).id <= (#[trigger] w[j]).id,
        forall|i: int| 0 <= i < w.len() ==> (#[trigger] w[i]).id <= m && w[i].data == d(w[i].id),
        forall|k: nat| next <= k <= m ==> #[trigger] has_id(w, k),
    ensures
        datas(pick_from(w, next)) == Seq::new((m + 1 - next) as nat, |j: int| d((next + j) as nat)),
    decreases w.len(),
{
    let target = Seq::new((m + 1 - next) as nat, |j: int| d((next + j) as nat));
    if w.len() == 0 {
        if next <= m {
            assert(has_id(w, next));
        }
        assert(datas(pick_from(w, next)) =~= target);
    } else {
        let rest = w.drop_first();
        assert forall|i: int, j: int| 0 <= i < j < rest.len() implies (#[trigger] rest[i]).id <= (
        #[trigger] rest[j]).id by {
            assert(rest[i] == w[i + 1] && rest[j] == w[j + 1]);
        }
        assert forall|i: int| 0 <= i < rest.len() implies (#[trigger] rest[i]).id <= m && rest[i].data == d(
            rest[i].id,
        ) by {
            assert(rest[i] == w[i + 1]);
        }
        if w[0].id == next {
            assert forall|k: nat| next + 1 <= k <= m implies #[trigger] has_id(rest, k) by {
                assert(has_id(w, k));
                let i = choose|i: int| 0 <= i < w.len() && (#[trigger] w[i]).id == k;
                assert(i != 0);
                assert(rest[i - 1] == w[i]);
            }
            lemma_pick_greedy(rest, next + 1, m, d);
            assert(datas(pick_from(w, next)) =~= seq![w[0].data] + datas(pick_from(rest, next + 1)));
            assert(datas(pick_from(w, next)) =~= target);
        } else {
            assert forall|k: nat| next <= k <= m implies #[trigger] has_id(rest, k) by {
                assert(has_id(w, k));
                let i = choose|i: int| 0 <= i < w.len() && (#[trigger] w[i]).id == k;
                if i == 0 {
                    assert(has_id(w, next));
                    let i2 = choose|i2: int| 0 <= i2 < w.len() && (#[trigger] w[i2]).id == next;
                    assert(w[0].id <= w[i2].id);
                }
                assert(i != 0);
                assert(rest[i - 1] == w[i]);
            }
            lemma_pick_greedy(rest, next, m, d);
        }
    }
}

/// Any one copy of each shard is enough: taking from the shards of a text, in their order,
/// at least one shard of each number, and putting those back together gives the text,
/// whenever each run of bytes is itself UTF-8 text.
pub proof fn lemma_any_copy_suffices(
    s: Seq<char>,
    size: nat,
    total_shards: nat,
    replicas: nat,
    kept: Seq<ShardView>,
    positions: Seq<int>,
)
    requires
        replicas >= 1,
        size > 0,
        encode_utf8(s).len() > 0,
        runs_are_text(s, size),
        positions.len() == kept.len(),
        forall|i: int|
            0 <= i < kept.len() ==> 0 <= #[trigger] positions[i] < planned_shards(
                encode_utf8(s),
                size,
                total_shards,
                replicas,
            ).len() && kept[i] == planned_shards(encode_utf8(s), size, total_shards, replicas)[positions[i]],
        forall|i: int, j: int| 0 <= i < j < kept.len() ==> #[trigger] positions[i] < #[trigger] positions[j],
        forall|j: int|
            0 <= j < planned_shards(encode_utf8(s), size, total_shards, replicas).len() ==> exists|i: int|
                0 <= i < kept.len() && (#[trigger] kept[i]).id == (#[trigger] planned_shards(
                    encode_utf8(s),
                    size,
                    total_shards,
                    replicas,
                )[j]).id,
    ensures
        kept.len() > 0,
        reassemble(pick_from(kept, 1)) == Reassembly::Text(s),
{
    let b = encode_utf8(s);
    let plan = planned_shards(b, size, total_shards, replicas);
    let chunks = chunks_of(b, size);
    let m = chunks.len();
    let r = replicas as int;
    lemma_chunks_concat(b, size);
    lemma_shards_from_shape(chunks, 1, total_shards, replicas);
    lemma_shards_round_trip(s, size, total_shards, replicas);
    let d = |k: nat| b64_encode(chunks[k - 1]);
    assert forall|i: int, j: int| 0 <= i < j < kept.len() implies (#[trigger] kept[i]).id <= (
    #[trigger] kept[j]).id by {
        let pi = positions[i];
        let pj = positions[j];
        assert(pi < pj);
        assert(pi / r <= pj / r) by (nonlinear_arith)
            requires
                0 <= pi < pj,
                r >= 1,
        ;
    }
    assert forall|i: int| 0 <= i < kept.len() implies (#[trigger] kept[i]).id <= m && kept[i].data == d(
        kept[i].id,
    ) by {
        let p = positions[i];
        assert(0 <= p / r < m) by (nonlinear_arith)
            requires
                0 <= p < m * r,
                r >= 1,
        ;
    }
    assert forall|k: nat| 1 <= k <= m implies #[trigger] has_id(kept, k) by {
        let j = (k - 1) * r;
        assert(0 <= j < m * r && j / r == k - 1) by (nonlinear_arith)
            requires
                j == (k - 1) * r,
                1 <= k <= m,
                r >= 1,
        ;
        assert(plan[j].id == k);
        let i = choose|i: int| 0 <= i < kept.len() && (#[trigger] kept[i]).id == plan[j].id;
        assert(kept[i].id == k);
    }
    lemma_pick_greedy(kept, 1, m, d);
    let full = pick_from(plan, 1);
    lemma_pick_first_copies(chunks, 1, total_shards, replicas);
    lemma_shards_from_shape(chunks, 1, total_shards, 1);
    assert(datas(full) =~= Seq::new(m, |j: int| d((1 + j) as nat))) by {
        assert forall|j: int| 0 <= j < m implies datas(full)[j] == d((1 + j) as nat) by {
            assert(j / 1 == j);
        }
    }
    lemma_reassemble_by_data(pick_from(kept, 1), full);
    assert(m > 0);
    assert(has_id(kept, 1));
}

} // verus!
