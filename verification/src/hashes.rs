//! The list of content hashes that locates the packaged shards travels as one text: the
//! hashes joined by commas, as Base64.

use vstd::prelude::*;
use vstd::utf8::{decode_utf8, encode_utf8, valid_utf8};
use vstd::string::StringExecFns;
use crate::b64::{b64_decoded, b64_decodes, b64_encode, decode_base64, encode_base64, lemma_decode_encode};
use crate::algorithm::encrypt::encodable_len;
use crate::algorithm::models::HorcruxError;
use crate::text::{push_char, string_from_utf8};

verus! {

/// The parts with `sep` between each two.
pub open spec fn join_with(parts: Seq<Seq<char>>, sep: char) -> Seq<char>
    decreases parts.len(),
{
    if parts.len() == 0 {
        seq![]
    } else if parts.len() == 1 {
        parts[0]
    } else {
        join_with(parts.drop_last(), sep) + seq![sep] + parts.last()
    }
}

/// The pieces between the occurrences of `sep` in `s`; there is always at least one.
pub open spec fn split_on(s: Seq<char>, sep: char) -> Seq<Seq<char>>
    decreases s.len(),
{
    if s.len() == 0 {
        seq![seq![]]
    } else {
        let pieces = split_on(s.drop_last(), sep);
        if s.last() == sep {
            pieces.push(seq![])
        } else {
            pieces.update(pieces.len() - 1, pieces.last().push(s.last()))
        }
    }
}

/// The texts of a sequence of strings.
pub open spec fn texts(v: Seq<String>) -> Seq<Seq<char>> {
    v.map_values(|s: String| s@)
}

pub proof fn lemma_split_on_len(s: Seq<char>, sep: char)
    ensures
        split_on(s, sep).len() >= 1,
    decreases s.len(),
{
    if s.len() > 0 {
        lemma_split_on_len(s.drop_last(), sep);
    }
}

/// The hash list as it travels: the hashes joined by commas, as Base64.
pub open spec fn encoded_hashes(hashes: Seq<Seq<char>>) -> Seq<char> {
    b64_encode(encode_utf8(join_with(hashes, ',')))
}

/// Joins the hashes with commas and encodes the text as Base64.
pub fn encode_hashes(hashes: &Vec<String>) -> (encoded: String)
    requires
        encodable_len(encode_utf8(join_with(texts(hashes@), ',')).len()),
    ensures
        encoded@ == encoded_hashes(texts(hashes@)),
{
    let ghost parts = texts(hashes@);
    let mut joined = String::new();
    let mut i: usize = 0;
    while i < hashes.len()
        invariant
            i <= hashes.len(),
            parts == texts(hashes@),
            joined@ == join_with(parts.take(i as int), ','),
        decreases hashes.len() - i,
    {
        if i > 0 {
            push_char(&mut joined, ',');
        }
        joined.append(hashes[i].as_str());
        proof {
            let t = parts.take(i + 1);
            assert(t.drop_last() =~= parts.take(i as int));
            if i == 0 {
                assert(join_with(parts.take(0), ',') =~= Seq::<char>::empty());
                assert(joined@ =~= t[0]);
            }
        }
        i = i + 1;
    }
    assert(parts.take(hashes.len() as int) =~= parts);
    encode_base64(joined.as_str().as_bytes())
}

/// The hashes carried by an encoded hash list, or `None` when it is not Base64 of UTF-8.
pub open spec fn decoded_hashes(encoded: Seq<char>) -> Option<Seq<Seq<char>>> {
    if b64_decodes(encoded) && valid_utf8(b64_decoded(encoded)) {
        Some(split_on(decode_utf8(b64_decoded(encoded)), ','))
    } else {
        None
    }
}

/// Splits a text at each comma.
pub fn split_commas(s: &str) -> (pieces: Vec<String>)
    ensures
        texts(pieces@) == split_on(s@, ','),
{
    let mut pieces: Vec<String> = Vec::new();
    let mut current = String::new();
    assert(s@.take(0) =~= Seq::<char>::empty());
    for c in it: s.chars()
        invariant
            it.seq() == s@,
            texts(pieces@).push(current@) == split_on(it.seq().take(it.index() as int), ','),
    {
        let ghost seen = it.seq().take(it.index() as int);
        let ghost next = it.seq().take(it.index() + 1);
        assert(next.drop_last() =~= seen);
        assert(next.last() == c);
        proof {
            lemma_split_on_len(seen, ',');
        }
        if c == ',' {
            let ghost old_pieces = pieces@;
            let done = current;
            pieces.push(done);
            current = String::new();
            proof {
                assert(texts(pieces@) =~= texts(old_pieces).push(done@));
                assert(texts(pieces@).push(current@) =~= split_on(next, ','));
            }
        } else {
            let ghost before = current@;
            push_char(&mut current, c);
            proof {
                assert(texts(pieces@).push(current@) =~= split_on(seen, ',').update(
                    split_on(seen, ',').len() - 1,
                    before.push(c),
                ));
            }
        }
    }
    let ghost old_pieces = pieces@;
    assert(s@.take(s@.len() as int) =~= s@);
    pieces.push(current);
    proof {
        assert(texts(pieces@) =~= texts(old_pieces).push(pieces@.last()@));
    }
    pieces
}

/// Reads the hashes out of an encoded hash list.
///
/// Refused when the text is not Base64, or the bytes it carries are not UTF-8.
pub fn decode_hashes(encoded: &str) -> (r: Result<Vec<String>, HorcruxError>)
    ensures
        r is Ok <==> decoded_hashes(encoded@) is Some,
        r matches Ok(v) ==> Some(texts(v@)) == decoded_hashes(encoded@),
        r matches Err(e) ==> (e is Base64 <==> !b64_decodes(encoded@)) && (e is Utf8 <==> b64_decodes(encoded@)),
{
    let bytes = match decode_base64(encoded) {
        Ok(b) => b,
        Err(e) => return Err(HorcruxError::Base64(e)),
    };
    proof {
        lemma_decode_encode(bytes@);
    }
    let text = match string_from_utf8(bytes) {
        Ok(t) => t,
        Err(e) => return Err(HorcruxError::Utf8(e)),
    };
    Ok(split_commas(text.as_str()))
}

} // verus!
