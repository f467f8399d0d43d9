//! Standard Base64 with padding: the encoding stated as a spec function, and the two calls
//! into the `base64` crate that the library makes.

use vstd::prelude::*;
use base64::prelude::{Engine, BASE64_STANDARD};
use crate::algorithm::models::HorcruxError;

verus! {

/// The symbol of the standard alphabet for the six-bit value `v`.
pub open spec fn b64_symbol(v: u8) -> char {
    if v < 26 {
        (65 + v) as char
    } else if v < 52 {
        (71 + v) as char
    } else if v < 62 {
        (v - 4) as char
    } else if v == 62 {
        '+'
    } else {
        '/'
    }
}

/// The standard Base64 text of `b`: each group of three bytes becomes four symbols, and a
/// final group of one or two bytes is padded with `=` to four symbols.
pub open spec fn b64_encode(b: Seq<u8>) -> Seq<char>
    decreases b.len(),
{
    if b.len() == 0 {
        seq![]
    } else if b.len() == 1 {
        seq![b64_symbol(b[0] >> 2), b64_symbol((b[0] & 3) << 4), '=', '=']
    } else if b.len() == 2 {
        seq![
            b64_symbol(b[0] >> 2),
            b64_symbol(((b[0] & 3) << 4) | (b[1] >> 4)),
            b64_symbol((b[1] & 15) << 2),
            '=',
        ]
    } else {
        seq![
            b64_symbol(b[0] >> 2),
            b64_symbol(((b[0] & 3) << 4) | (b[1] >> 4)),
            b64_symbol(((b[1] & 15) << 2) | (b[2] >> 6)),
            b64_symbol(b[2] & 63),
        ] + b64_encode(b.skip(3))
    }
}

/// `s` is the Base64 text of some byte sequence.
pub open spec fn b64_decodes(s: Seq<char>) -> bool {
    exists|b: Seq<u8>| b64_encode(b) == s
}

/// The byte sequence whose Base64 text is `s`, where there is one.
pub open spec fn b64_decoded(s: Seq<char>) -> Seq<u8> {
    choose|b: Seq<u8>| b64_encode(b) == s
}

proof fn lemma_symbol_injective(v: u8, w: u8)
    requires
        v < 64,
        w < 64,
        b64_symbol(v) == b64_symbol(w),
    ensures
        v == w,
{
    let cv = b64_symbol(v) as u32;
    let cw = b64_symbol(w) as u32;
    assert(cv == cw);
}


/// Each symbol of the alphabet is different from the padding character.
proof fn lemma_symbol_not_pad(v: u8)
    requires
        v < 64,
    ensures
        b64_symbol(v) != '=',
{
}

/// The Base64 text has four symbols for each started group of three bytes.
pub proof fn lemma_encode_len(b: Seq<u8>)
    ensures
        b64_encode(b).len() == (b.len() + 2) / 3 * 4,
    decreases b.len(),
{
    if b.len() >= 3 {
        lemma_encode_len(b.skip(3));
    }
}

/// The six-bit values of a full group of three bytes determine the bytes.
proof fn lemma_group_bits(a0: u8, a1: u8, a2: u8, b0: u8, b1: u8, b2: u8)
    requires
        a0 >> 2 == b0 >> 2,
        ((a0 & 3) << 4) | (a1 >> 4) == ((b0 & 3) << 4) | (b1 >> 4),
        ((a1 & 15) << 2) | (a2 >> 6) == ((b1 & 15) << 2) | (b2 >> 6),
        a2 & 63 == b2 & 63,
    ensures
        a0 == b0 && a1 == b1 && a2 == b2,
{
    assert(a0 == b0 && a1 == b1 && a2 == b2) by (bit_vector)
        requires
            a0 >> 2 == b0 >> 2,
            ((a0 & 3) << 4) | (a1 >> 4) == ((b0 & 3) << 4) | (b1 >> 4),
            ((a1 & 15) << 2) | (a2 >> 6) == ((b1 & 15) << 2) | (b2 >> 6),
            a2 & 63 == b2 & 63,
    ;
}

/// The symbols of a group are six-bit values, each below 64.
proof fn lemma_group_ranges(b0: u8, b1: u8, b2: u8)
    ensures
        b0 >> 2 < 64,
        (b0 & 3) << 4 < 64,
        ((b0 & 3) << 4) | (b1 >> 4) < 64,
        (b1 & 15) << 2 < 64,
        ((b1 & 15) << 2) | (b2 >> 6) < 64,
        b2 & 63 < 64,
{
    assert(b0 >> 2 < 64 && (b0 & 3) << 4 < 64 && ((b0 & 3) << 4) | (b1 >> 4) < 64 && (b1 & 15)
        << 2 < 64 && ((b1 & 15) << 2) | (b2 >> 6) < 64 && b2 & 63 < 64) by (bit_vector);
}

/// Padding shows how many bytes the last group had; the rest is the same group-by-group.
proof fn lemma_two_byte_bits(a0: u8, a1: u8, b0: u8, b1: u8)
    requires
        a0 >> 2 == b0 >> 2,
        ((a0 & 3) << 4) | (a1 >> 4) == ((b0 & 3) << 4) | (b1 >> 4),
        (a1 & 15) << 2 == (b1 & 15) << 2,
    ensures
        a0 == b0 && a1 == b1,
{
    assert(a0 == b0 && a1 == b1) by (bit_vector)
        requires
            a0 >> 2 == b0 >> 2,
            ((a0 & 3) << 4) | (a1 >> 4) == ((b0 & 3) << 4) | (b1 >> 4),
            (a1 & 15) << 2 == (b1 & 15) << 2,
    ;
}

proof fn lemma_one_byte_bits(a0: u8, b0: u8)
    requires
        a0 >> 2 == b0 >> 2,
        (a0 & 3) << 4 == (b0 & 3) << 4,
    ensures
        a0 == b0,
{
    assert(a0 == b0) by (bit_vector)
        requires
            a0 >> 2 == b0 >> 2,
            (a0 & 3) << 4 == (b0 & 3) << 4,
    ;
}

/// Two byte sequences with the same Base64 text are equal.
pub proof fn lemma_encode_injective(a: Seq<u8>, b: Seq<u8>)
    requires
        b64_encode(a) == b64_encode(b),
    ensures
        a == b,
    decreases a.len(),
{
    let ea = b64_encode(a);
    let eb = b64_encode(b);
    lemma_encode_len(a);
    lemma_encode_len(b);
    if a.len() == 0 || b.len() == 0 {
        assert(a.len() == 0 && b.len() == 0);
        assert(a =~= b);
    } else {
        if a.len() >= 3 {
            lemma_group_ranges(a[0], a[1], a[2]);
            lemma_symbol_not_pad(a[2] & 63);
            lemma_symbol_not_pad(((a[1] & 15) << 2) | (a[2] >> 6));
        }
        if b.len() >= 3 {
            lemma_group_ranges(b[0], b[1], b[2]);
            lemma_symbol_not_pad(b[2] & 63);
            lemma_symbol_not_pad(((b[1] & 15) << 2) | (b[2] >> 6));
        }
        if a.len() == 2 {
            lemma_group_ranges(a[0], a[1], 0);
            lemma_symbol_not_pad((a[1] & 15) << 2);
        }
        if b.len() == 2 {
            lemma_group_ranges(b[0], b[1], 0);
            lemma_symbol_not_pad((b[1] & 15) << 2);
        }
        if a.len() == 1 {
            lemma_group_ranges(a[0], 0, 0);
        }
        if b.len() == 1 {
            lemma_group_ranges(b[0], 0, 0);
        }
        assert(ea[3] == eb[3]);
        assert(ea[2] == eb[2]);
        if a.len() == 1 {
            assert(b.len() == 1);
            lemma_symbol_injective(a[0] >> 2, b[0] >> 2);
            lemma_symbol_injective((a[0] & 3) << 4, (b[0] & 3) << 4);
            lemma_one_byte_bits(a[0], b[0]);
            assert(a =~= b);
        } else if a.len() == 2 {
            assert(b.len() == 2);
            lemma_symbol_injective(a[0] >> 2, b[0] >> 2);
            lemma_symbol_injective(((a[0] & 3) << 4) | (a[1] >> 4), ((b[0] & 3) << 4) | (b[1] >> 4));
            lemma_symbol_injective((a[1] & 15) << 2, (b[1] & 15) << 2);
            lemma_two_byte_bits(a[0], a[1], b[0], b[1]);
            assert(a =~= b);
        } else {
            assert(b.len() >= 3);
            let ga = seq![
                b64_symbol(a[0] >> 2),
                b64_symbol(((a[0] & 3) << 4) | (a[1] >> 4)),
                b64_symbol(((a[1] & 15) << 2) | (a[2] >> 6)),
                b64_symbol(a[2] & 63),
            ];
            let gb = seq![
                b64_symbol(b[0] >> 2),
                b64_symbol(((b[0] & 3) << 4) | (b[1] >> 4)),
                b64_symbol(((b[1] & 15) << 2) | (b[2] >> 6)),
                b64_symbol(b[2] & 63),
            ];
            assert(ea == ga + b64_encode(a.skip(3)));
            assert(eb == gb + b64_encode(b.skip(3)));
            assert(ga =~= ea.take(4));
            assert(gb =~= eb.take(4));
            assert(ga[0] == gb[0] && ga[1] == gb[1] && ga[2] == gb[2] && ga[3] == gb[3]);
            lemma_symbol_injective(a[0] >> 2, b[0] >> 2);
            lemma_symbol_injective(((a[0] & 3) << 4) | (a[1] >> 4), ((b[0] & 3) << 4) | (b[1] >> 4));
            lemma_symbol_injective(((a[1] & 15) << 2) | (a[2] >> 6), ((b[1] & 15) << 2) | (b[2] >> 6));
            lemma_symbol_injective(a[2] & 63, b[2] & 63);
            lemma_group_bits(a[0], a[1], a[2], b[0], b[1], b[2]);
            assert(ea.skip(4) =~= b64_encode(a.skip(3)));
            assert(eb.skip(4) =~= b64_encode(b.skip(3)));
            lemma_encode_injective(a.skip(3), b.skip(3));
            assert(a =~= a.take(3) + a.skip(3));
            assert(b =~= b.take(3) + b.skip(3));
            assert(a.take(3) =~= b.take(3));
        }
    }
}

/// Base64 decoding gives back what was encoded.
pub proof fn lemma_decode_encode(b: Seq<u8>)
    ensures
        b64_decodes(b64_encode(b)),
        b64_decoded(b64_encode(b)) == b,
{
    let s = b64_encode(b);
    assert(b64_encode(b) == s);
    let c = b64_decoded(s);
    lemma_encode_injective(c, b);
}


/// Base64 text of `bytes`, through `base64`'s standard padded engine.
///
/// Trusted: `Engine::encode` of `BASE64_STANDARD` returns the padded standard encoding,
/// `b64_encode`, and panics only when the length of the text overflows `usize`.
#[verifier::external_body]
pub(crate) fn encode_base64(bytes: &[u8]) -> (text: String)
    requires
        (bytes@.len() + 2) / 3 * 4 <= usize::MAX,
    ensures
        text@ == b64_encode(bytes@),
{
    BASE64_STANDARD.encode(bytes)
}

/// Bytes whose Base64 text is `text`, through `base64`'s standard padded engine.
///
/// Trusted: `Engine::decode` of `BASE64_STANDARD`, whose configuration requires canonical
/// padding and no trailing bits, accepts the UTF-8 bytes of `text` exactly when they are
/// the padded standard encoding of some bytes, and then returns those bytes.
#[verifier::external_body]
pub(crate) fn decode_base64(text: &str) -> (r: Result<Vec<u8>, base64::DecodeError>)
    ensures
        match r {
            Ok(bytes) => b64_encode(bytes@) == text@,
            Err(_) => !b64_decodes(text@),
        },
{
    BASE64_STANDARD.decode(text.as_bytes())
}

/// Decodes standard padded Base64 text.
pub fn decode(text: &str) -> (r: Result<Vec<u8>, HorcruxError>)
    ensures
        r is Ok <==> b64_decodes(text@),
        r matches Ok(bytes) ==> bytes@ == b64_decoded(text@),
        r matches Err(e) ==> e is Base64,
{
    match decode_base64(text) {
        Ok(bytes) => {
            proof {
                lemma_decode_encode(bytes@);
            }
            Ok(bytes)
        },
        Err(e) => Err(HorcruxError::Base64(e)),
    }
}

/// Encodes bytes as standard padded Base64 text.
pub fn encode(bytes: &[u8]) -> (text: String)
    requires
        (bytes@.len() + 2) / 3 * 4 <= usize::MAX,
    ensures
        text@ == b64_encode(bytes@),
{
    encode_base64(bytes)
}

} // verus!
