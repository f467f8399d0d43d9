//! Reading the message hidden in the alpha channel of an image.
//!
//! The alpha values of an image's pixels carry the message; pixels beyond the message keep
//! their alpha of 255, which is taken as padding.

use vstd::prelude::*;
use vstd::utf8::{decode_utf8, valid_utf8};
use steganography::util::bytes_to_str;
use crate::text::is_utf8;

verus! {

/// `b` with every byte 255 taken out.
pub open spec fn without_padding(b: Seq<u8>) -> Seq<u8>
    decreases b.len(),
{
    if b.len() == 0 {
        seq![]
    } else if b.last() == 0xff {
        without_padding(b.drop_last())
    } else {
        without_padding(b.drop_last()).push(b.last())
    }
}

/// The text of UTF-8 bytes, through `steganography::util::bytes_to_str`.
///
/// Trusted: the function is `str::from_utf8(bytes).unwrap()`, which panics on bytes that are
/// not UTF-8 and otherwise gives their decoding; the copy into a `String` keeps it.
#[verifier::external_body]
fn text_of_utf8(bytes: &[u8]) -> (text: String)
    requires
        valid_utf8(bytes@),
    ensures
        text@ == decode_utf8(bytes@),
{
    bytes_to_str(bytes).to_string()
}

/// The alpha values without the padding.
pub fn strip_padding(alpha: &Vec<u8>) -> (out: Vec<u8>)
    ensures
        out@ == without_padding(alpha@),
        out@ == alpha@.filter(|x: u8| x != 0xff),
{
    proof {
        lemma_without_padding_filters(alpha@);
    }
    let mut out: Vec<u8> = Vec::new();
    let mut i: usize = 0;
    while i < alpha.len()
        invariant
            i <= alpha.len(),
            out@ == without_padding(alpha@.take(i as int)),
        decreases alpha.len() - i,
    {
        let ghost t = alpha@.take(i + 1);
        assert(t.drop_last() =~= alpha@.take(i as int));
        if alpha[i] != 0xff {
            out.push(alpha[i]);
        }
        i = i + 1;
    }
    assert(alpha@.take(alpha.len() as int) =~= alpha@);
    out
}

/// The message that the alpha values carry: the text of the bytes that are not padding.
pub fn alpha_message(alpha: Vec<u8>) -> (message: String)
    requires
        valid_utf8(without_padding(alpha@)),
    ensures
        message@ == decode_utf8(without_padding(alpha@)),
        message@ == decode_utf8(alpha@.filter(|x: u8| x != 0xff)),
{
    let clean = strip_padding(&alpha);
    text_of_utf8(clean.as_slice())
}

/// The message that the alpha values carry; `None` when the bytes that are not padding are
/// not UTF-8.
pub fn try_alpha_message(alpha: Vec<u8>) -> (r: Option<String>)
    ensures
        r is None <==> !valid_utf8(without_padding(alpha@)),
        r matches Some(message) ==> message@ == decode_utf8(without_padding(alpha@)),
        r matches Some(message) ==> message@ == decode_utf8(alpha@.filter(|x: u8| x != 0xff)),
{
    let clean = strip_padding(&alpha);
    if is_utf8(clean.as_slice()) {
        Some(text_of_utf8(clean.as_slice()))
    } else {
        None
    }
}


/// Taking out the padding drops exactly the bytes 255 and keeps every other byte, in order.
pub proof fn lemma_without_padding_filters(b: Seq<u8>)
    ensures
        without_padding(b) == b.filter(|x: u8| x != 0xff),
    decreases b.len(),
{
    let keep = |x: u8| x != 0xff;
    reveal(Seq::filter);
    if b.len() > 0 {
        lemma_without_padding_filters(b.drop_last());
        assert(b.filter(keep) == if keep(b.last()) {
            b.drop_last().filter(keep).push(b.last())
        } else {
            b.drop_last().filter(keep)
        });
    } else {
        assert(b.filter(keep) =~= b);
        assert(without_padding(b) =~= b);
    }
}

/// A message with no byte 255, followed by any number of padding bytes, comes back whole.
pub proof fn lemma_padded_message(message: Seq<u8>, padding: nat)
    requires
        forall|i: int| 0 <= i < message.len() ==> #[trigger] message[i] != 0xff,
    ensures
        without_padding(message + Seq::new(padding, |i: int| 0xffu8)) == message,
    decreases padding,
{
    let pad = Seq::new(padding, |i: int| 0xffu8);
    if padding == 0 {
        assert(message + pad =~= message);
        lemma_message_kept(message);
    } else {
        let shorter = Seq::new((padding - 1) as nat, |i: int| 0xffu8);
        assert((message + pad).drop_last() =~= message + shorter);
        assert((message + pad).last() == 0xffu8);
        lemma_padded_message(message, (padding - 1) as nat);
    }
}

/// Bytes with no 255 among them are all kept.
proof fn lemma_message_kept(message: Seq<u8>)
    requires
        forall|i: int| 0 <= i < message.len() ==> #[trigger] message[i] != 0xff,
    ensures
        without_padding(message) == message,
    decreases message.len(),
{
    if message.len() > 0 {
        let init = message.drop_last();
        assert forall|i: int| 0 <= i < init.len() implies #[trigger] init[i] != 0xff by {
            assert(init[i] == message[i]);
        }
        lemma_message_kept(init);
        assert(message.last() == message[message.len() - 1]);
        assert(init.push(message.last()) =~= message);
    }
}

/// The message read from a padded alpha channel is the text of the message bytes.
pub proof fn lemma_alpha_message_of_padded(message: Seq<u8>, padding: nat)
    requires
        forall|i: int| 0 <= i < message.len() ==> #[trigger] message[i] != 0xff,
    ensures
        valid_utf8(without_padding(message + Seq::new(padding, |i: int| 0xffu8))) == valid_utf8(message),
        decode_utf8(without_padding(message + Seq::new(padding, |i: int| 0xffu8))) == decode_utf8(message),
{
    lemma_padded_message(message, padding);
}

} // verus!
