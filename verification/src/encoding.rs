//! Text as UTF-8.

use vstd::prelude::*;
use vstd::utf8::{decode_utf8, encode_scalar, encode_utf8, valid_utf8};

verus! {

/// What `String::from_utf8_lossy` makes of a byte string.
pub uninterp spec fn lossy(bytes: Seq<u8>) -> Seq<char>;

/// `String::from_utf8_lossy`: bytes as text, with a replacement character in place of
/// each sequence that is not valid UTF-8. The text is a function of the bytes. Valid
/// UTF-8 is decoded as it is, and a text without a replacement character came from
/// valid UTF-8. How many replacement characters stand for an invalid sequence is not
/// stated.
#[verifier::external_body]
pub(crate) fn decode_lossy(bytes: &[u8]) -> (r: String)
    ensures
        r@ == lossy(bytes@),
        valid_utf8(bytes@) ==> r@ == decode_utf8(bytes@),
        !r@.contains('\u{fffd}') ==> valid_utf8(bytes@),
{
    String::from_utf8_lossy(bytes).into_owned()
}

/// The encoding of two texts in a row is the encoding of each, in a row.
pub proof fn lemma_encode_concat(a: Seq<char>, b: Seq<char>)
    ensures
        encode_utf8(a + b) == encode_utf8(a) + encode_utf8(b),
    decreases a.len(),
{
    if a.len() == 0 {
        assert(a + b =~= b);
        assert(encode_utf8(a) + encode_utf8(b) =~= encode_utf8(b));
    } else {
        lemma_encode_concat(a.drop_first(), b);
        assert((a + b).drop_first() =~= a.drop_first() + b);
        assert(encode_utf8(a + b) =~= encode_utf8(a) + encode_utf8(b));
    }
}

/// A character takes one to four bytes.
pub proof fn lemma_encode_len(s: Seq<char>)
    ensures
        s.len() <= encode_utf8(s).len() <= 4 * s.len(),
    decreases s.len(),
{
    if s.len() > 0 {
        lemma_encode_len(s.drop_first());
        assert(1 <= encode_scalar(s[0] as u32).len() <= 4);
    }
}

} // verus!
