//! Bytes read as text.

use vstd::prelude::*;

verus! {

/// The text that `String::from_utf8_lossy` reads from `bytes`.
pub uninterp spec fn utf8_lossy(bytes: Seq<u8>) -> Seq<char>;

/// Calls `String::from_utf8_lossy`, which decodes UTF-8 and puts the
/// replacement character in place of what is not valid. The text depends on
/// the bytes alone, and valid bytes give exactly the text that they encode. How
/// many replacement characters stand for an invalid stretch is left open.
#[verifier::external_body]
fn from_utf8_lossy(bytes: &[u8]) -> (r: String)
    ensures
        r@ == utf8_lossy(bytes@),
        vstd::utf8::valid_utf8(bytes@) ==> r@ == vstd::utf8::decode_utf8(bytes@),
{
    String::from_utf8_lossy(bytes).into_owned()
}

/// The text that `bytes` stand for: what they encode where they are UTF-8, and
/// otherwise what can be read of them.
pub open spec fn decoded(bytes: Seq<u8>) -> Seq<char> {
    if vstd::utf8::valid_utf8(bytes) {
        vstd::utf8::decode_utf8(bytes)
    } else {
        utf8_lossy(bytes)
    }
}

/// The text that `bytes` stand for.
pub fn decode(bytes: &[u8]) -> (r: String)
    ensures
        r@ == decoded(bytes@),
{
    from_utf8_lossy(bytes)
}

/// Bytes that encode a text stand for that text.
pub proof fn encoded_text_is_decoded(text: Seq<char>)
    ensures
        decoded(vstd::utf8::encode_utf8(text)) == text,
{
    vstd::utf8::encode_utf8_valid_utf8(text);
    vstd::utf8::encode_utf8_decode_utf8(text);
}

/// Bytes that encode no text are read as `String::from_utf8_lossy` reads them,
/// whole; and two texts are told apart by the bytes that encode them.
pub proof fn nothing_is_dropped(bytes: Seq<u8>, a: Seq<char>, b: Seq<char>)
    ensures
        !vstd::utf8::valid_utf8(bytes) ==> decoded(bytes) == utf8_lossy(bytes),
        vstd::utf8::valid_utf8(bytes) ==> vstd::utf8::encode_utf8(decoded(bytes)) == bytes,
        vstd::utf8::encode_utf8(a) == vstd::utf8::encode_utf8(b) ==> a == b,
{
    if vstd::utf8::valid_utf8(bytes) {
        vstd::utf8::decode_utf8_encode_utf8(bytes);
    }
    encoded_text_is_decoded(a);
    encoded_text_is_decoded(b);
}

} // verus!
