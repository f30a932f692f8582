//! Text in UTF-8.
use vstd::prelude::*;

verus! {

/// The text that some bytes hold, where they hold any.
pub open spec fn text_of(bytes: Seq<u8>) -> Option<Seq<char>> {
    if vstd::utf8::valid_utf8(bytes) {
        Some(vstd::utf8::decode_utf8(bytes))
    } else {
        None
    }
}

/// The bytes of a text.
pub open spec fn text_bytes(text: Seq<char>) -> Seq<u8> {
    vstd::utf8::encode_utf8(text)
}

/// The bytes of a text hold that text.
pub proof fn lemma_text_of_text_bytes(text: Seq<char>)
    ensures
        text_of(text_bytes(text)) == Some(text),
{
    vstd::utf8::encode_utf8_valid_utf8(text);
    vstd::utf8::encode_utf8_decode_utf8(text);
}

/// A text and its bytes are empty together.
pub proof fn lemma_text_empty(bytes: Seq<u8>)
    ensures
        text_of(bytes) matches Some(text) ==> (text.len() == 0 <==> bytes.len() == 0),
        text_bytes(Seq::empty()) == Seq::<u8>::empty(),
{
    if vstd::utf8::valid_utf8(bytes) && vstd::utf8::decode_utf8(bytes).len() == 0 {
        vstd::utf8::decode_utf8_encode_utf8(bytes);
        assert(vstd::utf8::decode_utf8(bytes) =~= Seq::<char>::empty());
    }
}

/// `std::str::from_utf8`: the text that the bytes hold; an error, here `None`,
/// where they are not valid UTF-8.
#[verifier::external_body]
pub(crate) fn read_text(bytes: &[u8]) -> (r: Option<&str>)
    ensures
        r is Some <==> text_of(bytes@) is Some,
        r matches Some(s) ==> text_of(bytes@) == Some(s@),
{
    std::str::from_utf8(bytes).ok()
}

} // verus!
