//! Bytes as printable text.

use vstd::prelude::*;

verus! {

/// Bytes in the standard alphabet of base64, with padding.
pub uninterp spec fn base64_text(bytes: Seq<u8>) -> Seq<char>;

/// Whether a text in base64 is that of these bytes and of no others.
pub open spec fn tells(text: Seq<char>, bytes: Seq<u8>) -> bool {
    forall|other: Seq<u8>| #[trigger] base64_text(other) == text ==> other == bytes
}

/// Calls `base64::Engine::encode` with `general_purpose::STANDARD`: the text depends on the
/// bytes alone, and no other bytes have the same text. Which characters it holds is not stated.
#[verifier::external_body]
pub(crate) fn base64(bytes: &[u8]) -> (text: String)
    ensures
        text@ == base64_text(bytes@),
        tells(text@, bytes@),
{
    base64::Engine::encode(&base64::engine::general_purpose::STANDARD, bytes)
}

} // verus!
