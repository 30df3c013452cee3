//! Turning bytes taken from the terminal stream into text.

use vstd::prelude::*;

verus! {

/// The text that lossy UTF-8 decoding gives for `bytes`: well-formed parts
/// are decoded, every ill-formed part becomes a replacement character.
pub uninterp spec fn utf8_lossy(bytes: Seq<u8>) -> Seq<char>;

/// Decodes `bytes` with `String::from_utf8_lossy`.
///
/// Trusted: the result is the lossy decoding of the bytes, the same text for
/// the same bytes.
#[verifier::external_body]
pub(crate) fn lossy_string(bytes: &[u8]) -> (text: String)
    ensures
        text@ == utf8_lossy(bytes@),
{
    String::from_utf8_lossy(bytes).into_owned()
}

} // verus!
