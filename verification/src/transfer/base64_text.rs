//! URL-safe, unpadded base64 text, as produced and read by the `base64` crate.

use vstd::prelude::*;
use base64::engine::general_purpose::URL_SAFE_NO_PAD;
use base64::Engine;

verus! {

/// Error reported by the `base64` crate when text is not valid base64.
#[verifier::external_type_specification]
#[verifier::external_body]
pub struct ExDecodeError(base64::DecodeError);

/// A symbol of the URL-safe base64 alphabet: `A`-`Z`, `a`-`z`, `0`-`9`, `-` and `_`.
pub open spec fn is_url_safe_symbol(b: u8) -> bool {
    (0x41 <= b <= 0x5a) || (0x61 <= b <= 0x7a) || (0x30 <= b <= 0x39) || b == 0x2d || b == 0x5f
}

/// The URL-safe, unpadded base64 text of `bytes`.
pub uninterp spec fn url_safe_text(bytes: Seq<u8>) -> Seq<u8>;

/// The bytes that the URL-safe, unpadded base64 text `text` decodes to, if it is valid.
pub uninterp spec fn url_safe_bytes(text: Seq<u8>) -> Option<Seq<u8>>;

/// Encodes `bytes` with `base64`'s `URL_SAFE_NO_PAD` engine (`Engine::encode`),
/// returning the text's bytes. The contract names the text and states that
/// it is made of URL-safe alphabet symbols (the engine's alphabet), is
/// empty exactly when the input is, and decodes with the same engine back
/// to the input; the length requirement keeps the engine's output-size
/// computation from overflowing, where it panics.
#[verifier::external_body]
pub(crate) fn encode_url_safe(bytes: &[u8]) -> (text: Vec<u8>)
    requires
        bytes@.len() / 3 * 4 + 3 <= usize::MAX,
    ensures
        text@ == url_safe_text(bytes@),
        forall|i: int| 0 <= i < text@.len() ==> is_url_safe_symbol(#[trigger] text@[i]),
        text@.len() == 0 <==> bytes@.len() == 0,
        url_safe_bytes(text@) == Some(bytes@),
{
    URL_SAFE_NO_PAD.encode(bytes).into_bytes()
}

/// Decodes `text` with `base64`'s `URL_SAFE_NO_PAD` engine (`Engine::decode`).
/// The contract names the decoded bytes and states that text the same
/// engine produced decodes to the bytes it was produced from. Which
/// `DecodeError` is reported for invalid text is left unsaid.
#[verifier::external_body]
pub(crate) fn decode_url_safe(text: &[u8]) -> (r: Result<Vec<u8>, base64::DecodeError>)
    ensures
        r is Ok <==> url_safe_bytes(text@) is Some,
        r is Ok ==> r->Ok_0@ == url_safe_bytes(text@)->0,
        forall|original: Seq<u8>| #[trigger] url_safe_text(original) == text@ ==> r is Ok && r->Ok_0@
            == original,
{
    URL_SAFE_NO_PAD.decode(text)
}

} // verus!
