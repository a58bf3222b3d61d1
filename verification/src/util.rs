//! Base64 encoding, behind a trusted wrapper.

use vstd::prelude::*;
use base64::Engine;

verus! {

/// Name for the standard base64 encoding of a byte string: it depends on the
/// bytes alone.
pub uninterp spec fn base64_of(bytes: Seq<u8>) -> Seq<char>;

/// Relies on base64's `STANDARD` engine: the standard alphabet with `=`
/// padding, so four output characters stand for every three input bytes.
#[verifier::external_body]
pub fn base64_encode(content: &[u8]) -> (r: String)
    ensures
        r@ == base64_of(content@),
        r@.len() == 4 * ((content@.len() + 2) / 3),
{
    base64::engine::general_purpose::STANDARD.encode(content)
}

} // verus!
