//! Reading the controller's initial admin password.
//!
//! The secret arrives base64-encoded from the cluster; decoding it is the
//! only computation of the login flow, and it lives here.  Both decoding
//! steps are pure functions of their input, so each gets a name.

use base64::Engine;
use vstd::prelude::*;

verus! {

/// What decoding text with the standard base64 alphabet yields, if the
/// text is valid base64.
pub uninterp spec fn b64_decoded(s: Seq<char>) -> Option<Seq<u8>>;

/// What reading bytes as UTF-8 text yields, if they are valid UTF-8.
pub uninterp spec fn utf8_decoded(b: Seq<u8>) -> Option<Seq<char>>;

/// Relies on base64's standard-alphabet decode: the bytes the text
/// encodes, or a failure on text that is not base64.
#[verifier::external_body]
fn b64_decode(s: &str) -> (r: Option<Vec<u8>>)
    ensures
        match r {
            Some(b) => b64_decoded(s@) == Some(b@),
            None => b64_decoded(s@) is None,
        },
{
    base64::prelude::BASE64_STANDARD.decode(s).ok()
}

/// Relies on `String::from_utf8`: the text the bytes spell, or a failure
/// on bytes that are not UTF-8.
#[verifier::external_body]
fn utf8_text(b: Vec<u8>) -> (r: Option<String>)
    ensures
        match r {
            Some(t) => utf8_decoded(b@) == Some(t@),
            None => utf8_decoded(b@) is None,
        },
{
    String::from_utf8(b).ok()
}

/// Decode the admin password the cluster reported: base64, then UTF-8.
pub fn decode_admin_password(encoded: &str) -> (r: Option<String>)
    ensures
        r is Some <==> (match b64_decoded(encoded@) {
            Some(b) => utf8_decoded(b) is Some,
            None => false,
        }),
        match r {
            Some(p) => utf8_decoded(b64_decoded(encoded@).unwrap()) == Some(p@),
            None => true,
        },
{
    match b64_decode(encoded) {
        Some(bytes) => utf8_text(bytes),
        None => None,
    }
}

} // verus!
