//! Ceremony-state storage and credential bookkeeping for a passkey relying
//! party: an expiring session store, a user repository indexed by user id and
//! by credential id, and the decisions of the registration and authentication
//! ceremonies.
use vstd::prelude::*;

pub mod assoc;
pub mod ceremony;
pub mod session;
pub mod user;

verus! {

/// URL-safe base64 text of `bytes`, without padding.
pub uninterp spec fn base64url_of(bytes: Seq<u8>) -> Seq<char>;

/// Characters of the URL-safe base64 alphabet.
pub open spec fn is_base64url_char(c: char) -> bool {
    ('A' <= c && c <= 'Z') || ('a' <= c && c <= 'z') || ('0' <= c && c <= '9') || c == '-' || c == '_'
}

/// Length of the unpadded base64 text of `n` bytes: four characters per
/// three bytes, and two or three for a last group of one or two.
pub open spec fn base64_unpadded_len(n: nat) -> nat {
    let tail: nat = if n % 3 == 0 {
        0
    } else if n % 3 == 1 {
        2
    } else {
        3
    };
    4 * (n / 3) + tail
}

/// Relies on base64urlsafedata's `Display` for `Base64UrlSafeData`, which
/// writes the bytes with base64's `URL_SAFE_NO_PAD` engine: URL-safe
/// alphabet, no padding.
#[verifier::external_body]
fn base64url_text(bytes: &Vec<u8>) -> (r: String)
    ensures
        r@ == base64url_of(bytes@),
        r@.len() == base64_unpadded_len(bytes@.len()),
        forall|i: int| 0 <= i < r@.len() ==> is_base64url_char(#[trigger] r@[i]),
{
    base64urlsafedata::Base64UrlSafeData::from(bytes.clone()).to_string()
}

/// Encodes `uarray` as URL-safe base64 text without padding.
pub fn encode_base64_url(uarray: &Vec<u8>) -> (r: String)
    ensures
        r@ == base64url_of(uarray@),
        r@.len() == base64_unpadded_len(uarray@.len()),
        forall|i: int| 0 <= i < r@.len() ==> is_base64url_char(#[trigger] r@[i]),
{
    base64url_text(uarray)
}

} // verus!
