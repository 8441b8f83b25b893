//! Identifiers that the gateway mints: random ones, and ones derived from a
//! secret and a backend resource.

use vstd::prelude::*;
use vstd::string::*;

verus! {

/// The HMAC-SHA256 tag of a message under a key.
pub uninterp spec fn hmac_sha256_tag(key: Seq<u8>, message: Seq<u8>) -> Seq<u8>;

/// The base64 text of a byte string in the URL-safe alphabet, unpadded.
pub uninterp spec fn base64_url_form(bytes: Seq<u8>) -> Seq<char>;

/// The bytes that a text in the standard base64 alphabet stands for, or
/// nothing where the text is not valid base64.
pub uninterp spec fn base64_bytes(text: Seq<u8>) -> Option<Seq<u8>>;

/// `uuid::Uuid::new_v4`, written in its hyphenated form: a random
/// identifier. Nothing is claimed of it.
#[verifier::external_body]
pub(crate) fn fresh_uuid() -> String {
    uuid::Uuid::new_v4().to_string()
}

/// `hmac::Hmac<sha2::Sha256>`: the tag of `message` under `key`, 32 bytes
/// long. A key of any length is accepted.
#[verifier::external_body]
pub(crate) fn hmac_sha256(key: &[u8], message: &[u8]) -> (tag: Vec<u8>)
    ensures
        tag@ == hmac_sha256_tag(key@, message@),
        tag@.len() == 32,
{
    let mut mac = <hmac::Hmac<sha2::Sha256> as hmac::Mac>::new_from_slice(key).expect("HMAC init");
    hmac::Mac::update(&mut mac, message);
    hmac::Mac::finalize(mac).into_bytes().to_vec()
}

/// Whether a character is a symbol of the URL-safe base64 alphabet: a
/// letter, a digit, `-` or `_`.
pub open spec fn url_symbol(c: char) -> bool {
    ('A' <= c && c <= 'Z') || ('a' <= c && c <= 'z') || ('0' <= c && c <= '9') || c == '-' || c == '_'
}

/// The length of the unpadded base64 text of `n` bytes: one symbol for
/// every six bits, the last one filled up.
pub open spec fn base64_len(n: nat) -> nat {
    ((4 * n + 2) / 3) as nat
}

/// `base64::Engine::encode` of the `URL_SAFE_NO_PAD` engine. Every six bits
/// of the input become one symbol of the URL-safe alphabet, without
/// padding. The encoding is one-to-one: the length of the text tells the
/// length of the input, so no other byte string has the same text.
#[verifier::external_body]
pub(crate) fn base64_url(bytes: &[u8]) -> (text: String)
    ensures
        text@ == base64_url_form(bytes@),
        text@.len() == base64_len(bytes@.len()),
        forall|i: int| 0 <= i < text@.len() ==> url_symbol(#[trigger] text@[i]),
        forall|other: Seq<u8>| #[trigger] base64_url_form(other) == text@ ==> other == bytes@,
{
    base64::Engine::encode(&base64::engine::general_purpose::URL_SAFE_NO_PAD, bytes)
}

/// `base64::Engine::decode` of the `STANDARD` engine.
#[verifier::external_body]
pub(crate) fn base64_decode(text: &[u8]) -> (r: Option<Vec<u8>>)
    ensures
        match base64_bytes(text@) {
            Some(b) => r matches Some(v) && v@ == b,
            None => r is None,
        },
{
    base64::Engine::decode(&base64::engine::general_purpose::STANDARD, text).ok()
}

} // verus!
