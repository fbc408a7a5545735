//! Keys of the opening handshake.

use base64::engine::general_purpose::STANDARD;
use base64::Engine;
use sha1::{Digest, Sha1};
use vstd::prelude::*;
use vstd::utf8::encode_utf8;

verus! {

/// What a server appends to the key of a client.
pub const ACCEPT_KEY: &'static str = "258EAFA5-E914-47DA-95CA-C5AB0DC85B11";

/// The digest that `Sha1` has of bytes.
pub uninterp spec fn sha1_of(bytes: Seq<u8>) -> Seq<u8>;

/// `Sha1::digest` gives the digest of the bytes, which has 20 bytes.
#[verifier::external_body]
fn sha1(bytes: &[u8]) -> (digest: Vec<u8>)
    ensures
        digest@ == sha1_of(bytes@),
        digest@.len() == 20,
{
    Sha1::digest(bytes).to_vec()
}

/// What the standard engine of `base64` encodes bytes as.
pub uninterp spec fn base64_of(bytes: Seq<u8>) -> Seq<char>;

/// Whether a character occurs in Base64.
pub open spec fn base64_char(c: char) -> bool {
    'A' <= c <= 'Z' || 'a' <= c <= 'z' || '0' <= c <= '9' || c == '+' || c == '/' || c == '='
}

/// `Engine::encode` on the standard engine encodes bytes with padding: four characters of its
/// alphabet for each three bytes and for what is left. It panics where that is
/// too long to be allocated.
#[verifier::external_body]
pub(crate) fn base64(bytes: &[u8]) -> (text: String)
    requires
        bytes@.len() <= usize::MAX / 8,
    ensures
        text@ == base64_of(bytes@),
        text@.len() == (bytes@.len() + 2) / 3 * 4,
        forall|i: int| 0 <= i < text@.len() ==> base64_char(#[trigger] text@[i]),
{
    STANDARD.encode(bytes)
}

/// `rand::random` gives sixteen bytes. Nothing is claimed of them.
#[verifier::external_body]
pub(crate) fn random_nonce() -> (nonce: [u8; 16]) {
    rand::random::<[u8; 16]>()
}

/// A server's answer to the key of a client.
pub open spec fn answer_to(key: Seq<u8>) -> Seq<char> {
    base64_of(sha1_of(key + encode_utf8(ACCEPT_KEY@)))
}

/// Answers the key of a client: the key and a text that every server knows are hashed, and the
/// digest is encoded. The answer has 28 characters of Base64.
pub fn accept_key(key: &[u8]) -> (answer: String)
    ensures
        answer@ == answer_to(key@),
        answer@.len() == 28,
        forall|i: int| 0 <= i < answer@.len() ==> base64_char(#[trigger] answer@[i]),
{
    let mut bytes: Vec<u8> = Vec::new();
    bytes.extend_from_slice(key);
    bytes.extend_from_slice(ACCEPT_KEY.as_bytes());
    assert(bytes@ =~= key@ + encode_utf8(ACCEPT_KEY@));
    let digest = sha1(bytes.as_slice());
    base64(digest.as_slice())
}

} // verus!
