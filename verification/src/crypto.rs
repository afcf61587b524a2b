//! The calls into the outside crates that encode, hash, sign and draw random
//! numbers, each with what the crate promises of it.

use vstd::prelude::*;
use vstd::utf8::*;
use base64::Engine;
use rand::RngCore;

verus! {

/// What `base64::engine::general_purpose::STANDARD.encode` gives for `bytes`.
pub uninterp spec fn base64_encoded(bytes: Seq<u8>) -> Seq<char>;

/// What `base64::engine::general_purpose::STANDARD.decode` gives for the
/// UTF-8 bytes of `text`: `None` where it reports an error.
pub uninterp spec fn base64_decoded(text: Seq<char>) -> Option<Seq<u8>>;

/// Standard base64 with padding (`STANDARD.encode` of base64 0.21). The
/// contract names the result, states its length (four characters for each
/// started group of three bytes, as `encoded_len` with padding computes
/// it), and states the round trip that the crate documents: decoding the
/// text with the same engine gives back `bytes`.
/// It panics when the encoded length overflows `usize`; `requires` leaves
/// that out.
#[verifier::external_body]
pub(crate) fn base64_encode(bytes: &[u8]) -> (r: String)
    requires
        bytes@.len() / 3 * 4 + 4 <= usize::MAX,
    ensures
        r@ == base64_encoded(bytes@),
        r@.len() == 4 * ((bytes@.len() + 2) / 3),
        base64_decoded(r@) == Some(bytes@),
{
    base64::engine::general_purpose::STANDARD.encode(bytes)
}

/// Standard base64 decoding (`STANDARD.decode` of base64 0.21); the
/// contract names the result and says nothing more of it.
#[verifier::external_body]
pub(crate) fn base64_decode(text: &str) -> (r: Option<Vec<u8>>)
    ensures
        match r {
            Some(v) => base64_decoded(text@) == Some(v@),
            None => base64_decoded(text@) is None,
        },
{
    base64::engine::general_purpose::STANDARD.decode(text).ok()
}

/// `String::from_utf8`: the text the bytes encode, where they are valid
/// UTF-8.
#[verifier::external_body]
pub(crate) fn utf8_string(bytes: Vec<u8>) -> (r: Option<String>)
    ensures
        r is Some <==> valid_utf8(bytes@),
        r matches Some(s) ==> s@ == decode_utf8(bytes@),
{
    String::from_utf8(bytes).ok()
}

/// The x25519 public key of a secret key (the clamped scalar times the base
/// point), as `x25519_dalek::PublicKey::from(&StaticSecret)` computes it.
pub uninterp spec fn x25519_public_key_of(secret: Seq<u8>) -> Seq<u8>;

/// `x25519_dalek::PublicKey::from(&StaticSecret::from(secret)).to_bytes()`;
/// the contract names the result.
#[verifier::external_body]
pub(crate) fn x25519_public_key(secret: &[u8; 32]) -> (r: [u8; 32])
    ensures
        r@ == x25519_public_key_of(secret@),
{
    x25519_dalek::PublicKey::from(&x25519_dalek::StaticSecret::from(*secret)).to_bytes()
}

/// The bytes of `x25519_dalek::StaticSecret::random_from_rng(OsRng)`: 32
/// random bytes. Nothing is promised of their value.
#[verifier::external_body]
pub(crate) fn x25519_random_secret() -> (r: [u8; 32]) {
    x25519_dalek::StaticSecret::random_from_rng(rand::rngs::OsRng).to_bytes()
}

/// The ed25519 public key of a 32-byte seed, as
/// `ed25519_compact::KeyPair::from_seed` computes it.
pub uninterp spec fn ed25519_public_key_of(seed: Seq<u8>) -> Seq<u8>;

/// `ed25519_compact::KeyPair::generate()`: a key pair from a random seed.
/// As the crate's source shows, the 64-byte secret key is the seed followed
/// by the public key, and the public key is that of the seed. The seed
/// itself is random: nothing is promised of it.
#[verifier::external_body]
pub(crate) fn ed25519_generate() -> (r: ([u8; 32], [u8; 64]))
    ensures
        r.1@.subrange(32, 64) == r.0@,
        r.0@ == ed25519_public_key_of(r.1@.subrange(0, 32)),
{
    let pair = ed25519_compact::KeyPair::generate();
    (*pair.pk, *pair.sk)
}

/// The deterministic ed25519 signature (no added noise) of `message` by the
/// 64-byte secret key `secret`, as `ed25519_compact::SecretKey::sign`
/// computes it.
pub uninterp spec fn ed25519_signature_of(secret: Seq<u8>, message: Seq<u8>) -> Seq<u8>;

/// `ed25519_compact::SecretKey::new(*secret).sign(message, None)`, over the
/// UTF-8 bytes of `message`; the contract names the result.
#[verifier::external_body]
pub(crate) fn ed25519_sign(secret: &[u8; 64], message: &str) -> (r: [u8; 64])
    ensures
        r@ == ed25519_signature_of(secret@, encode_utf8(message@)),
{
    *ed25519_compact::SecretKey::new(*secret).sign(message, None)
}

/// `rand::rngs::OsRng.fill_bytes` on 16 bytes. Nothing is promised of the
/// values.
#[verifier::external_body]
pub(crate) fn random_bytes_16() -> (r: [u8; 16]) {
    let mut raw = [0u8; 16];
    rand::rngs::OsRng.fill_bytes(&mut raw);
    raw
}

/// `rand::rngs::OsRng.next_u32()`. Nothing is promised of the value.
#[verifier::external_body]
pub(crate) fn random_u32() -> u32 {
    rand::rngs::OsRng.next_u32()
}

/// Whole seconds since the Unix epoch by the system clock
/// (`SystemTime::now().duration_since(UNIX_EPOCH)`), `None` where the clock
/// stands before the epoch. Nothing is promised of the value.
#[verifier::external_body]
pub(crate) fn unix_time_secs() -> (r: Option<u64>) {
    match std::time::SystemTime::now().duration_since(std::time::UNIX_EPOCH) {
        Ok(d) => Some(d.as_secs()),
        Err(_) => None,
    }
}

/// The JSON string literal of `text`, as `serde_json::to_string` writes a
/// string.
pub uninterp spec fn json_string(text: Seq<char>) -> Seq<char>;

/// A character that `serde_json` writes as it is inside a string literal:
/// not a control character, not `"` and not `\`.
pub open spec fn json_plain_char(c: char) -> bool {
    c >= ' ' && c != '"' && c != '\\'
}

/// `serde_json::to_string` of a string: its JSON literal. As the crate's
/// source shows (the `ESCAPE` table of `ser.rs`), only control characters,
/// `"` and `\` are escaped, so text made of other characters is written
/// between quotes as it is. Serializing a string does not fail.
#[verifier::external_body]
pub(crate) fn json_string_literal(text: &str) -> (r: String)
    ensures
        r@ == json_string(text@),
        (forall|i: int| 0 <= i < text@.len() ==> json_plain_char(#[trigger] text@[i])) ==> r@
            == seq!['"'] + text@ + seq!['"'],
{
    match serde_json::to_string(text) {
        Ok(t) => t,
        Err(_) => String::new(),
    }
}

} // verus!
