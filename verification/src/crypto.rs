//! The cryptographic primitives that SCRAM-SHA-256 is made of, as other crates
//! provide them.
//!
//! What a digest or an encoding comes to is not spelled out here. Each result
//! has a name, and a contract equates what the primitive returns with the name
//! applied to what it was given.

use base64::engine::general_purpose::{STANDARD, STANDARD_NO_PAD};
use base64::Engine;
use hmac::digest::InvalidLength;
use hmac::{Hmac, KeyInit, Mac};
use pbkdf2::pbkdf2_hmac;
use rand::rngs::{SysError, SysRng};
use rand::TryRng;
use sha2::{Digest, Sha256};
use vstd::prelude::*;
use vstd::utf8::is_ascii_chars;

verus! {

/// `base64::DecodeError`, the error of `STANDARD.decode`. Nothing is said of what
/// it holds.
#[verifier::external_type_specification]
#[verifier::external_body]
pub struct ExDecodeError(base64::DecodeError);

/// `hmac::digest::InvalidLength`, the error of `new_from_slice`. Nothing is said of
/// what it holds.
#[verifier::external_type_specification]
#[verifier::external_body]
pub struct ExInvalidLength(hmac::digest::InvalidLength);

/// `rand::rngs::SysError`, the error of `SysRng`. Nothing is said of what it holds.
#[verifier::external_type_specification]
#[verifier::external_body]
pub struct ExSysError(rand::rngs::SysError);

/// The standard base64 text of `data`, padded.
pub uninterp spec fn base64_text(data: Seq<u8>) -> Seq<char>;

/// The standard base64 text of `data`, without padding.
pub uninterp spec fn base64_unpadded_text(data: Seq<u8>) -> Seq<char>;

/// The data that `text` is the standard, padded base64 of, if there is any.
pub uninterp spec fn base64_data(text: Seq<u8>) -> Option<Seq<u8>>;

/// The HMAC-SHA-256 of `data` under `key`.
pub uninterp spec fn hmac_sha256_code(key: Seq<u8>, data: Seq<u8>) -> Seq<u8>;

/// The SHA-256 of `data`.
pub uninterp spec fn sha256_digest(data: Seq<u8>) -> Seq<u8>;

/// The first `len` bytes of the PBKDF2-HMAC-SHA-256 key stream.
pub uninterp spec fn pbkdf2_key(password: Seq<u8>, salt: Seq<u8>, rounds: u32, len: nat) -> Seq<u8>;

/// A character of the standard base64 alphabet.
pub open spec fn is_base64_char(c: char) -> bool {
    'A' <= c <= 'Z' || 'a' <= c <= 'z' || '0' <= c <= '9' || c == '+' || c == '/'
}

/// A text of the standard base64 alphabet, without padding.
pub open spec fn is_base64_text(text: Seq<char>) -> bool {
    forall|i: int| 0 <= i < text.len() ==> is_base64_char(#[trigger] text[i])
}

/// Base64 is ASCII.
pub proof fn lemma_base64_is_ascii(text: Seq<char>)
    requires
        is_base64_text(text),
    ensures
        is_ascii_chars(text),
{
    assert forall|i: int| 0 <= i < text.len() implies '\0' <= #[trigger] text[i] <= '\u{7f}' by {
        assert(is_base64_char(text[i]));
    }
}

/// `STANDARD.encode`: the padded base64 text, four characters for each three
/// bytes begun. It panics where that many characters do not fit.
#[verifier::external_body]
pub(crate) fn encode_base64(data: &[u8]) -> (text: String)
    requires
        (data@.len() + 2) / 3 * 4 <= isize::MAX,
    ensures
        text@ == base64_text(data@),
        is_ascii_chars(text@),
        text@.len() == (data@.len() + 2) / 3 * 4,
{
    STANDARD.encode(data)
}

/// `STANDARD_NO_PAD.encode`: the base64 text without padding, a character for
/// each six bits begun: a letter, a digit, `+` or `/`. It panics where that many
/// characters do not fit.
#[verifier::external_body]
pub(crate) fn encode_base64_unpadded(data: &[u8]) -> (text: String)
    requires
        (data@.len() + 2) / 3 * 4 <= isize::MAX,
    ensures
        text@ == base64_unpadded_text(data@),
        is_base64_text(text@),
        text@.len() == (data@.len() * 8 + 5) / 6,
{
    STANDARD_NO_PAD.encode(data)
}

/// `STANDARD.decode`: the bytes that `text` encodes, an error where it is not
/// padded base64.
#[verifier::external_body]
pub(crate) fn decode_base64(text: &[u8]) -> (r: Result<Vec<u8>, base64::DecodeError>)
    ensures
        match r {
            Ok(data) => base64_data(text@) == Some(data@),
            Err(_) => base64_data(text@) is None,
        },
{
    STANDARD.decode(text)
}

/// `Hmac::<Sha256>::new_from_slice`, `update` and `finalize`: the 32 bytes of the
/// code. A key of any length is accepted. One of fewer than 64 bytes, the block of
/// the digest, is filled up with zero bytes, so a zero byte behind it changes
/// nothing. One of more than 64 bytes stands for its digest.
#[verifier::external_body]
pub(crate) fn hmac_code(key: &[u8], data: &[u8]) -> (r: Result<Vec<u8>, InvalidLength>)
    ensures
        match r {
            Ok(code) => {
                &&& code@ == hmac_sha256_code(key@, data@)
                &&& code@.len() == 32
                &&& key@.len() < 64 ==> code@ == hmac_sha256_code(key@.push(0), data@)
                &&& key@.len() > 64 ==> code@ == hmac_sha256_code(sha256_digest(key@), data@)
            },
            Err(_) => false,
        },
{
    let mut mac = <Hmac<Sha256> as KeyInit>::new_from_slice(key)?;
    mac.update(data);
    Ok(mac.finalize().into_bytes().to_vec())
}

/// `Sha256::digest`: the 32 bytes of the digest.
#[verifier::external_body]
pub(crate) fn sha256(data: &[u8]) -> (digest: Vec<u8>)
    ensures
        digest@ == sha256_digest(data@),
        digest@.len() == 32,
{
    Sha256::digest(data).to_vec()
}

/// `pbkdf2_hmac::<Sha256>`: fills `out` with key bytes. Block numbers have 32
/// bits.
#[verifier::external_body]
pub(crate) fn fill_pbkdf2(password: &[u8], salt: &[u8], rounds: u32, out: &mut [u8])
    requires
        old(out)@.len() <= u32::MAX,
    ensures
        final(out)@ == pbkdf2_key(password@, salt@, rounds, old(out)@.len()),
        final(out)@.len() == old(out)@.len(),
{
    pbkdf2_hmac::<Sha256>(password, salt, rounds, out)
}

/// `SysRng::try_fill_bytes`: overwrites `out` with random bytes, if the system
/// provides them. Nothing can be said of the bytes.
#[verifier::external_body]
pub(crate) fn fill_random(out: &mut [u8]) -> (r: Result<(), SysError>)
    ensures
        final(out)@.len() == old(out)@.len(),
{
    SysRng.try_fill_bytes(out)
}

} // verus!
