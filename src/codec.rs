//! The encryption codec: AES-256-GCM with a 96-bit nonce, the nonce and
//! ciphertext joined and written as standard base64.

use vstd::prelude::*;
use vstd::utf8::{decode_utf8, encode_utf8, valid_utf8};

verus! {

broadcast use {vstd::utf8::encode_utf8_valid_utf8, vstd::utf8::encode_utf8_decode_utf8};

/// Bytes of the nonce that leads every envelope.
pub const NONCE_LEN: usize = 12;

/// Bytes of the authentication tag that ends every ciphertext.
pub const TAG_LEN: usize = 16;

/// Longest plaintext, in bytes, that AES-GCM accepts.
pub const PLAINTEXT_MAX: u64 = 68719476736;

/// What `base64`'s standard engine (padded) writes for the bytes `b`.
pub uninterp spec fn base64_of(b: Seq<u8>) -> Seq<char>;

/// What `Sha256` makes of the bytes `b`.
pub uninterp spec fn sha256_of(b: Seq<u8>) -> Seq<u8>;

/// The ciphertext, tag included, that AES-256-GCM makes of `plain` under
/// `key` and `nonce` with no associated data.
pub uninterp spec fn gcm_sealed(key: Seq<u8>, nonce: Seq<u8>, plain: Seq<u8>) -> Seq<u8>;

/// Relies on `base64::engine::general_purpose::STANDARD.encode`.
#[verifier::external_body]
pub(crate) fn base64_encode(b: &[u8]) -> (r: String)
    ensures
        r@ == base64_of(b@),
{
    base64::Engine::encode(&base64::engine::general_purpose::STANDARD, b)
}

/// Relies on `base64::engine::general_purpose::STANDARD.decode`: it decodes
/// whatever the same engine encodes, and, requiring canonical padding and no
/// trailing bits, accepts nothing else.
#[verifier::external_body]
pub(crate) fn base64_decode(s: &str) -> (r: Option<Vec<u8>>)
    ensures
        forall|b: Seq<u8>| #[trigger] base64_of(b) == s@ ==> r is Some && r->0@ == b,
        r is Some ==> base64_of(r->0@) == s@,
{
    base64::Engine::decode(&base64::engine::general_purpose::STANDARD, s).ok()
}

/// Relies on `sha2::Sha256::digest`: a 32-byte digest of the input.
#[verifier::external_body]
pub(crate) fn sha256(b: &[u8]) -> (r: [u8; 32])
    ensures
        r@ == sha256_of(b@),
{
    let digest = <sha2::Sha256 as sha2::Digest>::digest(b);
    let mut out = [0u8; 32];
    out.copy_from_slice(&digest);
    out
}

/// Relies on `aes_gcm::Aes256Gcm::encrypt` with no associated data: it fails
/// only on a plaintext longer than `PLAINTEXT_MAX` bytes, and the ciphertext
/// is as long as the plaintext followed by the 16-byte tag.
#[verifier::external_body]
pub(crate) fn gcm_encrypt(key: &[u8; 32], nonce: &[u8], plain: &[u8]) -> (r: Option<Vec<u8>>)
    requires
        nonce@.len() == NONCE_LEN,
    ensures
        plain@.len() <= PLAINTEXT_MAX ==> r is Some && r->0@ == gcm_sealed(key@, nonce@, plain@),
        plain@.len() > PLAINTEXT_MAX ==> r is None,
        r is Some ==> r->0@.len() == plain@.len() + TAG_LEN,
{
    let cipher = <aes_gcm::Aes256Gcm as aes_gcm::KeyInit>::new(aes_gcm::Key::<aes_gcm::Aes256Gcm>::from_slice(key));
    aes_gcm::aead::Aead::encrypt(&cipher, aes_gcm::Nonce::from_slice(nonce), plain).ok()
}

/// Relies on `aes_gcm::Aes256Gcm::decrypt` with no associated data: it
/// recovers any plaintext that `encrypt` sealed under the same key and nonce,
/// and succeeds only when the ciphertext is exactly such a sealing of what it
/// returns.
#[verifier::external_body]
pub(crate) fn gcm_decrypt(key: &[u8; 32], nonce: &[u8], sealed: &[u8]) -> (r: Option<Vec<u8>>)
    requires
        nonce@.len() == NONCE_LEN,
    ensures
        forall|p: Seq<u8>|
            p.len() <= PLAINTEXT_MAX && #[trigger] gcm_sealed(key@, nonce@, p) == sealed@ ==> r is Some
                && r->0@ == p,
        r is Some ==> gcm_sealed(key@, nonce@, r->0@) == sealed@,
{
    let cipher = <aes_gcm::Aes256Gcm as aes_gcm::KeyInit>::new(aes_gcm::Key::<aes_gcm::Aes256Gcm>::from_slice(key));
    aes_gcm::aead::Aead::decrypt(&cipher, aes_gcm::Nonce::from_slice(nonce), sealed).ok()
}

/// Relies on `String::from_utf8`: it accepts exactly the valid UTF-8 byte
/// sequences and returns the characters they encode.
#[verifier::external_body]
pub(crate) fn utf8_to_string(b: Vec<u8>) -> (r: Option<String>)
    ensures
        r is Some <==> valid_utf8(b@),
        r is Some ==> r->0@ == decode_utf8(b@),
{
    String::from_utf8(b).ok()
}

/// Relies on `rand::rngs::OsRng::try_fill_bytes`: `None` when the operating
/// system's random source fails. Nothing is promised of the bytes.
#[verifier::external_body]
pub(crate) fn random_bytes<const N: usize>() -> (r: Option<[u8; N]>) {
    let mut out = [0u8; N];
    rand::RngCore::try_fill_bytes(&mut rand::rngs::OsRng, &mut out).ok().map(|_| out)
}

/// The envelope that sealing `text` under `key` with `nonce` gives.
pub open spec fn envelope_of(key: Seq<u8>, nonce: Seq<u8>, text: Seq<char>) -> Seq<char> {
    base64_of(nonce + gcm_sealed(key, nonce, encode_utf8(text)))
}

/// The text is short enough to be sealed.
pub open spec fn sealable(text: Seq<char>) -> bool {
    encode_utf8(text).len() <= PLAINTEXT_MAX
}

/// The decoded envelope `b` holds a nonce, and no plaintext that AES-GCM
/// accepts seals to the bytes after it under `key`.
pub open spec fn fails_authentication(key: Seq<u8>, b: Seq<u8>) -> bool {
    &&& b.len() >= NONCE_LEN
    &&& forall|p: Seq<u8>|
        p.len() <= PLAINTEXT_MAX ==> #[trigger] gcm_sealed(key, b.take(NONCE_LEN as int), p)
            != b.skip(NONCE_LEN as int)
}

/// The decoded envelope `b` holds a nonce, and the bytes after it are the
/// sealing under `key` of a plaintext that is not UTF-8.
pub open spec fn seals_non_text(key: Seq<u8>, b: Seq<u8>) -> bool {
    &&& b.len() >= NONCE_LEN
    &&& exists|p: Seq<u8>|
        #[trigger] gcm_sealed(key, b.take(NONCE_LEN as int), p) == b.skip(NONCE_LEN as int)
            && !valid_utf8(p)
}

/// Why an envelope did not open.
#[derive(Debug, Clone, Copy, PartialEq, Eq)]
pub enum OpenError {
    /// Not standard base64.
    NotBase64,
    /// Shorter than a nonce.
    TooShort,
    /// Authentication failed: wrong key, or the envelope was altered.
    Rejected,
    /// The plaintext is not UTF-8.
    NotText,
}

/// Seals `text` under `key` with `nonce`: base64 of the nonce followed by
/// the AES-256-GCM ciphertext. `None` only when the text is too long for
/// AES-GCM.
pub fn seal(text: &str, key: &[u8; 32], nonce: &[u8; 12]) -> (r: Option<String>)
    ensures
        sealable(text@) ==> r is Some && r->0@ == envelope_of(key@, nonce@, text@),
        sealable(text@) ==> gcm_sealed(key@, nonce@, encode_utf8(text@)).len() == encode_utf8(
            text@,
        ).len() + TAG_LEN,
        !sealable(text@) ==> r is None,
{
    let ct = match gcm_encrypt(key, nonce.as_slice(), text.as_bytes()) {
        Some(ct) => ct,
        None => return None,
    };
    let mut joined: Vec<u8> = Vec::new();
    let mut i: usize = 0;
    while i < NONCE_LEN
        invariant
            i <= NONCE_LEN,
            joined@ == nonce@.take(i as int),
        decreases NONCE_LEN - i,
    {
        joined.push(nonce[i]);
        assert(joined@ =~= nonce@.take(i + 1));
        i = i + 1;
    }
    let mut j: usize = 0;
    while j < ct.len()
        invariant
            j <= ct@.len(),
            joined@ == nonce@ + ct@.take(j as int),
        decreases ct@.len() - j,
    {
        joined.push(ct[j]);
        assert(joined@ =~= nonce@ + ct@.take(j + 1));
        j = j + 1;
    }
    assert(ct@.take(ct@.len() as int) =~= ct@);
    Some(base64_encode(joined.as_slice()))
}

/// Seals `text` under `key` with a fresh random nonce; `None` when the text
/// is too long or no random nonce could be drawn.
pub fn encrypt_data(text: &str, key: &[u8; 32]) -> (r: Option<String>)
    ensures
        r is Some ==> sealable(text@) && exists|n: Seq<u8>|
            n.len() == NONCE_LEN && r->0@ == envelope_of(key@, n, text@),
        !sealable(text@) ==> r is None,
{
    let nonce: [u8; 12] = match random_bytes() {
        Some(n) => n,
        None => return None,
    };
    seal(text, key, &nonce)
}

/// Opens an envelope made by [`seal`] under `key`.
///
/// Any envelope that sealing some text under `key` gives opens to that text;
/// and when an envelope opens, sealing the result under `key` with the
/// envelope's own nonce gives the envelope back.
pub fn decrypt_data(envelope: &str, key: &[u8; 32]) -> (r: Result<String, OpenError>)
    ensures
        forall|n: Seq<u8>, t: Seq<char>|
            n.len() == NONCE_LEN && sealable(t) && #[trigger] envelope_of(key@, n, t) == envelope@
                ==> r is Ok && r->Ok_0@ == t,
        r is Ok ==> exists|n: Seq<u8>|
            n.len() == NONCE_LEN && envelope_of(key@, n, r->Ok_0@) == envelope@,
        r == Err::<String, OpenError>(OpenError::NotBase64) <==> !exists|b: Seq<u8>|
            base64_of(b) == envelope@,
        r == Err::<String, OpenError>(OpenError::TooShort) <==> exists|b: Seq<u8>|
            #[trigger] base64_of(b) == envelope@ && b.len() < NONCE_LEN,
        r == Err::<String, OpenError>(OpenError::Rejected) ==> exists|b: Seq<u8>|
            #[trigger] base64_of(b) == envelope@ && fails_authentication(key@, b),
        r == Err::<String, OpenError>(OpenError::NotText) ==> exists|b: Seq<u8>|
            #[trigger] base64_of(b) == envelope@ && seals_non_text(key@, b),
{
    let bytes = match base64_decode(envelope) {
        Some(b) => b,
        None => return Err(OpenError::NotBase64),
    };
    if bytes.len() < NONCE_LEN {
        proof {
            assert forall|n: Seq<u8>, t: Seq<char>|
                n.len() == NONCE_LEN && #[trigger] envelope_of(key@, n, t) == envelope@ implies false by {
                assert(bytes@ == n + gcm_sealed(key@, n, encode_utf8(t)));
            }
        }
        return Err(OpenError::TooShort);
    }
    let (nonce, sealed) = bytes.as_slice().split_at(NONCE_LEN);
    proof {
        assert(bytes@ =~= nonce@ + sealed@);
        assert(nonce@ =~= bytes@.take(NONCE_LEN as int));
        assert(sealed@ =~= bytes@.skip(NONCE_LEN as int));
        assert forall|n: Seq<u8>, t: Seq<char>|
            n.len() == NONCE_LEN && #[trigger] envelope_of(key@, n, t) == envelope@ implies n
            == nonce@ && gcm_sealed(key@, n, encode_utf8(t)) == sealed@ by {
            let whole = n + gcm_sealed(key@, n, encode_utf8(t));
            assert(bytes@ == whole);
            assert(nonce@ =~= whole.take(NONCE_LEN as int));
            assert(sealed@ =~= whole.skip(NONCE_LEN as int));
        }
    }
    let plain = match gcm_decrypt(key, nonce, sealed) {
        Some(p) => p,
        None => {
            assert(fails_authentication(key@, bytes@));
            return Err(OpenError::Rejected);
        },
    };
    let ghost pb = plain@;
    match utf8_to_string(plain) {
        Some(t) => {
            proof {
                vstd::utf8::decode_utf8_encode_utf8(pb);
                assert(envelope_of(key@, nonce@, t@) == envelope@);
            }
            Ok(t)
        },
        None => {
            assert(seals_non_text(key@, bytes@)) by {
                assert(gcm_sealed(key@, nonce@, pb) == sealed@);
            }
            Err(OpenError::NotText)
        },
    }
}

} // verus!
