//! The AEAD service of the encrypted transport: a 256-bit key manager that
//! seals a plaintext into `nonce || ciphertext+tag` and opens it again.
//!
//! The AEAD primitive itself is an outside collaborator; what it returns is
//! named by [`aead_open_of`] and every property proved here rests on the
//! correctness contract stated on the trusted wrappers below.

use vstd::prelude::*;
use vstd::slice::slice_subrange;

use base64::Engine;

use crate::ProxyError;

verus! {

/// Longest plaintext the AEAD primitive accepts (its documented message
/// length limit).
pub const AEAD_P_MAX: u64 = 0xf_ffff_ffe0;

/// What the AEAD primitive returns when asked to open `ct` under `key` and
/// `nonce`: the plaintext, or nothing when authentication fails. Decryption
/// is a function of these three arguments alone.
pub uninterp spec fn aead_open_of(key: Seq<u8>, nonce: Seq<u8>, ct: Seq<u8>) -> Option<Seq<u8>>;

/// What base64 decoding (standard alphabet, padded) yields on `s`: the
/// decoded bytes, or nothing when `s` is not valid base64.
pub uninterp spec fn base64_decoding(s: Seq<char>) -> Option<Seq<u8>>;

/// `wire` is a possible sealing of `plain` under `key`: a 12-byte nonce, then
/// the ciphertext carrying a 16-byte tag, and opening it gives `plain` back.
pub open spec fn is_encryption_of(key: Seq<u8>, plain: Seq<u8>, wire: Seq<u8>) -> bool {
    &&& wire.len() == plain.len() + 28
    &&& aead_open_of(key, wire.subrange(0, 12), wire.skip(12)) == Some(plain)
}

/// What opening a whole `nonce || ciphertext` unit under `key` yields.
pub open spec fn decryption_of(key: Seq<u8>, wire: Seq<u8>) -> Option<Seq<u8>> {
    if wire.len() >= 12 {
        aead_open_of(key, wire.subrange(0, 12), wire.skip(12))
    } else {
        None
    }
}

/// Whatever a sealing of `plain` produced, opening it under the same key
/// yields `plain` again, never anything else.
pub proof fn lemma_encrypt_then_decrypt(key: Seq<u8>, plain: Seq<u8>, wire: Seq<u8>)
    requires
        is_encryption_of(key, plain, wire),
    ensures
        decryption_of(key, wire) == Some(plain),
{
}

/// Relies on `rand::fill` on a byte slice: the buffer keeps its length. The
/// contents are random, so nothing more is stated.
#[verifier::external_body]
fn random_bytes(n: usize) -> (r: Vec<u8>)
    ensures
        r@.len() == n,
{
    let mut buf = vec![0u8; n];
    rand::fill(&mut buf[..]);
    buf
}

/// Relies on `aes_gcm::Aes256Gcm` (`KeyInit::new_from_slice` and
/// `aead::Aead::encrypt`): sealing appends a 16-byte tag, and the AEAD
/// correctness property says that opening the result under the same key and
/// nonce gives the plaintext back. Encryption cannot fail below the primitive's
/// documented message length limit.
#[verifier::external_body]
fn aead_seal_call(key: &[u8], nonce: &[u8], plain: &[u8]) -> (r: Vec<u8>)
    requires
        key@.len() == 32,
        nonce@.len() == 12,
        plain@.len() <= AEAD_P_MAX,
    ensures
        r@.len() == plain@.len() + 16,
        aead_open_of(key@, nonce@, r@) == Some(plain@),
{
    let cipher = <aes_gcm::Aes256Gcm as aes_gcm::KeyInit>::new_from_slice(key).unwrap();
    let nonce_arr = aes_gcm::aead::Nonce::<aes_gcm::Aes256Gcm>::try_from(nonce).unwrap();
    aes_gcm::aead::Aead::encrypt(&cipher, &nonce_arr, plain).unwrap()
}

/// Relies on `aes_gcm::Aes256Gcm` (`KeyInit::new_from_slice` and
/// `aead::Aead::decrypt`): decryption is deterministic, returns the plaintext
/// for an authentic ciphertext and fails closed otherwise; [`aead_open_of`]
/// names exactly that result.
#[verifier::external_body]
fn aead_open_call(key: &[u8], nonce: &[u8], ct: &[u8]) -> (r: Option<Vec<u8>>)
    requires
        key@.len() == 32,
        nonce@.len() == 12,
    ensures
        match r {
            Some(p) => aead_open_of(key@, nonce@, ct@) == Some(p@),
            None => aead_open_of(key@, nonce@, ct@) is None,
        },
{
    let cipher = <aes_gcm::Aes256Gcm as aes_gcm::KeyInit>::new_from_slice(key).unwrap();
    match aes_gcm::aead::Nonce::<aes_gcm::Aes256Gcm>::try_from(nonce) {
        Ok(nonce_arr) => aes_gcm::aead::Aead::decrypt(&cipher, &nonce_arr, ct).ok(),
        Err(_) => None,
    }
}

/// Relies on `base64::engine::general_purpose::STANDARD.decode`:
/// [`base64_decoding`] names its result.
#[verifier::external_body]
fn base64_decode_call(s: &str) -> (r: Option<Vec<u8>>)
    ensures
        match r {
            Some(b) => base64_decoding(s@) == Some(b@),
            None => base64_decoding(s@) is None,
        },
{
    base64::engine::general_purpose::STANDARD.decode(s).ok()
}

/// Relies on `base64::engine::general_purpose::STANDARD.encode`: the output
/// is four characters for every started group of three bytes (padded), and
/// decoding it with the same engine gives the input back.
#[verifier::external_body]
fn base64_encode_call(b: &[u8]) -> (r: String)
    ensures
        r@.len() == 4 * ((b@.len() + 2) / 3),
        base64_decoding(r@) == Some(b@),
{
    base64::engine::general_purpose::STANDARD.encode(b)
}

/// Holds one immutable 256-bit key and performs the two AEAD operations of
/// the encrypted transport.
pub struct CryptoManager {
    key: Vec<u8>,
}

impl View for CryptoManager {
    type V = Seq<u8>;

    closed spec fn view(&self) -> Seq<u8> {
        self.key@
    }
}

impl Clone for CryptoManager {
    fn clone(&self) -> (r: Self)
        ensures
            r@ == self@,
    {
        CryptoManager { key: self.key.clone() }
    }
}

impl CryptoManager {
    /// The key is exactly 32 bytes.
    pub closed spec fn wf(self) -> bool {
        self.key@.len() == 32
    }

    /// Builds a key manager from a base64-encoded 256-bit key; any string
    /// that does not decode to exactly 32 bytes is a crypto error.
    pub fn new(key: &str) -> (r: Result<CryptoManager, ProxyError>)
        ensures
            match r {
                Ok(c) => c.wf() && c@.len() == 32 && base64_decoding(key@) == Some(c@),
                Err(e) => {
                    &&& e is CryptoError
                    &&& match base64_decoding(key@) {
                        Some(k) => k.len() != 32,
                        None => true,
                    }
                },
            },
    {
        match base64_decode_call(key) {
            Some(kb) => {
                if kb.len() == 32 {
                    Ok(CryptoManager { key: kb })
                } else {
                    Err(ProxyError::CryptoError)
                }
            },
            None => Err(ProxyError::CryptoError),
        }
    }

    /// Seals a plaintext under this key with a fresh random 96-bit nonce and
    /// returns `nonce || ciphertext+tag`. Every plaintext below the
    /// primitive's length limit is sealed; opening the result under the same
    /// key gives the plaintext back.
    ///
    /// The nonce is drawn uniformly at random for every call: under one key,
    /// a repeat is negligibly unlikely but not impossible, the accepted
    /// trade-off of random-nonce AEAD.
    pub fn encrypt(&self, data: &[u8]) -> (r: Result<Vec<u8>, ProxyError>)
        requires
            self.wf(),
        ensures
            data@.len() <= AEAD_P_MAX ==> r is Ok,
            r matches Ok(w) ==> is_encryption_of(self@, data@, w@),
            r matches Err(e) ==> e is CryptoError,
    {
        if (data.len() as u64) > AEAD_P_MAX {
            return Err(ProxyError::CryptoError);
        }
        let nonce = random_bytes(12);
        let mut ct = aead_seal_call(self.key.as_slice(), nonce.as_slice(), data);
        let ghost ct_view = ct@;
        let mut w = nonce;
        let ghost nonce_view = w@;
        w.append(&mut ct);
        assert(w@.subrange(0, 12) =~= nonce_view);
        assert(w@.skip(12) =~= ct_view);
        Ok(w)
    }

    /// Opens a `nonce || ciphertext+tag` unit sealed under this key. A unit
    /// shorter than a nonce, or one whose tag does not authenticate, is a
    /// crypto error; otherwise the result is exactly the sealed plaintext.
    pub fn decrypt(&self, data: &[u8]) -> (r: Result<Vec<u8>, ProxyError>)
        requires
            self.wf(),
        ensures
            match r {
                Ok(p) => decryption_of(self@, data@) == Some(p@),
                Err(e) => decryption_of(self@, data@) is None && e is CryptoError,
            },
    {
        if data.len() < 12 {
            return Err(ProxyError::CryptoError);
        }
        let nonce = slice_subrange(data, 0, 12);
        let ct = slice_subrange(data, 12, data.len());
        assert(ct@ =~= data@.skip(12));
        match aead_open_call(self.key.as_slice(), nonce, ct) {
            Some(p) => Ok(p),
            None => Err(ProxyError::CryptoError),
        }
    }

    /// Draws a fresh random 256-bit key and returns it base64-encoded: 44
    /// characters that decode back to the 32 key bytes.
    pub fn generate_key() -> (r: String)
        ensures
            r@.len() == 44,
            base64_decoding(r@) matches Some(k) && k.len() == 32,
    {
        let kb = random_bytes(32);
        base64_encode_call(kb.as_slice())
    }
}

} // verus!
