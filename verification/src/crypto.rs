//! Cryptographic primitives: authenticated symmetric encryption, asymmetric
//! key wrapping, and the base64 transport envelope.
//!
//! The primitives come from outside crates; each is used through one trusted
//! wrapper whose contract names what the call computes.  What a decryption
//! returns is a function of key and ciphertext alone, so it gets a name
//! ([`aead_open`], [`rsa_open`], [`base64_parse`]); the randomized
//! encryptions promise only what holds of every outcome: that opening the
//! result with the matching key yields the plaintext back.

use vstd::prelude::*;

use base64::Engine;
use chacha20poly1305::aead::generic_array::GenericArray;
use chacha20poly1305::aead::{Aead, AeadCore, KeyInit};
use chacha20poly1305::ChaCha20Poly1305;
use rsa::pkcs1::{
    DecodeRsaPrivateKey, DecodeRsaPublicKey, EncodeRsaPrivateKey, EncodeRsaPublicKey,
};

verus! {

/// AEAD keys are exactly 32 bytes.
pub const AEAD_KEY_LEN: usize = 32;

/// A sealed box starts with a 12-byte nonce and ends with a 16-byte tag.
pub const AEAD_OVERHEAD: usize = 28;

/// Failures of the client-side cryptography.
#[derive(Clone, Copy, Debug, PartialEq, Eq, Structural)]
pub enum CryptoError {
    /// An AEAD open or asymmetric unwrap failed: wrong key or corrupt data.
    KeyMismatch,
    /// Key generation or encryption itself failed.
    EncryptionFailed,
}

/// Plaintexts the AEAD accepts: below the cipher's 32-bit block-counter
/// bound, the one length check sealing makes.
pub open spec fn aead_sealable(len: nat) -> bool {
    len / 64 < 0xFFFF_FFFF
}

/// What ChaCha20-Poly1305 opening returns for a key and a nonce-prefixed
/// ciphertext: a function of its two arguments alone.
pub uninterp spec fn aead_open(key: Seq<u8>, data: Seq<u8>) -> Option<Seq<u8>>;

/// What RSA-OAEP-SHA256 decryption returns for a PKCS#1-DER private key and
/// a ciphertext: a function of its two arguments alone.
pub uninterp spec fn rsa_open(privkey: Seq<u8>, data: Seq<u8>) -> Option<Seq<u8>>;

/// Whether two PKCS#1-DER byte strings form one RSA keypair, as the key
/// generator produces them.
pub uninterp spec fn rsa_keypair(pubkey: Seq<u8>, privkey: Seq<u8>) -> bool;

/// What standard base64 encoding (with padding) produces for a byte string.
pub uninterp spec fn base64_of(data: Seq<u8>) -> Seq<char>;

/// What strict standard base64 decoding returns for a string.
pub uninterp spec fn base64_parse(s: Seq<char>) -> Option<Seq<u8>>;

/// Relies on `chacha20poly1305::ChaCha20Poly1305`: seals `data` under a fresh
/// random 12-byte nonce, returning nonce then ciphertext and tag; opening the
/// result with the same key yields `data` again, per the AEAD contract.
/// Sealing fails only when the plaintext would overflow the cipher's 32-bit
/// block counter.
#[verifier::external_body]
pub fn chacha_encrypt(data: &[u8], key: &[u8]) -> (r: Result<Vec<u8>, CryptoError>)
    requires
        key@.len() == AEAD_KEY_LEN,
    ensures
        r matches Ok(c) ==> c@.len() == data@.len() + AEAD_OVERHEAD && aead_open(key@, c@)
            == Some(data@),
        aead_sealable(data@.len()) ==> r is Ok,
{
    let cipher = ChaCha20Poly1305::new(GenericArray::from_slice(key));
    let nonce = ChaCha20Poly1305::generate_nonce(&mut chacha20poly1305::aead::OsRng);
    match cipher.encrypt(&nonce, data) {
        Ok(enc) => Ok([nonce.to_vec(), enc].concat()),
        Err(_) => Err(CryptoError::EncryptionFailed),
    }
}

/// Relies on `chacha20poly1305::ChaCha20Poly1305`: splits the leading
/// 12-byte nonce off `data` and opens the rest; deterministic in `key` and
/// `data`, failing exactly when key or ciphertext do not match.
#[verifier::external_body]
pub fn chacha_decrypt(data: &[u8], key: &[u8]) -> (r: Result<Vec<u8>, CryptoError>)
    requires
        key@.len() == AEAD_KEY_LEN,
        data@.len() >= 12,
    ensures
        r matches Ok(p) ==> aead_open(key@, data@) == Some(p@),
        r is Err ==> aead_open(key@, data@) is None && r->Err_0 == CryptoError::KeyMismatch,
{
    let cipher = ChaCha20Poly1305::new(GenericArray::from_slice(key));
    let nonce = &data[..12];
    let rest = &data[12..];
    match cipher.decrypt(GenericArray::from_slice(nonce), rest) {
        Ok(p) => Ok(p),
        Err(_) => Err(CryptoError::KeyMismatch),
    }
}

/// Relies on `rsa::RsaPrivateKey::new` and the PKCS#1 DER encoders: a fresh
/// RSA keypair of the requested size, returned as (public, private) DER.
#[verifier::external_body]
pub fn rsa_generate_keypair(bits: usize) -> (r: Result<(Vec<u8>, Vec<u8>), CryptoError>)
    ensures
        r matches Ok(kp) ==> rsa_keypair(kp.0@, kp.1@),
{
    let mut rng = rand::rngs::OsRng;
    let priv_key = match rsa::RsaPrivateKey::new(&mut rng, bits) {
        Ok(k) => k,
        Err(_) => return Err(CryptoError::EncryptionFailed),
    };
    let pub_key = rsa::RsaPublicKey::from(&priv_key);
    match (pub_key.to_pkcs1_der(), priv_key.to_pkcs1_der()) {
        (Ok(p), Ok(s)) => Ok((p.to_vec(), s.as_bytes().to_vec())),
        _ => Err(CryptoError::EncryptionFailed),
    }
}

/// Relies on `rsa::RsaPublicKey::encrypt` with OAEP-SHA256: randomized, but
/// any private key forming a keypair with `pubkey` opens the result to
/// `data`.
#[verifier::external_body]
pub fn rsa_encrypt(data: &[u8], pubkey: &[u8]) -> (r: Result<Vec<u8>, CryptoError>)
    ensures
        r matches Ok(c) ==> forall|sk: Seq<u8>|
            #[trigger] rsa_keypair(pubkey@, sk) ==> rsa_open(sk, c@) == Some(data@),
{
    let key = match rsa::RsaPublicKey::from_pkcs1_der(pubkey) {
        Ok(k) => k,
        Err(_) => return Err(CryptoError::EncryptionFailed),
    };
    let padding = rsa::Oaep::new::<rsa::sha2::Sha256>();
    match key.encrypt(&mut rand::rngs::OsRng, padding, data) {
        Ok(c) => Ok(c),
        Err(_) => Err(CryptoError::EncryptionFailed),
    }
}

/// Relies on `rsa::RsaPrivateKey::decrypt` with OAEP-SHA256: deterministic
/// in `privkey` and `data`, failing exactly when they do not match.
#[verifier::external_body]
pub fn rsa_decrypt(data: &[u8], privkey: &[u8]) -> (r: Result<Vec<u8>, CryptoError>)
    ensures
        r matches Ok(p) ==> rsa_open(privkey@, data@) == Some(p@),
        r is Err ==> rsa_open(privkey@, data@) is None && r->Err_0 == CryptoError::KeyMismatch,
{
    let key = match rsa::RsaPrivateKey::from_pkcs1_der(privkey) {
        Ok(k) => k,
        Err(_) => return Err(CryptoError::KeyMismatch),
    };
    let padding = rsa::Oaep::new::<rsa::sha2::Sha256>();
    match key.decrypt(padding, data) {
        Ok(p) => Ok(p),
        Err(_) => Err(CryptoError::KeyMismatch),
    }
}

/// Relies on `base64`'s standard engine with padding: deterministic, and
/// decoding the encoding returns the input bytes.
#[verifier::external_body]
pub fn b64_encode(data: &[u8]) -> (r: String)
    ensures
        r@ == base64_of(data@),
        base64_parse(r@) == Some(data@),
{
    base64::engine::general_purpose::STANDARD.encode(data)
}

/// Relies on `base64`'s standard engine with padding: deterministic in its
/// input, failing exactly on strings that are not valid base64.
#[verifier::external_body]
pub fn b64_decode(s: &str) -> (r: Result<Vec<u8>, CryptoError>)
    ensures
        r matches Ok(b) ==> base64_parse(s@) == Some(b@),
        r is Err ==> base64_parse(s@) is None && r->Err_0 == CryptoError::KeyMismatch,
{
    match base64::engine::general_purpose::STANDARD.decode(s) {
        Ok(b) => Ok(b),
        Err(_) => Err(CryptoError::KeyMismatch),
    }
}

/// Relies on `ChaCha20Poly1305::generate_key`: a fresh random 32-byte key.
#[verifier::external_body]
pub fn generate_aead_key() -> (r: Vec<u8>)
    ensures
        r@.len() == AEAD_KEY_LEN,
{
    let key = ChaCha20Poly1305::generate_key(&mut chacha20poly1305::aead::OsRng);
    key.as_slice().to_vec()
}

/// Relies on `uuid::Uuid::new_v4`: a fresh random 128-bit identifier.
#[verifier::external_body]
pub fn fresh_file_id() -> (r: u128) {
    uuid::Uuid::new_v4().as_u128()
}

/// Relies on `String::from_utf8`: succeeds exactly on valid UTF-8 and
/// returns the characters those bytes encode.
#[verifier::external_body]
pub fn utf8_to_string(v: Vec<u8>) -> (r: Result<String, CryptoError>)
    ensures
        r is Ok <==> vstd::utf8::valid_utf8(v@),
        r matches Ok(s) ==> s@ == vstd::utf8::decode_utf8(v@),
{
    match String::from_utf8(v) {
        Ok(s) => Ok(s),
        Err(_) => Err(CryptoError::KeyMismatch),
    }
}

/// Opening a sealed box: a total function over the named AEAD opening, false
/// on inputs too short to carry a nonce.
pub open spec fn open_sealed(key: Seq<u8>, data: Seq<u8>) -> Option<Seq<u8>> {
    if data.len() >= 12 {
        aead_open(key, data)
    } else {
        None
    }
}

/// Unwrapping one wrapped key: asymmetric at the root, symmetric below it;
/// only 32-byte results are keys.
pub open spec fn open_wrapped(wkey: Seq<u8>, data: Seq<u8>, root: bool) -> Option<Seq<u8>> {
    let k = if root {
        rsa_open(wkey, data)
    } else {
        open_sealed(wkey, data)
    };
    match k {
        Some(x) => if x.len() == AEAD_KEY_LEN {
            Some(x)
        } else {
            None
        },
        None => None,
    }
}

/// Decrypting one transported name: base64, then AEAD, then UTF-8.
pub open spec fn open_name(key: Seq<u8>, name_b64: Seq<char>) -> Option<Seq<char>> {
    match base64_parse(name_b64) {
        Some(ct) => match open_sealed(key, ct) {
            Some(pt) => if vstd::utf8::valid_utf8(pt) {
                Some(vstd::utf8::decode_utf8(pt))
            } else {
                None
            },
            None => None,
        },
        None => None,
    }
}

/// Seal bytes under an AEAD key.
pub fn seal_bytes(data: &[u8], key: &[u8]) -> (r: Result<Vec<u8>, CryptoError>)
    requires
        key@.len() == AEAD_KEY_LEN,
    ensures
        r matches Ok(c) ==> open_sealed(key@, c@) == Some(data@) && c@.len() == data@.len()
            + AEAD_OVERHEAD,
        aead_sealable(data@.len()) ==> r is Ok,
{
    chacha_encrypt(data, key)
}

/// Open a sealed box, rejecting inputs too short to carry a nonce.
pub fn open_sealed_bytes(data: &[u8], key: &[u8]) -> (r: Result<Vec<u8>, CryptoError>)
    requires
        key@.len() == AEAD_KEY_LEN,
    ensures
        r matches Ok(p) ==> open_sealed(key@, data@) == Some(p@),
        r is Err ==> open_sealed(key@, data@) is None,
{
    if data.len() < 12 {
        return Err(CryptoError::KeyMismatch);
    }
    chacha_decrypt(data, key)
}

/// Unwrap one wrapped symmetric key (asymmetric at the root level).
pub fn unwrap_key(data: &[u8], wkey: &[u8], root: bool) -> (r: Result<Vec<u8>, CryptoError>)
    requires
        !root ==> wkey@.len() == AEAD_KEY_LEN,
    ensures
        r matches Ok(k) ==> open_wrapped(wkey@, data@, root) == Some(k@) && k@.len()
            == AEAD_KEY_LEN,
        r is Err ==> open_wrapped(wkey@, data@, root) is None,
{
    let k = if root {
        rsa_decrypt(data, wkey)
    } else {
        open_sealed_bytes(data, wkey)
    };
    match k {
        Ok(k) => {
            if k.len() != AEAD_KEY_LEN {
                return Err(CryptoError::KeyMismatch);
            }
            Ok(k)
        },
        Err(e) => Err(e),
    }
}

/// Encrypt a plaintext name for transport: AEAD under `key`, then base64.
pub fn seal_name(name: &str, key: &[u8]) -> (r: Result<String, CryptoError>)
    requires
        key@.len() == AEAD_KEY_LEN,
    ensures
        r matches Ok(s) ==> open_name(key@, s@) == Some(name@),
        aead_sealable(vstd::utf8::encode_utf8(name@).len()) ==> r is Ok,
{
    proof {
        vstd::utf8::encode_utf8_valid_utf8(name@);
        vstd::utf8::encode_utf8_decode_utf8(name@);
    }
    let ct = match seal_bytes(name.as_bytes(), key) {
        Ok(c) => c,
        Err(e) => {
            return Err(e);
        },
    };
    Ok(b64_encode(ct.as_slice()))
}

/// Wrap a symmetric key for a keyring: under the user's public key at the
/// root, under the folder key below it.
pub fn wrap_key(key: &[u8], wkey: &[u8], root: bool) -> (r: Result<Vec<u8>, CryptoError>)
    requires
        key@.len() == AEAD_KEY_LEN,
        !root ==> wkey@.len() == AEAD_KEY_LEN,
    ensures
        r matches Ok(c) ==> {
            &&& !root ==> open_wrapped(wkey@, c@, false) == Some(key@)
            &&& root ==> forall|sk: Seq<u8>|
                #[trigger] rsa_keypair(wkey@, sk) ==> open_wrapped(sk, c@, true) == Some(key@)
        },
        !root ==> r is Ok,
{
    if root {
        rsa_encrypt(key, wkey)
    } else {
        seal_bytes(key, wkey)
    }
}

} // verus!
