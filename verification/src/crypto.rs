//! Signatures and authenticated encryption. Keys travel through the
//! library as plain bytes: a signing key is 32 bytes, a verifying key is
//! the 32 bytes derived from it, a signature is 64 bytes. The symmetric
//! cipher is ChaCha20-Poly1305, keyed deterministically from the
//! verifying key and the archive's magic so one archive has one stable
//! session key. The calls into the crypto crates are trusted items.

use vstd::prelude::*;
use crate::errors::{InternalError, InternalResult};
use ed25519_dalek::Signer;
use chacha20poly1305::KeyInit;
use chacha20poly1305::aead::Aead;

verus! {

/// The longest plaintext the symmetric cipher accepts: one byte short
/// of the block count at which the ChaCha20 counter would wrap.
pub const MAX_PLAINTEXT_LENGTH: u64 = 274877906880;

/// What deriving a verifying key from the given signing key yields.
pub uninterp spec fn ed_vk_of(sk: Seq<u8>) -> Seq<u8>;

/// What signing the message under the given signing key yields.
/// Ed25519 signatures are deterministic, so this is a function of the
/// key and the message alone.
pub uninterp spec fn ed_sign_of(sk: Seq<u8>, msg: Seq<u8>) -> Seq<u8>;

/// Whether the signature verifies strictly over the message under the
/// given verifying key bytes.
pub uninterp spec fn ed_verify_of(vk: Seq<u8>, msg: Seq<u8>, sig: Seq<u8>) -> bool;

/// What sealing the plaintext under the given ChaCha20-Poly1305 key and
/// nonce yields: the ciphertext with its tag appended.
pub uninterp spec fn aead_encrypt_of(key: Seq<u8>, nonce: Seq<u8>, data: Seq<u8>) -> Seq<u8>;

/// What opening the ciphertext under the given ChaCha20-Poly1305 key
/// and nonce yields, or nothing when authentication fails.
pub uninterp spec fn aead_decrypt_of(key: Seq<u8>, nonce: Seq<u8>, data: Seq<u8>) -> Option<
    Seq<u8>,
>;

/// Relies on ed25519_dalek::SigningKey: from_bytes accepts any 32
/// bytes, and verifying_key().to_bytes() is a function of them.
#[verifier::external_body]
pub fn derive_verifying_key(sk: &[u8]) -> (r: Vec<u8>)
    requires
        sk@.len() == 32,
    ensures
        r@ == ed_vk_of(sk@),
        r@.len() == 32,
{
    let sk_bytes: [u8; 32] = sk.try_into().expect("the key is 32 bytes long");
    let signing_key = ed25519_dalek::SigningKey::from_bytes(&sk_bytes);
    signing_key.verifying_key().to_bytes().to_vec()
}

/// Relies on ed25519_dalek::SigningKey::sign: deterministic per RFC
/// 8032, emits 64 bytes, and what it signs passes verify_strict under
/// the key's own verifying key.
#[verifier::external_body]
pub fn sign_message(sk: &[u8], msg: &[u8]) -> (r: Vec<u8>)
    requires
        sk@.len() == 32,
    ensures
        r@ == ed_sign_of(sk@, msg@),
        r@.len() == 64,
        ed_verify_of(ed_vk_of(sk@), msg@, r@),
{
    let sk_bytes: [u8; 32] = sk.try_into().expect("the key is 32 bytes long");
    let signing_key = ed25519_dalek::SigningKey::from_bytes(&sk_bytes);
    signing_key.sign(msg).to_bytes().to_vec()
}

/// Relies on ed25519_dalek::VerifyingKey::verify_strict; key bytes that
/// name no valid curve point verify nothing.
#[verifier::external_body]
pub fn verify_message(vk: &[u8], msg: &[u8], sig: &[u8]) -> (r: bool)
    requires
        vk@.len() == 32,
        sig@.len() == 64,
    ensures
        r == ed_verify_of(vk@, msg@, sig@),
{
    let vk_bytes: [u8; 32] = vk.try_into().expect("the key is 32 bytes long");
    let sig_bytes: [u8; 64] = sig.try_into().expect("the signature is 64 bytes long");
    let signature = ed25519_dalek::Signature::from_bytes(&sig_bytes);
    match ed25519_dalek::VerifyingKey::from_bytes(&vk_bytes) {
        Ok(verifying_key) => verifying_key.verify_strict(msg, &signature).is_ok(),
        Err(_) => false,
    }
}

/// Relies on chacha20poly1305::ChaCha20Poly1305::encrypt: appends the
/// 16-byte tag, fails only past the length cap the `requires` excludes,
/// and decrypt under the same key and nonce inverts it.
#[verifier::external_body]
fn aead_seal(key: &[u8], nonce: &[u8], data: &[u8]) -> (r: Vec<u8>)
    requires
        key@.len() == 32,
        nonce@.len() == 12,
        data@.len() < MAX_PLAINTEXT_LENGTH,
    ensures
        r@ == aead_encrypt_of(key@, nonce@, data@),
        r@.len() == data@.len() + 16,
        aead_decrypt_of(key@, nonce@, r@) == Some(data@),
{
    let key = chacha20poly1305::Key::try_from(key).expect("the key is 32 bytes long");
    let nonce = chacha20poly1305::Nonce::try_from(nonce).expect("the nonce is 12 bytes long");
    let cipher = chacha20poly1305::ChaCha20Poly1305::new(&key);
    cipher.encrypt(&nonce, data).expect("the plaintext is under the cipher's length cap")
}

/// Relies on chacha20poly1305::ChaCha20Poly1305::decrypt: opens what
/// encrypt sealed and refuses anything tampered with.
#[verifier::external_body]
fn aead_open(key: &[u8], nonce: &[u8], data: &[u8]) -> (r: Option<Vec<u8>>)
    requires
        key@.len() == 32,
        nonce@.len() == 12,
    ensures
        match aead_decrypt_of(key@, nonce@, data@) {
            Some(d) => r matches Some(v) && v@ == d,
            None => r is None,
        },
{
    let key = chacha20poly1305::Key::try_from(key).expect("the key is 32 bytes long");
    let nonce = chacha20poly1305::Nonce::try_from(nonce).expect("the nonce is 12 bytes long");
    let cipher = chacha20poly1305::ChaCha20Poly1305::new(&key);
    cipher.decrypt(&nonce, data).ok()
}

/// The cipher key an archive runs under: the verifying key bytes, with
/// the magic folded in so distinct magics give distinct session keys.
pub open spec fn cipher_key_of(vk: Seq<u8>, magic: Seq<u8>) -> Seq<u8> {
    Seq::new(32, |i: int| vk[i] ^ magic[i % 5])
}

/// The cipher nonce an archive runs under, taken from the verifying key.
pub open spec fn cipher_nonce_of(vk: Seq<u8>) -> Seq<u8> {
    Seq::new(12, |i: int| vk[20 + i])
}

/// What decrypting stored bytes under a reader's verifying key and
/// magic yields.
pub open spec fn decrypt_under(vk: Seq<u8>, magic: Seq<u8>, data: Seq<u8>) -> Option<Seq<u8>> {
    aead_decrypt_of(cipher_key_of(vk, magic), cipher_nonce_of(vk), data)
}

/// The authenticated symmetric cipher of one archive, keyed from a
/// verifying key and the archive's magic.
pub struct Encryptor {
    key: Vec<u8>,
    nonce: Vec<u8>,
}

impl View for Encryptor {
    /// The cipher as its key and nonce bytes.
    type V = (Seq<u8>, Seq<u8>);

    closed spec fn view(&self) -> (Seq<u8>, Seq<u8>) {
        (self.key@, self.nonce@)
    }
}

impl Encryptor {
    /// The key and nonce have the cipher's sizes.
    pub open spec fn wf(&self) -> bool {
        self@.0.len() == 32 && self@.1.len() == 12
    }

    /// Derives the archive's cipher from a verifying key and its magic.
    pub fn new(vk: &[u8], magic: &[u8; 5]) -> (r: Encryptor)
        requires
            vk@.len() == 32,
        ensures
            r@ == (cipher_key_of(vk@, magic@), cipher_nonce_of(vk@)),
            r.wf(),
    {
        let mut key: Vec<u8> = Vec::new();
        let mut i: usize = 0;
        while i < 32
            invariant
                vk@.len() == 32,
                i <= 32,
                key@.len() == i,
                forall|k: int| 0 <= k < i ==> key@[k] == (vk@[k] ^ magic@[k % 5]),
            decreases 32 - i,
        {
            key.push(vk[i] ^ magic[i % 5]);
            i = i + 1;
        }
        let mut nonce: Vec<u8> = Vec::new();
        let mut j: usize = 0;
        while j < 12
            invariant
                vk@.len() == 32,
                j <= 12,
                nonce@.len() == j,
                forall|k: int| 0 <= k < j ==> nonce@[k] == vk@[20 + k],
            decreases 12 - j,
        {
            nonce.push(vk[20 + j]);
            j = j + 1;
        }
        proof {
            assert(key@ =~= cipher_key_of(vk@, magic@));
            assert(nonce@ =~= cipher_nonce_of(vk@));
        }
        Encryptor { key, nonce }
    }

    /// Seals plaintext; the result decrypts back to it under this same
    /// cipher. Fails exactly on plaintext past the cipher's length cap.
    pub fn encrypt(&self, data: &[u8]) -> (r: InternalResult<Vec<u8>>)
        requires
            self.wf(),
        ensures
            data@.len() < MAX_PLAINTEXT_LENGTH ==> (r matches Ok(c) && c@ == aead_encrypt_of(
                self@.0,
                self@.1,
                data@,
            ) && c@.len() == data@.len() + 16 && aead_decrypt_of(self@.0, self@.1, c@) == Some(
                data@,
            )),
            data@.len() >= MAX_PLAINTEXT_LENGTH ==> (r matches Err(e) && e is CipherError),
    {
        if (data.len() as u64) < MAX_PLAINTEXT_LENGTH {
            Ok(aead_seal(self.key.as_slice(), self.nonce.as_slice(), data))
        } else {
            Err(InternalError::CipherError("the plaintext is too long to seal".to_owned()))
        }
    }

    /// Opens sealed bytes; fails exactly when the cipher refuses them.
    pub fn decrypt(&self, data: &[u8]) -> (r: InternalResult<Vec<u8>>)
        requires
            self.wf(),
        ensures
            match aead_decrypt_of(self@.0, self@.1, data@) {
                Some(d) => r matches Ok(v) && v@ == d,
                None => r matches Err(e) && e is CipherError,
            },
    {
        match aead_open(self.key.as_slice(), self.nonce.as_slice(), data) {
            Some(v) => Ok(v),
            None => Err(
                InternalError::CipherError("the ciphertext did not authenticate".to_owned()),
            ),
        }
    }
}

} // verus!
