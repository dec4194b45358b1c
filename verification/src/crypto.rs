//! The authenticated-encryption primitive: AES-256 in Galois/Counter mode
//! with a fresh random nonce in front of every message.

use aes_gcm::aead::{Aead, AeadCore, KeyInit, OsRng};
use aes_gcm::{Aes256Gcm, Key, Nonce};
use vstd::prelude::*;
use vstd::slice::slice_subrange;
use vstd::slice::slice_to_vec;

verus! {

/// Length of a key in bytes.
pub const KEY_SIZE: usize = 32;

/// Length of the nonce that starts every frame.
pub const NONCE_SIZE: usize = 12;

/// Length of the authentication tag that ends every frame.
pub const TAG_SIZE: usize = 16;

/// Bytes that a frame adds to its plaintext: nonce and tag.
pub const FRAME_OVERHEAD: usize = 28;

/// Longest plaintext that the cipher seals in one message: 2^36 bytes.
pub const MAX_MESSAGE_LEN: u64 = 0x10_0000_0000;

#[derive(Clone, Copy, Debug, PartialEq, Eq, Structural)]
pub enum CryptoError {
    /// The supplied key is not `KEY_SIZE` bytes long.
    KeyError,
    /// The cipher refused to seal the message.
    EncryptionError,
    /// The frame is too short, or the cipher did not authenticate it.
    DecryptionError,
}

/// The error of the `aead` traits, re-exported as `aes_gcm::Error`. It is
/// opaque by design and carries no information.
#[verifier::external_type_specification]
#[verifier::external_body]
pub struct ExAeadError(aes_gcm::Error);

/// Ciphertext and tag that AES-256-GCM produces for `plaintext` under `key`
/// and `nonce`, with no associated data.
pub uninterp spec fn aes256_gcm_seal(key: Seq<u8>, nonce: Seq<u8>, plaintext: Seq<u8>) -> Seq<u8>;

/// Plaintext that AES-256-GCM releases for `sealed` (ciphertext and tag)
/// under `key` and `nonce`, with no associated data; `None` where it does
/// not authenticate.
pub uninterp spec fn aes256_gcm_open(key: Seq<u8>, nonce: Seq<u8>, sealed: Seq<u8>) -> Option<
    Seq<u8>,
>;

/// Calls `Aead::encrypt` on an `Aes256Gcm` keyed with `key`.
///
/// Trusted: the call fails exactly on plaintexts longer than 2^36 bytes;
/// otherwise it returns the ciphertext with the 16-byte tag appended, which
/// `Aead::decrypt` opens again to the same plaintext under the same key and
/// nonce. `Key::from_slice` and `Nonce::from_slice` panic on other lengths,
/// hence the preconditions.
#[verifier::external_body]
fn aead_encrypt(key: &[u8], nonce: &[u8], plaintext: &[u8]) -> (r: Result<Vec<u8>, aes_gcm::Error>)
    requires
        key@.len() == KEY_SIZE,
        nonce@.len() == NONCE_SIZE,
    ensures
        r is Ok <==> plaintext@.len() <= MAX_MESSAGE_LEN,
        r matches Ok(sealed) ==> sealed@ == aes256_gcm_seal(key@, nonce@, plaintext@),
        r matches Ok(sealed) ==> sealed@.len() == plaintext@.len() + TAG_SIZE,
        r matches Ok(sealed) ==> aes256_gcm_open(key@, nonce@, sealed@) == Some(plaintext@),
{
    let cipher = Aes256Gcm::new(Key::<Aes256Gcm>::from_slice(key));
    cipher.encrypt(Nonce::from_slice(nonce), plaintext)
}

/// Calls `Aead::decrypt` on an `Aes256Gcm` keyed with `key`.
///
/// Trusted: the result is a function of key, nonce and input alone.
#[verifier::external_body]
fn aead_decrypt(key: &[u8], nonce: &[u8], sealed: &[u8]) -> (r: Result<Vec<u8>, aes_gcm::Error>)
    requires
        key@.len() == KEY_SIZE,
        nonce@.len() == NONCE_SIZE,
    ensures
        r matches Ok(plaintext) ==> aes256_gcm_open(key@, nonce@, sealed@) == Some(plaintext@),
        r is Err ==> aes256_gcm_open(key@, nonce@, sealed@) is None,
{
    let cipher = Aes256Gcm::new(Key::<Aes256Gcm>::from_slice(key));
    cipher.decrypt(Nonce::from_slice(nonce), sealed)
}

/// Calls `KeyInit::generate_key` of `Aes256Gcm` with the operating system's
/// generator.
///
/// Trusted: the key has 32 bytes. Nothing is known of their values.
#[verifier::external_body]
fn random_key() -> (key: Vec<u8>)
    ensures
        key@.len() == KEY_SIZE,
{
    Aes256Gcm::generate_key(OsRng).to_vec()
}

/// Calls `AeadCore::generate_nonce` of `Aes256Gcm` with the operating
/// system's generator.
///
/// Trusted: the nonce has 12 bytes. Nothing is known of their values.
#[verifier::external_body]
fn random_nonce() -> (nonce: Vec<u8>)
    ensures
        nonce@.len() == NONCE_SIZE,
{
    Aes256Gcm::generate_nonce(&mut OsRng).to_vec()
}

/// The frame for `plaintext` under `key` and `nonce`: the nonce, then
/// ciphertext and tag.
pub open spec fn seal_frame(key: Seq<u8>, nonce: Seq<u8>, plaintext: Seq<u8>) -> Result<
    Seq<u8>,
    CryptoError,
> {
    if nonce.len() != NONCE_SIZE || plaintext.len() > MAX_MESSAGE_LEN {
        Err(CryptoError::EncryptionError)
    } else {
        Ok(nonce + aes256_gcm_seal(key, nonce, plaintext))
    }
}

/// What a frame holds under `key`: its first 12 bytes are the nonce, the
/// rest is handed to the cipher.
pub open spec fn open_frame(key: Seq<u8>, frame: Seq<u8>) -> Result<Seq<u8>, CryptoError> {
    if frame.len() < NONCE_SIZE {
        Err(CryptoError::DecryptionError)
    } else {
        match aes256_gcm_open(
            key,
            frame.subrange(0, NONCE_SIZE as int),
            frame.subrange(NONCE_SIZE as int, frame.len() as int),
        ) {
            Some(plaintext) => Ok(plaintext),
            None => Err(CryptoError::DecryptionError),
        }
    }
}

/// `frame` is a frame of `plaintext` under `key`: it has the length of one
/// and opens to it.
pub open spec fn seals(key: Seq<u8>, frame: Seq<u8>, plaintext: Seq<u8>) -> bool {
    &&& frame.len() == plaintext.len() + FRAME_OVERHEAD
    &&& open_frame(key, frame) == Ok::<Seq<u8>, CryptoError>(plaintext)
}

/// A frame starts with its nonce, so frames that were sealed under
/// different nonces differ within their first 12 bytes, whatever they seal.
pub proof fn lemma_frames_differ_by_nonce(
    key: Seq<u8>,
    nonce1: Seq<u8>,
    plaintext1: Seq<u8>,
    nonce2: Seq<u8>,
    plaintext2: Seq<u8>,
)
    requires
        seal_frame(key, nonce1, plaintext1) is Ok,
        seal_frame(key, nonce2, plaintext2) is Ok,
        nonce1 != nonce2,
    ensures
        ({
            let frame1 = seal_frame(key, nonce1, plaintext1)->Ok_0;
            let frame2 = seal_frame(key, nonce2, plaintext2)->Ok_0;
            &&& frame1.subrange(0, NONCE_SIZE as int) == nonce1
            &&& frame2.subrange(0, NONCE_SIZE as int) == nonce2
            &&& frame1.subrange(0, NONCE_SIZE as int) != frame2.subrange(0, NONCE_SIZE as int)
        }),
{
    let frame1 = seal_frame(key, nonce1, plaintext1)->Ok_0;
    let frame2 = seal_frame(key, nonce2, plaintext2)->Ok_0;
    assert(frame1.subrange(0, NONCE_SIZE as int) =~= nonce1);
    assert(frame2.subrange(0, NONCE_SIZE as int) =~= nonce2);
}

/// A cipher handle. It owns its key for as long as it lives.
pub struct AegisCrypto {
    key: Vec<u8>,
}

impl AegisCrypto {
    #[verifier::type_invariant]
    spec fn well_formed(self) -> bool {
        self.key@.len() == KEY_SIZE
    }

    /// The key of this handle.
    pub closed spec fn key(self) -> Seq<u8> {
        self.key@
    }

    /// A handle with a fresh random key, and that key for the caller to keep.
    pub fn new_random() -> (r: (Self, Vec<u8>))
        ensures
            r.1@.len() == KEY_SIZE,
            r.0.key() == r.1@,
    {
        let key = random_key();
        let kept = slice_to_vec(key.as_slice());
        (AegisCrypto { key }, kept)
    }

    /// A handle for an existing key, which must be exactly 32 bytes long.
    pub fn new_from_key(key_bytes: &[u8]) -> (r: Result<Self, CryptoError>)
        ensures
            match r {
                Ok(crypto) => key_bytes@.len() == KEY_SIZE && crypto.key() == key_bytes@,
                Err(e) => key_bytes@.len() != KEY_SIZE && e == CryptoError::KeyError,
            },
    {
        if key_bytes.len() != KEY_SIZE {
            return Err(CryptoError::KeyError);
        }
        Ok(AegisCrypto { key: slice_to_vec(key_bytes) })
    }

    /// Seals `plaintext` under a nonce that the caller chose. A nonce must
    /// never be used twice with one key: use [`AegisCrypto::encrypt`] unless
    /// the nonce has to be fixed.
    pub fn encrypt_with_nonce(&self, nonce: &[u8], plaintext: &[u8]) -> (r: Result<
        Vec<u8>,
        CryptoError,
    >)
        ensures
            match r {
                Ok(frame) => seal_frame(self.key(), nonce@, plaintext@) == Ok::<
                    Seq<u8>,
                    CryptoError,
                >(frame@) && seals(self.key(), frame@, plaintext@),
                Err(e) => seal_frame(self.key(), nonce@, plaintext@) == Err::<
                    Seq<u8>,
                    CryptoError,
                >(e),
            },
    {
        proof {
            use_type_invariant(self);
        }
        if nonce.len() != NONCE_SIZE {
            return Err(CryptoError::EncryptionError);
        }
        match aead_encrypt(self.key.as_slice(), nonce, plaintext) {
            Ok(mut sealed) => {
                let mut frame = slice_to_vec(nonce);
                let ghost body = sealed@;
                frame.append(&mut sealed);
                proof {
                    assert(frame@.subrange(0, NONCE_SIZE as int) =~= nonce@);
                    assert(frame@.subrange(NONCE_SIZE as int, frame@.len() as int) =~= body);
                }
                Ok(frame)
            },
            Err(_) => Err(CryptoError::EncryptionError),
        }
    }

    /// Seals `plaintext` under a fresh random nonce and returns the frame:
    /// nonce, ciphertext, tag.
    pub fn encrypt(&self, plaintext: &[u8]) -> (r: Result<Vec<u8>, CryptoError>)
        ensures
            r is Ok <==> plaintext@.len() <= MAX_MESSAGE_LEN,
            r matches Ok(frame) ==> seals(self.key(), frame@, plaintext@),
            r matches Ok(frame) ==> seal_frame(
                self.key(),
                frame@.subrange(0, NONCE_SIZE as int),
                plaintext@,
            ) == Ok::<Seq<u8>, CryptoError>(frame@),
            r matches Err(e) ==> e == CryptoError::EncryptionError,
    {
        let nonce = random_nonce();
        let r = self.encrypt_with_nonce(nonce.as_slice(), plaintext);
        proof {
            if let Ok(frame) = &r {
                assert(frame@.subrange(0, NONCE_SIZE as int) =~= nonce@);
            }
        }
        r
    }

    /// Opens a frame: the first 12 bytes are the nonce, the rest must
    /// authenticate under this handle's key.
    pub fn decrypt(&self, data: &[u8]) -> (r: Result<Vec<u8>, CryptoError>)
        ensures
            match r {
                Ok(plaintext) => open_frame(self.key(), data@) == Ok::<Seq<u8>, CryptoError>(
                    plaintext@,
                ),
                Err(e) => open_frame(self.key(), data@) == Err::<Seq<u8>, CryptoError>(e),
            },
    {
        proof {
            use_type_invariant(self);
        }
        if data.len() < NONCE_SIZE {
            return Err(CryptoError::DecryptionError);
        }
        let nonce = slice_subrange(data, 0, NONCE_SIZE);
        let sealed = slice_subrange(data, NONCE_SIZE, data.len());
        match aead_decrypt(self.key.as_slice(), nonce, sealed) {
            Ok(plaintext) => Ok(plaintext),
            Err(_) => Err(CryptoError::DecryptionError),
        }
    }
}

} // verus!
