//! AES-256-GCM encryption of data in transit (crate `aes-gcm`).

use vstd::prelude::*;
use aes_gcm::{Aes256Gcm, Key, Nonce, KeyInit};
use aes_gcm::aead::Aead;
use vstd::string::StringSliceAdditionalSpecFns;
use crate::security::{SecurityError, SecurityResult};
use crate::hashing::{sha3_256, spec_sha3_256};
use crate::entropy::{random_bytes_32, random_bytes_12};

verus! {

/// AES-256 key length in bytes.
pub const KEY_SIZE: usize = 32;

/// GCM nonce length in bytes.
pub const NONCE_SIZE: usize = 12;

/// GCM tag length in bytes.
pub const TAG_SIZE: usize = 16;

/// Largest plaintext AES-GCM accepts (`aes_gcm::P_MAX`, 2^36 bytes).
pub const PLAINTEXT_MAX: u64 = 0x10_0000_0000;

#[verifier::external_type_specification]
#[verifier::external_body]
pub struct ExAeadError(aes_gcm::aead::Error);

/// AES-256-GCM encryption with an empty associated data: ciphertext
/// followed by the 16-byte tag.
pub uninterp spec fn spec_gcm_seal(key: Seq<u8>, nonce: Seq<u8>, plaintext: Seq<u8>) -> Seq<u8>;

/// AES-256-GCM authenticated decryption with an empty associated data;
/// `None` when the tag does not authenticate.
pub uninterp spec fn spec_gcm_open(key: Seq<u8>, nonce: Seq<u8>, ciphertext: Seq<u8>) -> Option<Seq<u8>>;

/// Calls `Aes256Gcm::encrypt` with the given key and nonce. Trusted: it
/// fails exactly when the plaintext is longer than `P_MAX` (the check in
/// `encrypt_in_place_detached`); otherwise the result is the ciphertext
/// followed by the 16-byte tag, named `spec_gcm_seal`, which
/// `spec_gcm_open` with the same key and nonce takes back to the
/// plaintext (AEAD correctness).
#[verifier::external_body]
fn gcm_encrypt(key: &[u8; 32], nonce: &[u8; 12], plaintext: &[u8]) -> (r: Result<Vec<u8>, aes_gcm::aead::Error>)
    ensures
        r is Ok <==> plaintext@.len() <= PLAINTEXT_MAX,
        r matches Ok(c) ==> {
            &&& c@ == spec_gcm_seal(key@, nonce@, plaintext@)
            &&& c@.len() == plaintext@.len() + 16
            &&& spec_gcm_open(key@, nonce@, c@) == Some(plaintext@)
        },
{
    let cipher = Aes256Gcm::new(Key::<Aes256Gcm>::from_slice(key));
    cipher.encrypt(Nonce::from_slice(nonce), plaintext)
}

/// Calls `Aes256Gcm::decrypt` with the given key and nonce. Trusted: the
/// result is `spec_gcm_open` of the ciphertext; a ciphertext shorter than
/// the tag is refused.
#[verifier::external_body]
fn gcm_decrypt(key: &[u8; 32], nonce: &[u8], ciphertext: &[u8]) -> (r: Result<Vec<u8>, aes_gcm::aead::Error>)
    requires
        nonce@.len() == 12,
    ensures
        match r {
            Ok(p) => spec_gcm_open(key@, nonce@, ciphertext@) == Some(p@),
            Err(_) => spec_gcm_open(key@, nonce@, ciphertext@) is None,
        },
        ciphertext@.len() < 16 ==> r is Err,
{
    let cipher = Aes256Gcm::new(Key::<Aes256Gcm>::from_slice(key));
    cipher.decrypt(Nonce::from_slice(nonce), ciphertext)
}

/// The text of an `aead::Error`: its `Display` writes "aead::Error".
#[verifier::external_body]
fn aead_error_text(e: &aes_gcm::aead::Error) -> (s: String)
    ensures
        s@ == "aead::Error"@,
{
    e.to_string()
}

/// Encrypted message.
#[derive(Debug, Clone)]
pub struct EncryptedData {
    pub ciphertext: Vec<u8>,
    pub nonce: Vec<u8>,
    /// Authentication tag.
    pub tag: Vec<u8>,
    pub key_version: u32,
}

impl EncryptedData {
    /// Total size of the encrypted message.
    pub fn total_size(&self) -> (n: usize)
        requires
            self.ciphertext@.len() + self.nonce@.len() + self.tag@.len() <= usize::MAX,
        ensures
            n == self.ciphertext@.len() + self.nonce@.len() + self.tag@.len(),
    {
        self.ciphertext.len() + self.nonce.len() + self.tag.len()
    }
}

/// What an `AesEncryptor` holds, as plain values.
pub struct AesModel {
    pub key: Seq<u8>,
    pub key_version: u32,
    pub encrypt_count: u64,
}

/// The plaintext that `decrypt` gives back for an encrypted message under
/// a key, or `None` when it does not authenticate.
pub open spec fn spec_decrypt(key: Seq<u8>, e: EncryptedData) -> Option<Seq<u8>> {
    spec_gcm_open(key, e.nonce@, e.ciphertext@ + e.tag@)
}

/// `e` is what `encrypt` produces for `plaintext` under `key` and
/// `version`, with some 12-byte nonce.
pub open spec fn encrypts(key: Seq<u8>, version: u32, plaintext: Seq<u8>, e: EncryptedData) -> bool {
    &&& e.nonce@.len() == 12
    &&& e.ciphertext@ + e.tag@ == spec_gcm_seal(key, e.nonce@, plaintext)
    &&& e.ciphertext@.len() == plaintext.len()
    &&& e.tag@.len() == 16
    &&& e.key_version == version
    &&& spec_decrypt(key, e) == Some(plaintext)
}

/// AES-256-GCM encryptor.
pub struct AesEncryptor {
    key: [u8; 32],
    key_version: u32,
    encrypt_count: u64,
}

impl View for AesEncryptor {
    type V = AesModel;

    closed spec fn view(&self) -> AesModel {
        AesModel { key: self.key@, key_version: self.key_version, encrypt_count: self.encrypt_count }
    }
}

impl AesEncryptor {
    /// An encryptor with a random key, version 1.
    pub fn new_random() -> (e: Self)
        ensures
            e@.key.len() == 32,
            e@.key_version == 1,
            e@.encrypt_count == 0,
    {
        let key = random_bytes_32();
        AesEncryptor { key, key_version: 1, encrypt_count: 0 }
    }

    /// An encryptor with the given key and version.
    pub fn from_key(key: &[u8; 32], version: u32) -> (e: Self)
        ensures
            e@.key == key@,
            e@.key_version == version,
            e@.encrypt_count == 0,
    {
        AesEncryptor { key: *key, key_version: version, encrypt_count: 0 }
    }

    /// Encrypts with a fresh random nonce; the tag is split from the
    /// ciphertext. Fails only on a plaintext beyond the AES-GCM limit.
    pub fn encrypt(&mut self, plaintext: &[u8]) -> (r: SecurityResult<EncryptedData>)
        requires
            old(self)@.encrypt_count < u64::MAX,
        ensures
            final(self)@.key == old(self)@.key,
            final(self)@.key_version == old(self)@.key_version,
            match r {
                Ok(e) => {
                    &&& encrypts(old(self)@.key, old(self)@.key_version, plaintext@, e)
                    &&& final(self)@.encrypt_count == old(self)@.encrypt_count + 1
                },
                Err(err) => {
                    &&& plaintext@.len() > PLAINTEXT_MAX
                    &&& err == SecurityError::EncryptionFailed(err->EncryptionFailed_0)
                    &&& err->EncryptionFailed_0@ == "aead::Error"@
                    &&& final(self)@.encrypt_count == old(self)@.encrypt_count
                },
            },
    {
        let nonce_bytes = random_bytes_12();
        let sealed = match gcm_encrypt(&self.key, &nonce_bytes, plaintext) {
            Ok(c) => c,
            Err(e) => {
                return Err(SecurityError::EncryptionFailed(aead_error_text(&e)));
            },
        };
        self.encrypt_count = self.encrypt_count + 1;

        let tag_start: usize = sealed.len() - 16;
        let ct = vstd::slice::slice_subrange(sealed.as_slice(), 0, tag_start);
        let tag = vstd::slice::slice_subrange(sealed.as_slice(), tag_start, sealed.len());
        let ciphertext = vstd::slice::slice_to_vec(ct);
        let tag = vstd::slice::slice_to_vec(tag);
        let nonce = vstd::slice::slice_to_vec(vstd::array::array_as_slice(&nonce_bytes));
        let e = EncryptedData { ciphertext, nonce, tag, key_version: self.key_version };
        assert(e.ciphertext@ + e.tag@ =~= sealed@);
        Ok(e)
    }

    /// Decrypts and authenticates an encrypted message.
    pub fn decrypt(&self, encrypted: &EncryptedData) -> (r: SecurityResult<Vec<u8>>)
        requires
            encrypted.nonce@.len() == 12,
        ensures
            match r {
                Ok(p) => spec_decrypt(self@.key, *encrypted) == Some(p@),
                Err(err) => {
                    &&& spec_decrypt(self@.key, *encrypted) is None
                    &&& err == SecurityError::DecryptionFailed(err->DecryptionFailed_0)
                    &&& err->DecryptionFailed_0@ == "aead::Error"@
                },
            },
    {
        let mut full = vstd::slice::slice_to_vec(encrypted.ciphertext.as_slice());
        full.extend_from_slice(encrypted.tag.as_slice());
        assert(full@ =~= encrypted.ciphertext@ + encrypted.tag@);
        match gcm_decrypt(&self.key, encrypted.nonce.as_slice(), full.as_slice()) {
            Ok(p) => Ok(p),
            Err(e) => Err(SecurityError::DecryptionFailed(aead_error_text(&e))),
        }
    }

    /// A key derived from a passphrase and a salt: the SHA3-256 digest of
    /// the passphrase's UTF-8 bytes followed by the salt.
    pub fn derive_key(passphrase: &str, salt: &[u8]) -> (k: [u8; 32])
        ensures
            k@ == spec_sha3_256(passphrase.spec_bytes() + salt@),
    {
        let mut input = vstd::slice::slice_to_vec(passphrase.as_bytes());
        input.extend_from_slice(salt);
        assert(input@ =~= passphrase.spec_bytes() + salt@);
        let digest = sha3_256(input.as_slice());
        let mut key = [0u8; 32];
        let mut i: usize = 0;
        while i < 32
            invariant
                i <= 32,
                digest@.len() == 32,
                forall|j: int| 0 <= j < i ==> key@[j] == digest@[j],
            decreases 32 - i,
        {
            key[i] = digest[i];
            i = i + 1;
        }
        assert(key@ =~= digest@);
        key
    }

    /// The key version.
    pub fn get_version(&self) -> (v: u32)
        ensures
            v == self@.key_version,
    {
        self.key_version
    }

    /// How many messages this encryptor has encrypted.
    pub fn get_encrypt_count(&self) -> (n: u64)
        ensures
            n == self@.encrypt_count,
    {
        self.encrypt_count
    }
}

/// What `encrypt` produced under a key, `decrypt` under the same key gives
/// back.
pub proof fn lemma_encrypt_decrypt_roundtrip(key: Seq<u8>, version: u32, plaintext: Seq<u8>, e: EncryptedData)
    requires
        encrypts(key, version, plaintext, e),
    ensures
        spec_decrypt(key, e) == Some(plaintext),
{
}

/// The encrypted message is exactly 28 bytes (nonce and tag) longer than
/// the plaintext.
pub proof fn lemma_encryption_overhead(key: Seq<u8>, version: u32, plaintext: Seq<u8>, e: EncryptedData)
    requires
        encrypts(key, version, plaintext, e),
    ensures
        e.ciphertext@.len() + e.nonce@.len() + e.tag@.len() == plaintext.len() + 28,
{
}

} // verus!
