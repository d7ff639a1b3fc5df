//! Encryption of saved secrets: a 32-byte key derived from a master password
//! with Argon2, AES-256-GCM under a fresh 12-byte nonce, and the nonce
//! followed by the ciphertext written in base64.

use vstd::prelude::*;
use vstd::utf8::{decode_utf8, valid_utf8};
use aes_gcm::aead::{Aead, KeyInit};
use argon2::password_hash::PasswordHasher;
use base64::Engine;
use rand::RngCore;

verus! {

/// The length of an AES-GCM nonce.
pub const NONCE_LEN: usize = 12;

/// The length of the derived key.
pub const KEY_LEN: usize = 32;

/// What Argon2 (Argon2id, default parameters) makes of a password and a
/// base64 salt; `None` where the salt is refused or hashing fails.
pub uninterp spec fn argon2_digest(password: Seq<u8>, salt: Seq<char>) -> Option<Seq<u8>>;

/// AES-256-GCM encryption, with no associated data: the ciphertext followed
/// by its tag; `None` where the plaintext is too long for the cipher.
pub uninterp spec fn aes_gcm_sealed(key: Seq<u8>, nonce: Seq<u8>, plaintext: Seq<u8>) -> Option<Seq<u8>>;

/// AES-256-GCM decryption, with no associated data; `None` where the tag
/// does not match (a wrong key, or altered data).
pub uninterp spec fn aes_gcm_opened(key: Seq<u8>, nonce: Seq<u8>, ciphertext: Seq<u8>) -> Option<Seq<u8>>;

/// Standard padded base64 text of some bytes.
pub uninterp spec fn base64_text(bytes: Seq<u8>) -> Seq<char>;

/// The bytes that standard padded base64 text stands for; `None` where the
/// text is not such base64.
pub uninterp spec fn base64_bytes(text: Seq<char>) -> Option<Seq<u8>>;

/// Relies on argon2's `PasswordHasher::hash_password` for `Argon2::default()`
/// (the salt read with `SaltString::from_b64`): the hash output depends on the
/// password and the salt alone.
#[verifier::external_body]
fn argon2_hash(password: &[u8], salt_b64: &str) -> (r: Option<Vec<u8>>)
    ensures
        match r {
            Some(h) => argon2_digest(password@, salt_b64@) == Some(h@),
            None => argon2_digest(password@, salt_b64@) is None,
        },
{
    let salt = argon2::password_hash::SaltString::from_b64(salt_b64).ok()?;
    let hash = argon2::Argon2::default().hash_password(password, &salt).ok()?;
    hash.hash.map(|out| out.as_bytes().to_vec())
}

/// Relies on aes-gcm's `Aead::encrypt` for `Aes256Gcm`: the ciphertext, as
/// long as the plaintext, with the 16-byte tag appended; `Aead::decrypt` under
/// the same key and nonce gives the plaintext back.
#[verifier::external_body]
fn aes_gcm_seal(key: &[u8; 32], nonce: &[u8; 12], plaintext: &[u8]) -> (r: Option<Vec<u8>>)
    ensures
        match r {
            Some(c) => aes_gcm_sealed(key@, nonce@, plaintext@) == Some(c@) && c@.len()
                == plaintext@.len() + 16 && aes_gcm_opened(key@, nonce@, c@) == Some(plaintext@),
            None => aes_gcm_sealed(key@, nonce@, plaintext@) is None,
        },
{
    let cipher = aes_gcm::Aes256Gcm::new(aes_gcm::Key::<aes_gcm::Aes256Gcm>::from_slice(key));
    cipher.encrypt(aes_gcm::Nonce::from_slice(nonce), plaintext).ok()
}

/// Relies on aes-gcm's `Aead::decrypt` for `Aes256Gcm`: the plaintext, or
/// an error where the tag does not match.
#[verifier::external_body]
fn aes_gcm_open(key: &[u8; 32], nonce: &[u8], ciphertext: &[u8]) -> (r: Option<Vec<u8>>)
    requires
        nonce@.len() == NONCE_LEN,
    ensures
        match r {
            Some(p) => aes_gcm_opened(key@, nonce@, ciphertext@) == Some(p@),
            None => aes_gcm_opened(key@, nonce@, ciphertext@) is None,
        },
{
    let cipher = aes_gcm::Aes256Gcm::new(aes_gcm::Key::<aes_gcm::Aes256Gcm>::from_slice(key));
    cipher.decrypt(aes_gcm::Nonce::from_slice(nonce), ciphertext).ok()
}

/// Relies on base64's `Engine::encode` for `general_purpose::STANDARD`, which
/// panics only where the length of the text would overflow `usize`; the same
/// engine's `decode` gives the bytes back.
#[verifier::external_body]
fn base64_encode(bytes: &[u8]) -> (r: String)
    requires
        bytes@.len() <= usize::MAX / 2,
    ensures
        r@ == base64_text(bytes@),
        base64_bytes(r@) == Some(bytes@),
{
    base64::engine::general_purpose::STANDARD.encode(bytes)
}

/// Relies on base64's `Engine::decode` for `general_purpose::STANDARD`.
#[verifier::external_body]
fn base64_decode(text: &str) -> (r: Option<Vec<u8>>)
    ensures
        match r {
            Some(d) => base64_bytes(text@) == Some(d@),
            None => base64_bytes(text@) is None,
        },
{
    base64::engine::general_purpose::STANDARD.decode(text).ok()
}

/// Relies on rand's `OsRng` (`RngCore::try_fill_bytes`): twelve bytes from
/// the operating system, or `None` where it cannot give them. Nothing is known
/// of their values.
#[verifier::external_body]
fn random_nonce() -> (r: Option<[u8; 12]>) {
    let mut nonce = [0u8; 12];
    rand::rngs::OsRng.try_fill_bytes(&mut nonce).ok()?;
    Some(nonce)
}

/// Relies on `String::from_utf8`: the text the bytes encode, or an error
/// where they are not valid UTF-8.
#[verifier::external_body]
fn utf8_string(bytes: Vec<u8>) -> (r: Option<String>)
    ensures
        (r is Some) == valid_utf8(bytes@),
        r matches Some(s) ==> s@ == decode_utf8(bytes@),
{
    String::from_utf8(bytes).ok()
}

/// Why an encryption step failed.
#[derive(Clone, Copy, Debug, PartialEq, Eq, Structural)]
pub enum CryptoError {
    /// The master password is empty.
    EmptyPassword,
    /// The password and its confirmation differ.
    PasswordMismatch,
    /// The salt was refused, or the hash is shorter than a key.
    KeyDerivation,
    /// No random nonce could be had.
    RandomUnavailable,
    /// The cipher refused the plaintext.
    Encryption,
    /// The text is not base64.
    InvalidBase64,
    /// The data is shorter than a nonce.
    TooShort,
    /// The tag does not match: a wrong master password, or altered data.
    Decryption,
    /// The decrypted bytes are not UTF-8.
    InvalidUtf8,
}

/// A master password typed by the user is accepted when it is not empty and,
/// on first use, when its confirmation matches it.
pub fn check_master_password(password: &str, confirmation: Option<&str>) -> (r: Result<
    (),
    CryptoError,
>)
    ensures
        password@.len() == 0 ==> r == Err::<(), CryptoError>(CryptoError::EmptyPassword),
        password@.len() > 0 ==> match confirmation {
            Some(c) => if c@ == password@ {
                r is Ok
            } else {
                r == Err::<(), CryptoError>(CryptoError::PasswordMismatch)
            },
            None => r is Ok,
        },
{
    if password.is_empty() {
        return Err(CryptoError::EmptyPassword);
    }
    match confirmation {
        Some(c) => if crate::config::same_text(c, password) {
            Ok(())
        } else {
            Err(CryptoError::PasswordMismatch)
        },
        None => Ok(()),
    }
}

/// The key for a master password and salt: the first 32 bytes of the
/// Argon2 hash.
pub open spec fn derived_key(password: Seq<char>, salt: Seq<char>) -> Option<Seq<u8>> {
    match argon2_digest(vstd::utf8::encode_utf8(password), salt) {
        Some(h) => if h.len() >= KEY_LEN {
            Some(h.take(KEY_LEN as int))
        } else {
            None
        },
        None => None,
    }
}

/// What `decrypt_bytes` returns for nonce-and-ciphertext data under a key.
pub open spec fn opened_text(key: Seq<u8>, data: Seq<u8>) -> Result<Seq<char>, CryptoError> {
    if data.len() < NONCE_LEN {
        Err(CryptoError::TooShort)
    } else {
        match aes_gcm_opened(key, data.take(NONCE_LEN as int), data.skip(NONCE_LEN as int)) {
            None => Err(CryptoError::Decryption),
            Some(p) => if valid_utf8(p) {
                Ok(decode_utf8(p))
            } else {
                Err(CryptoError::InvalidUtf8)
            },
        }
    }
}

/// What `decrypt` returns for a text under a key.
pub open spec fn decrypted(key: Seq<u8>, text: Seq<char>) -> Result<Seq<char>, CryptoError> {
    match base64_bytes(text) {
        Some(d) => opened_text(key, d),
        None => Err(CryptoError::InvalidBase64),
    }
}

/// The result as text.
pub open spec fn text_result(r: Result<String, CryptoError>) -> Result<Seq<char>, CryptoError> {
    match r {
        Ok(s) => Ok(s@),
        Err(e) => Err(e),
    }
}

/// Encrypts and decrypts secrets with a key derived from the master password.
pub struct CryptoManager {
    master_key: [u8; 32],
}

impl CryptoManager {
    /// The key.
    pub closed spec fn key(&self) -> Seq<u8> {
        self.master_key@
    }

    /// Derives the key from the master password and the base64 salt kept
    /// beside the configuration.
    pub fn new(master_password: &str, salt_b64: &str) -> (r: Result<CryptoManager, CryptoError>)
        ensures
            match derived_key(master_password@, salt_b64@) {
                Some(k) => r matches Ok(m) && m.key() == k,
                None => r == Err::<CryptoManager, CryptoError>(CryptoError::KeyDerivation),
            },
    {
        match argon2_hash(master_password.as_bytes(), salt_b64) {
            Some(h) => CryptoManager::from_digest(h.as_slice()),
            None => Err(CryptoError::KeyDerivation),
        }
    }

    /// The manager whose key is the first 32 bytes of a password hash; an
    /// error where the hash is shorter.
    pub fn from_digest(hash: &[u8]) -> (r: Result<CryptoManager, CryptoError>)
        ensures
            hash@.len() >= KEY_LEN ==> (r matches Ok(m) && m.key() == hash@.take(KEY_LEN as int)),
            hash@.len() < KEY_LEN ==> r == Err::<CryptoManager, CryptoError>(
                CryptoError::KeyDerivation,
            ),
    {
        if hash.len() < KEY_LEN {
            return Err(CryptoError::KeyDerivation);
        }
        let mut master_key = [0u8; 32];
        let mut i: usize = 0;
        while i < KEY_LEN
            invariant
                i <= KEY_LEN,
                hash@.len() >= KEY_LEN,
                forall|k: int| 0 <= k < i ==> master_key@[k] == hash@[k],
            decreases KEY_LEN - i,
        {
            master_key.set(i, hash[i]);
            i = i + 1;
        }
        assert(master_key@ =~= hash@.take(KEY_LEN as int));
        Ok(CryptoManager { master_key })
    }

    /// Encrypts under the given nonce: the nonce followed by the ciphertext,
    /// in base64.
    pub fn encrypt_with_nonce(&self, plaintext: &str, nonce: [u8; 12]) -> (r: Result<
        String,
        CryptoError,
    >)
        requires
            plaintext@.len() <= usize::MAX / 16,
        ensures
            match aes_gcm_sealed(self.key(), nonce@, vstd::utf8::encode_utf8(plaintext@)) {
                Some(c) => r matches Ok(s) && s@ == base64_text(nonce@ + c),
                None => r == Err::<String, CryptoError>(CryptoError::Encryption),
            },
            r matches Ok(s) ==> decrypted(self.key(), s@) == Ok::<Seq<char>, CryptoError>(
                plaintext@,
            ),
    {
        let bytes = plaintext.as_bytes();
        proof {
            lemma_utf8_len(plaintext@);
            assert(bytes@.len() <= usize::MAX / 4);
        }
        let sealed = match aes_gcm_seal(&self.master_key, &nonce, bytes) {
            Some(c) => c,
            None => return Err(CryptoError::Encryption),
        };
        let mut data: Vec<u8> = Vec::with_capacity(NONCE_LEN + sealed.len());
        let mut i: usize = 0;
        while i < NONCE_LEN
            invariant
                i <= NONCE_LEN,
                data@ == nonce@.take(i as int),
            decreases NONCE_LEN - i,
        {
            data.push(nonce[i]);
            i = i + 1;
            assert(data@ =~= nonce@.take(i as int));
        }
        let mut j: usize = 0;
        while j < sealed.len()
            invariant
                j <= sealed@.len(),
                data@ == nonce@ + sealed@.take(j as int),
            decreases sealed@.len() - j,
        {
            data.push(sealed[j]);
            j = j + 1;
            assert(data@ =~= nonce@ + sealed@.take(j as int));
        }
        assert(nonce@.take(NONCE_LEN as int) =~= nonce@);
        assert(sealed@.take(sealed@.len() as int) =~= sealed@);
        proof {
            assert(data@.take(NONCE_LEN as int) =~= nonce@);
            assert(data@.skip(NONCE_LEN as int) =~= sealed@);
            vstd::utf8::encode_utf8_valid_utf8(plaintext@);
            vstd::utf8::encode_utf8_decode_utf8(plaintext@);
        }
        Ok(base64_encode(data.as_slice()))
    }

    /// Encrypts under a fresh random nonce.
    pub fn encrypt(&self, plaintext: &str) -> (r: Result<String, CryptoError>)
        requires
            plaintext@.len() <= usize::MAX / 16,
        ensures
            r == Err::<String, CryptoError>(CryptoError::RandomUnavailable) || exists|
                nonce: Seq<u8>,
            |
                nonce.len() == NONCE_LEN && match #[trigger] aes_gcm_sealed(
                    self.key(),
                    nonce,
                    vstd::utf8::encode_utf8(plaintext@),
                ) {
                    Some(c) => r matches Ok(s) && s@ == base64_text(nonce + c),
                    None => r == Err::<String, CryptoError>(CryptoError::Encryption),
                },
            r matches Ok(s) ==> decrypted(self.key(), s@) == Ok::<Seq<char>, CryptoError>(
                plaintext@,
            ),
    {
        match random_nonce() {
            Some(nonce) => self.encrypt_with_nonce(plaintext, nonce),
            None => Err(CryptoError::RandomUnavailable),
        }
    }

    /// Decrypts nonce-and-ciphertext data.
    pub fn decrypt_bytes(&self, data: &[u8]) -> (r: Result<String, CryptoError>)
        ensures
            text_result(r) == opened_text(self.key(), data@),
    {
        if data.len() < NONCE_LEN {
            return Err(CryptoError::TooShort);
        }
        let (nonce, ciphertext) = data.split_at(NONCE_LEN);
        assert(nonce@ =~= data@.take(NONCE_LEN as int));
        assert(ciphertext@ =~= data@.skip(NONCE_LEN as int));
        let plain = match aes_gcm_open(&self.master_key, nonce, ciphertext) {
            Some(p) => p,
            None => return Err(CryptoError::Decryption),
        };
        match utf8_string(plain) {
            Some(s) => Ok(s),
            None => Err(CryptoError::InvalidUtf8),
        }
    }

    /// Decrypts what `encrypt` wrote: base64 text of a nonce followed by the
    /// ciphertext.
    pub fn decrypt(&self, encrypted: &str) -> (r: Result<String, CryptoError>)
        ensures
            text_result(r) == decrypted(self.key(), encrypted@),
    {
        match base64_decode(encrypted) {
            Some(data) => self.decrypt_bytes(data.as_slice()),
            None => Err(CryptoError::InvalidBase64),
        }
    }
}

/// A text of `n` characters has at most `4 n` bytes in UTF-8.
proof fn lemma_utf8_len(s: Seq<char>)
    ensures
        vstd::utf8::encode_utf8(s).len() <= 4 * s.len(),
    decreases s.len(),
{
    if s.len() > 0 {
        lemma_utf8_len(s.drop_first());
    }
}

} // verus!
