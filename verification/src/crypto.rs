//! Token encryption (AES-256-GCM under a key derived with SHA-256) and the
//! single-byte XOR scrambling that keeps tokens out of plain sight in memory.

use vstd::prelude::*;
use vstd::utf8::{decode_utf8, encode_utf8, valid_utf8};
use aes_gcm::aead::{Aead, KeyInit};
use sha2::Digest;

verus! {

broadcast use vstd::string::group_string_axioms;

// ---------------------------------------------------------------------------
// Outside items
// ---------------------------------------------------------------------------

/// The error of `aes_gcm`'s encryption and decryption.
#[verifier::external_type_specification]
#[verifier::external_body]
pub struct ExAeadError(aes_gcm::Error);

/// The longest plaintext that AES-GCM encrypts (`aes_gcm::P_MAX`, 2^36 bytes).
pub const MAX_PLAINTEXT_LEN: u64 = 68719476736;

/// The length of an AES-GCM nonce.
pub const NONCE_SIZE: usize = 12;

/// The length of the authentication tag that AES-GCM appends.
pub const TAG_SIZE: usize = 16;

/// The length of an AES-256 key.
pub const KEY_SIZE: usize = 32;

/// The name of the SHA-256 digest of a byte string.
pub uninterp spec fn sha256_of(data: Seq<u8>) -> Seq<u8>;

/// The name of the AES-256-GCM ciphertext (with its 16-byte tag appended)
/// of a plaintext under a key and a nonce, with no associated data.
pub uninterp spec fn aes256gcm_seal(key: Seq<u8>, nonce: Seq<u8>, plaintext: Seq<u8>) -> Seq<u8>;

/// The name of what AES-256-GCM decryption of a ciphertext (tag appended)
/// under a key and a nonce gives, with no associated data: `None` where the
/// tag does not authenticate it.
pub uninterp spec fn aes256gcm_open(key: Seq<u8>, nonce: Seq<u8>, ciphertext: Seq<u8>) -> Option<
    Seq<u8>,
>;

/// Computes `sha2::Sha256::digest`. The digest is only named.
#[verifier::external_body]
fn sha256(data: &[u8]) -> (res: [u8; 32])
    ensures
        res@ == sha256_of(data@),
{
    sha2::Sha256::digest(data).into()
}

/// Encrypts with `aes_gcm::Aes256Gcm::encrypt` under a cipher made from `key`
/// (`KeyInit::new`). The source (`encrypt_in_place_detached`) fails exactly
/// on a plaintext longer than `P_MAX`; otherwise it encrypts in place and
/// appends the 16-byte tag. The ciphertext is only named, beside its length.
#[verifier::external_body]
fn aes256gcm_encrypt(key: &[u8; 32], nonce: &[u8], plaintext: &[u8]) -> (res: Result<Vec<u8>, aes_gcm::Error>)
    requires
        nonce@.len() == NONCE_SIZE,
    ensures
        res is Ok <==> plaintext@.len() <= MAX_PLAINTEXT_LEN,
        res matches Ok(c) ==> c@ == aes256gcm_seal(key@, nonce@, plaintext@),
        res matches Ok(c) ==> c@.len() == plaintext@.len() + TAG_SIZE,
{
    aes_gcm::Aes256Gcm::new(key.into()).encrypt(aes_gcm::Nonce::from_slice(nonce), plaintext)
}

/// Decrypts with `aes_gcm::Aes256Gcm::decrypt` under a cipher made from
/// `key`. What it gives is only named; the facts stated of it are that
/// input shorter than the 16-byte tag is refused (`decrypt_in_place`), and
/// that of any authenticated encryption: what the same key and nonce sealed
/// opens to the plaintext that was sealed.
#[verifier::external_body]
fn aes256gcm_decrypt(key: &[u8; 32], nonce: &[u8], ciphertext: &[u8]) -> (res: Result<Vec<u8>, aes_gcm::Error>)
    requires
        nonce@.len() == NONCE_SIZE,
    ensures
        match aes256gcm_open(key@, nonce@, ciphertext@) {
            Some(p) => res matches Ok(v) && v@ == p,
            None => res is Err,
        },
        ciphertext@.len() < TAG_SIZE ==> res is Err,
        forall|p: Seq<u8>|
            #![trigger aes256gcm_seal(key@, nonce@, p)]
            p.len() <= MAX_PLAINTEXT_LEN && ciphertext@ == aes256gcm_seal(key@, nonce@, p) ==> res is Ok
                && res->Ok_0@ == p,
{
    aes_gcm::Aes256Gcm::new(key.into()).decrypt(aes_gcm::Nonce::from_slice(nonce), ciphertext)
}

/// Draws `n` bytes from `rand::thread_rng` (`Rng::fill`). Nothing is known of
/// them but their number.
#[verifier::external_body]
fn random_bytes(n: usize) -> (res: Vec<u8>)
    ensures
        res@.len() == n,
{
    let mut buf = vec![0u8; n];
    rand::Rng::fill(&mut rand::thread_rng(), &mut buf[..]);
    buf
}

/// Converts bytes to a `String` with `String::from_utf8`, which succeeds
/// exactly on well-formed UTF-8 and then holds the characters it encodes.
#[verifier::external_body]
fn string_from_utf8(bytes: Vec<u8>) -> (res: Option<String>)
    ensures
        res is Some <==> valid_utf8(bytes@),
        res matches Some(s) ==> s@ == decode_utf8(bytes@),
{
    String::from_utf8(bytes).ok()
}

// ---------------------------------------------------------------------------
// Key derivation and encryption
// ---------------------------------------------------------------------------

/// The text appended to the password before it is hashed into a key.
pub open spec fn key_salt() -> Seq<char> {
    "NullSecDiscordShield_v1"@
}

/// The key derived from a password: the SHA-256 digest of the password's
/// UTF-8 bytes followed by those of the salt.
pub open spec fn derived_key(password: Seq<char>) -> Seq<u8> {
    sha256_of(encode_utf8(password) + encode_utf8(key_salt()))
}

/// The key is salted: it is the SHA-256 digest of the password's UTF-8 bytes
/// followed by the bytes of the text `NullSecDiscordShield_v1`, so that
/// different passwords, and a password without the salt, give different
/// digest inputs.
pub proof fn lemma_key_is_salted_digest(password: Seq<char>)
    ensures
        derived_key(password) == sha256_of(
            encode_utf8(password) + encode_utf8("NullSecDiscordShield_v1"@),
        ),
        encode_utf8(password).len() < (encode_utf8(password) + encode_utf8(
            "NullSecDiscordShield_v1"@,
        )).len(),
{
    reveal_strlit("NullSecDiscordShield_v1");
    assert("NullSecDiscordShield_v1"@.len() > 0);
    assert(vstd::utf8::is_ascii_chars("NullSecDiscordShield_v1"@));
    vstd::utf8::is_ascii_chars_encode_utf8("NullSecDiscordShield_v1"@);
}

/// What encryption under `key` with `nonce` stores: the nonce, then the
/// ciphertext.
pub open spec fn sealed_with(key: Seq<u8>, nonce: Seq<u8>, plaintext: Seq<u8>) -> Seq<u8> {
    nonce + aes256gcm_seal(key, nonce, plaintext)
}

/// What decryption of stored data under `key` gives: data shorter than a
/// nonce is too short, and data shorter than a nonce and a tag does not
/// authenticate.
pub open spec fn opened(key: Seq<u8>, data: Seq<u8>) -> Result<Seq<u8>, CryptoError> {
    if data.len() < NONCE_SIZE {
        Err(CryptoError::DataTooShort)
    } else if data.len() < NONCE_SIZE + TAG_SIZE {
        Err(CryptoError::DecryptionFailed)
    } else {
        match aes256gcm_open(key, data.take(NONCE_SIZE as int), data.skip(NONCE_SIZE as int)) {
            Some(p) => Ok(p),
            None => Err(CryptoError::DecryptionFailed),
        }
    }
}

/// Why encryption or decryption failed.
#[derive(Clone, Copy, Debug, PartialEq, Eq)]
pub enum CryptoError {
    /// The stored data is shorter than a nonce.
    DataTooShort,
    /// The cipher refused the plaintext.
    EncryptionFailed,
    /// The ciphertext did not authenticate.
    DecryptionFailed,
}

/// Encrypts and decrypts tokens with AES-256-GCM under a key derived from a
/// password.
pub struct TokenCrypto {
    key: [u8; 32],
}

impl TokenCrypto {
    /// The key that the cipher uses.
    pub closed spec fn key(&self) -> Seq<u8> {
        self.key@
    }

    /// A cipher keyed by the password: the SHA-256 digest of its bytes
    /// followed by those of `NullSecDiscordShield_v1`.
    pub fn new(password: &str) -> (c: TokenCrypto)
        ensures
            c.key() == derived_key(password@),
            c.key() == sha256_of(encode_utf8(password@) + encode_utf8("NullSecDiscordShield_v1"@)),
    {
        proof {
            lemma_key_is_salted_digest(password@);
        }
        TokenCrypto { key: Self::derive_key(password) }
    }

    /// Hashes the password and the salt into a 32-byte key.
    fn derive_key(password: &str) -> (key: [u8; 32])
        ensures
            key@ == derived_key(password@),
    {
        let pw = password.as_bytes();
        let salt = "NullSecDiscordShield_v1".as_bytes();
        assert(pw@ == encode_utf8(password@));
        assert(salt@ == encode_utf8(key_salt()));
        let mut input: Vec<u8> = vstd::slice::slice_to_vec(pw);
        input.extend_from_slice(salt);
        assert(input@ =~= encode_utf8(password@) + encode_utf8(key_salt()));
        sha256(input.as_slice())
    }

    /// Encrypts `plaintext` under the given 12-byte nonce: the nonce followed
    /// by the ciphertext and its 16-byte tag; `EncryptionFailed` for a
    /// plaintext longer than 2^36 bytes.
    pub fn encrypt_with_nonce(&self, nonce: &[u8], plaintext: &[u8]) -> (res: Result<
        Vec<u8>,
        CryptoError,
    >)
        requires
            nonce@.len() == NONCE_SIZE,
        ensures
            plaintext@.len() <= MAX_PLAINTEXT_LEN ==> (res matches Ok(c) && c@ == sealed_with(
                self.key(),
                nonce@,
                plaintext@,
            )),
            plaintext@.len() > MAX_PLAINTEXT_LEN ==> res == Err::<Vec<u8>, CryptoError>(
                CryptoError::EncryptionFailed,
            ),
            res matches Ok(c) ==> c@.len() == NONCE_SIZE + plaintext@.len() + TAG_SIZE,
    {
        match aes256gcm_encrypt(&self.key, nonce, plaintext) {
            Ok(mut ciphertext) => {
                let mut out: Vec<u8> = vstd::slice::slice_to_vec(nonce);
                out.append(&mut ciphertext);
                Ok(out)
            },
            Err(_) => Err(CryptoError::EncryptionFailed),
        }
    }

    /// Encrypts `plaintext` under a fresh random nonce: the nonce followed by
    /// the ciphertext and its 16-byte tag.
    pub fn encrypt(&self, plaintext: &[u8]) -> (res: Result<Vec<u8>, CryptoError>)
        ensures
            plaintext@.len() <= MAX_PLAINTEXT_LEN ==> (res matches Ok(c) && exists|n: Seq<u8>|
                n.len() == NONCE_SIZE && c@ == sealed_with(self.key(), n, plaintext@)),
            plaintext@.len() > MAX_PLAINTEXT_LEN ==> res == Err::<Vec<u8>, CryptoError>(
                CryptoError::EncryptionFailed,
            ),
            res matches Ok(c) ==> c@.len() == NONCE_SIZE + plaintext@.len() + TAG_SIZE,
    {
        let nonce = random_bytes(NONCE_SIZE);
        self.encrypt_with_nonce(nonce.as_slice(), plaintext)
    }

    /// Decrypts data that `encrypt` produced: `DataTooShort` where it is
    /// shorter than a nonce, `DecryptionFailed` where it is shorter than a
    /// nonce and a tag or does not authenticate. What was encrypted under this key decrypts to the
    /// plaintext.
    pub fn decrypt(&self, data: &[u8]) -> (res: Result<Vec<u8>, CryptoError>)
        ensures
            match opened(self.key(), data@) {
                Ok(p) => res matches Ok(v) && v@ == p,
                Err(e) => res == Err::<Vec<u8>, CryptoError>(e),
            },
            forall|n: Seq<u8>, p: Seq<u8>|
                n.len() == NONCE_SIZE && p.len() <= MAX_PLAINTEXT_LEN && data@ == #[trigger] sealed_with(
                    self.key(),
                    n,
                    p,
                ) ==> (res matches Ok(v) && v@ == p),
    {
        if data.len() < NONCE_SIZE {
            return Err(CryptoError::DataTooShort);
        }
        let nonce = vstd::slice::slice_subrange(data, 0, NONCE_SIZE);
        let ciphertext = vstd::slice::slice_subrange(data, NONCE_SIZE, data.len());
        assert(nonce@ =~= data@.take(NONCE_SIZE as int));
        assert(ciphertext@ =~= data@.skip(NONCE_SIZE as int));
        let res = aes256gcm_decrypt(&self.key, nonce, ciphertext);
        assert forall|n: Seq<u8>, p: Seq<u8>|
            n.len() == NONCE_SIZE && p.len() <= MAX_PLAINTEXT_LEN && data@ == #[trigger] sealed_with(
                self.key(),
                n,
                p,
            ) implies (res matches Ok(v) && v@ == p) by {
            assert(nonce@ =~= n);
            assert(ciphertext@ =~= aes256gcm_seal(self.key(), n, p));
        }
        match res {
            Ok(v) => Ok(v),
            Err(_) => Err(CryptoError::DecryptionFailed),
        }
    }
}

// ---------------------------------------------------------------------------
// Scrambling tokens in memory
// ---------------------------------------------------------------------------

/// Each byte of `bytes` XORed with `key`.
pub open spec fn xor_bytes(bytes: Seq<u8>, key: u8) -> Seq<u8> {
    Seq::new(bytes.len(), |i: int| bytes[i] ^ key)
}

/// A token scrambled with `key`: the key, then the token's UTF-8 bytes each
/// XORed with the key.
pub open spec fn obfuscated(key: u8, token: Seq<char>) -> Seq<u8> {
    seq![key] + xor_bytes(encode_utf8(token), key)
}

/// What unscrambling gives: nothing for empty data, else the text that the
/// bytes after the first, XORed with the first, encode, where they are UTF-8.
pub open spec fn deobfuscated(data: Seq<u8>) -> Option<Seq<char>> {
    if data.len() == 0 {
        None
    } else {
        let plain = xor_bytes(data.drop_first(), data[0]);
        if valid_utf8(plain) {
            Some(decode_utf8(plain))
        } else {
            None
        }
    }
}

/// XORs each byte of `bytes` with `key`.
fn xor_vec(bytes: &[u8], start: usize, key: u8) -> (res: Vec<u8>)
    requires
        start <= bytes@.len(),
    ensures
        res@ == xor_bytes(bytes@.skip(start as int), key),
{
    let mut out: Vec<u8> = Vec::new();
    let mut i: usize = start;
    while i < bytes.len()
        invariant
            start <= i <= bytes@.len(),
            out@ =~= xor_bytes(bytes@.skip(start as int), key).take(i - start),
        decreases bytes.len() - i,
    {
        out.push(bytes[i] ^ key);
        i = i + 1;
    }
    out
}

/// Scrambles `token` with the given key byte.
pub fn obfuscate_token_with_key(token: &str, key: u8) -> (res: Vec<u8>)
    ensures
        res@ == obfuscated(key, token@),
{
    let bytes = token.as_bytes();
    let mut out: Vec<u8> = Vec::new();
    out.push(key);
    let mut rest = xor_vec(bytes, 0, key);
    assert(bytes@.skip(0) =~= bytes@);
    out.append(&mut rest);
    assert(out@ =~= obfuscated(key, token@));
    out
}

/// Scrambles `token` with a random key byte.
pub fn obfuscate_token(token: &str) -> (res: Vec<u8>)
    ensures
        res@ == obfuscated(res@[0], token@),
{
    let key_bytes = random_bytes(1);
    obfuscate_token_with_key(token, key_bytes[0])
}

/// Unscrambles data that `obfuscate_token` produced.
pub fn deobfuscate_token(data: &[u8]) -> (res: Option<String>)
    ensures
        match deobfuscated(data@) {
            Some(t) => res matches Some(s) && s@ == t,
            None => res is None,
        },
{
    if data.len() == 0 {
        return None;
    }
    let key = data[0];
    let plain = xor_vec(data, 1, key);
    assert(data@.skip(1) =~= data@.drop_first());
    string_from_utf8(plain)
}

/// Unscrambling undoes scrambling, whatever the key.
pub proof fn lemma_deobfuscate_obfuscated(key: u8, token: Seq<char>)
    ensures
        deobfuscated(obfuscated(key, token)) == Some(token),
{
    let data = obfuscated(key, token);
    let bytes = encode_utf8(token);
    assert(data.drop_first() =~= xor_bytes(bytes, key));
    assert(xor_bytes(xor_bytes(bytes, key), key) =~= bytes) by {
        assert forall|i: int| 0 <= i < bytes.len() implies #[trigger] xor_bytes(
            xor_bytes(bytes, key),
            key,
        )[i] == bytes[i] by {
            let b = bytes[i];
            assert((b ^ key) ^ key == b) by (bit_vector);
        }
    }
    vstd::utf8::encode_utf8_valid_utf8(token);
    vstd::utf8::encode_utf8_decode_utf8(token);
}

} // verus!
