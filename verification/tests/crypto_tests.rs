use discord_shield::crypto::{
    deobfuscate_token, obfuscate_token, obfuscate_token_with_key, CryptoError, TokenCrypto,
};

#[test]
fn decrypt_inverts_encrypt() {
    let c = TokenCrypto::new("nullsec_host_user");
    let data = c.encrypt(b"secret token").unwrap();
    assert_eq!(data.len(), 12 + 12 + 16);
    assert_eq!(c.decrypt(&data).unwrap(), b"secret token".to_vec());
    let again = c.encrypt(b"secret token").unwrap();
    assert_ne!(data, again);
}

#[test]
fn same_password_same_key() {
    let a = TokenCrypto::new("pw");
    let b = TokenCrypto::new("pw");
    let data = a.encrypt(b"x").unwrap();
    assert_eq!(b.decrypt(&data).unwrap(), b"x".to_vec());
    let other = TokenCrypto::new("other");
    assert_eq!(other.decrypt(&data), Err(CryptoError::DecryptionFailed));
}

#[test]
fn encrypt_with_nonce_prefixes_the_nonce() {
    let c = TokenCrypto::new("pw");
    let nonce = [7u8; 12];
    let data = c.encrypt_with_nonce(&nonce, b"abc").unwrap();
    assert_eq!(&data[..12], &nonce[..]);
    assert_eq!(data.len(), 12 + 3 + 16);
    assert_eq!(c.encrypt_with_nonce(&nonce, b"abc").unwrap(), data);
    assert_eq!(c.decrypt(&data).unwrap(), b"abc".to_vec());
}

#[test]
fn short_or_tampered_data_is_refused() {
    let c = TokenCrypto::new("pw");
    assert_eq!(c.decrypt(&[1, 2, 3]), Err(CryptoError::DataTooShort));
    let mut data = c.encrypt(b"hello").unwrap();
    let last = data.len() - 1;
    data[last] ^= 1;
    assert_eq!(c.decrypt(&data), Err(CryptoError::DecryptionFailed));
    assert_eq!(c.decrypt(&[0u8; 12]), Err(CryptoError::DecryptionFailed));
}

#[test]
fn obfuscation_with_a_known_key() {
    assert_eq!(obfuscate_token_with_key("ab", 0x01), vec![0x01, 0x60, 0x63]);
    assert_eq!(obfuscate_token_with_key("", 0x55), vec![0x55]);
}

#[test]
fn deobfuscate_inverts_obfuscate() {
    for t in ["", "token", "MTIz.Gh.abc", "héllo wörld"] {
        let o = obfuscate_token(t);
        assert_eq!(o.len(), t.len() + 1);
        assert_eq!(deobfuscate_token(&o), Some(t.to_string()));
    }
}

#[test]
fn deobfuscate_refuses_empty_and_non_utf8() {
    assert_eq!(deobfuscate_token(&[]), None);
    assert_eq!(deobfuscate_token(&[0x00, 0xff]), None);
    assert_eq!(deobfuscate_token(&[0x00]), Some(String::new()));
}

#[test]
fn stored_length_is_nonce_plaintext_and_tag() {
    let c = TokenCrypto::new("pw");
    for n in [0usize, 1, 15, 16, 100] {
        let plain = vec![0x41u8; n];
        assert_eq!(c.encrypt(&plain).unwrap().len(), 12 + n + 16);
    }
}

#[test]
fn data_shorter_than_nonce_and_tag_is_refused() {
    let c = TokenCrypto::new("pw");
    assert_eq!(c.decrypt(&[0u8; 11]), Err(CryptoError::DataTooShort));
    assert_eq!(c.decrypt(&[0u8; 27]), Err(CryptoError::DecryptionFailed));
    let data = c.encrypt(b"").unwrap();
    assert_eq!(data.len(), 28);
    assert_eq!(c.decrypt(&data).unwrap(), Vec::<u8>::new());
}
