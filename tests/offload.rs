use ktls_uring::{offload_config, CipherSuite, TlsVersion};

fn nonce() -> Vec<u8> {
    (1..=12).collect()
}

#[test]
fn aes_gcm_nonce_splits_into_salt_and_iv() {
    let key = vec![0xAA; 16];
    let c = offload_config(TlsVersion::Tls13, CipherSuite::Aes128Gcm, &key, &nonce(), 0x0102).unwrap();
    assert_eq!(c.version, 0x0304);
    assert_eq!(c.cipher_type, 51);
    assert_eq!(c.key, key);
    assert_eq!(c.salt, vec![1, 2, 3, 4]);
    assert_eq!(c.iv, vec![5, 6, 7, 8, 9, 10, 11, 12]);
    assert_eq!(c.rec_seq, vec![0, 0, 0, 0, 0, 0, 1, 2]);
}

#[test]
fn tls12_aes256_record() {
    let key = vec![7; 32];
    let c = offload_config(TlsVersion::Tls12, CipherSuite::Aes256Gcm, &key, &nonce(), u64::MAX).unwrap();
    assert_eq!(c.version, 0x0303);
    assert_eq!(c.cipher_type, 52);
    assert_eq!(c.rec_seq, vec![0xFF; 8]);
}

#[test]
fn chacha_keeps_whole_nonce_as_iv() {
    let c = offload_config(TlsVersion::Tls13, CipherSuite::Chacha20Poly1305, &[3; 32], &nonce(), 1).unwrap();
    assert_eq!(c.cipher_type, 54);
    assert!(c.salt.is_empty());
    assert_eq!(c.iv, nonce());
}

#[test]
fn wrong_lengths_are_refused() {
    assert!(offload_config(TlsVersion::Tls13, CipherSuite::Aes128Gcm, &[0; 32], &nonce(), 0).is_none());
    assert!(offload_config(TlsVersion::Tls13, CipherSuite::Aes256Gcm, &[0; 32], &[0; 8], 0).is_none());
}
