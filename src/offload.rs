//! The kernel TLS offload record for one direction: the `tls_crypto_info`
//! layout of `linux/tls.h`, built from a traffic secret.
use vstd::prelude::*;
use crate::codec::be64_bytes;

verus! {

/// The negotiated TLS version.
#[derive(Debug, Clone, Copy, PartialEq, Eq, Structural)]
pub enum TlsVersion {
    Tls12,
    Tls13,
}

/// The AEAD of a traffic secret.
#[derive(Debug, Clone, Copy, PartialEq, Eq, Structural)]
pub enum CipherSuite {
    Aes128Gcm,
    Aes256Gcm,
    Chacha20Poly1305,
}

/// `TLS_1_2_VERSION` of `linux/tls.h`.
pub const TLS_1_2_VERSION: u16 = 0x0303;

/// `TLS_1_3_VERSION` of `linux/tls.h`.
pub const TLS_1_3_VERSION: u16 = 0x0304;

/// `TLS_CIPHER_AES_GCM_128`.
pub const TLS_CIPHER_AES_GCM_128: u16 = 51;

/// `TLS_CIPHER_AES_GCM_256`.
pub const TLS_CIPHER_AES_GCM_256: u16 = 52;

/// `TLS_CIPHER_CHACHA20_POLY1305`.
pub const TLS_CIPHER_CHACHA20_POLY1305: u16 = 54;

/// The length of the nonce base (IV) of every supported suite.
pub const NONCE_LEN: usize = 12;

/// The kernel's code for a TLS version.
pub open spec fn version_code(v: TlsVersion) -> u16 {
    match v {
        TlsVersion::Tls12 => TLS_1_2_VERSION,
        TlsVersion::Tls13 => TLS_1_3_VERSION,
    }
}

/// The kernel's code for a cipher suite.
pub open spec fn cipher_code(c: CipherSuite) -> u16 {
    match c {
        CipherSuite::Aes128Gcm => TLS_CIPHER_AES_GCM_128,
        CipherSuite::Aes256Gcm => TLS_CIPHER_AES_GCM_256,
        CipherSuite::Chacha20Poly1305 => TLS_CIPHER_CHACHA20_POLY1305,
    }
}

/// The key length of a cipher suite.
pub open spec fn key_len(c: CipherSuite) -> nat {
    match c {
        CipherSuite::Aes128Gcm => 16,
        _ => 32,
    }
}

/// The salt length of a cipher suite: the implicit part of the nonce that
/// AES-GCM keeps apart from the per-record IV; ChaCha20-Poly1305 has none.
pub open spec fn salt_len(c: CipherSuite) -> nat {
    match c {
        CipherSuite::Chacha20Poly1305 => 0,
        _ => 4,
    }
}

/// The fields of one direction's `tls12_crypto_info_*` record.
pub struct OffloadConfig {
    pub version: u16,
    pub cipher_type: u16,
    pub iv: Vec<u8>,
    pub key: Vec<u8>,
    pub salt: Vec<u8>,
    pub rec_seq: Vec<u8>,
}

/// Whether `c` is the record for a secret with this version, suite, key,
/// nonce base and next sequence number: the nonce base splits into the salt
/// and the IV, and the sequence number is written big-endian.
pub open spec fn is_offload_config(
    c: OffloadConfig,
    version: TlsVersion,
    suite: CipherSuite,
    key: Seq<u8>,
    nonce: Seq<u8>,
    seq: u64,
) -> bool {
    &&& c.version == version_code(version)
    &&& c.cipher_type == cipher_code(suite)
    &&& c.key@ == key
    &&& c.salt@ == nonce.take(salt_len(suite) as int)
    &&& c.iv@ == nonce.skip(salt_len(suite) as int)
    &&& c.rec_seq@ == be64_bytes(seq)
}

fn copy_bytes(b: &[u8], start: usize, end: usize) -> (r: Vec<u8>)
    requires
        start <= end <= b@.len(),
    ensures
        r@ == b@.subrange(start as int, end as int),
{
    let mut out: Vec<u8> = Vec::new();
    let mut i: usize = start;
    while i < end
        invariant
            start <= i <= end <= b@.len(),
            out@ =~= b@.subrange(start as int, i as int),
        decreases end - i,
    {
        out.push(b[i]);
        i = i + 1;
    }
    out
}

/// Builds the offload record for one direction; `None` where the key or the
/// nonce base has the wrong length for the suite.
pub fn offload_config(version: TlsVersion, suite: CipherSuite, key: &[u8], nonce: &[u8], seq: u64) -> (r:
    Option<OffloadConfig>)
    ensures
        r is Some <==> (key@.len() == key_len(suite) && nonce@.len() == NONCE_LEN),
        r matches Some(c) ==> is_offload_config(c, version, suite, key@, nonce@, seq),
{
    let (cipher_type, want_key, salt): (u16, usize, usize) = match suite {
        CipherSuite::Aes128Gcm => (TLS_CIPHER_AES_GCM_128, 16, 4),
        CipherSuite::Aes256Gcm => (TLS_CIPHER_AES_GCM_256, 32, 4),
        CipherSuite::Chacha20Poly1305 => (TLS_CIPHER_CHACHA20_POLY1305, 32, 0),
    };
    if key.len() != want_key || nonce.len() != NONCE_LEN {
        return None;
    }
    let code = match version {
        TlsVersion::Tls12 => TLS_1_2_VERSION,
        TlsVersion::Tls13 => TLS_1_3_VERSION,
    };
    let rec_seq = vec![
        (seq >> 56u64) as u8,
        (seq >> 48u64) as u8,
        (seq >> 40u64) as u8,
        (seq >> 32u64) as u8,
        (seq >> 24u64) as u8,
        (seq >> 16u64) as u8,
        (seq >> 8u64) as u8,
        seq as u8,
    ];
    assert(rec_seq@ =~= be64_bytes(seq));
    let config = OffloadConfig {
        version: code,
        cipher_type,
        iv: copy_bytes(nonce, salt, NONCE_LEN),
        key: copy_bytes(key, 0, key.len()),
        salt: copy_bytes(nonce, 0, salt),
        rec_seq,
    };
    assert(config.key@ =~= key@);
    assert(config.salt@ =~= nonce@.take(salt_len(suite) as int));
    assert(config.iv@ =~= nonce@.skip(salt_len(suite) as int));
    Some(config)
}

} // verus!
