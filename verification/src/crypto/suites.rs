//! The TLS 1.3 cipher suites.

use vstd::prelude::*;

use crate::crypto::aead::Algorithm;
use crate::crypto::hkdf::HashAlgorithm;

verus! {

/// The code points of the cipher suites.
#[allow(non_camel_case_types)]
#[derive(Clone, Copy, Debug, PartialEq, Eq, Structural)]
pub enum CipherSuite {
    TLS13_AES_128_GCM_SHA256,
    TLS13_AES_256_GCM_SHA384,
    TLS13_CHACHA20_POLY1305_SHA256,
}

/// How the headers of QUIC packets are protected.
#[derive(Clone, Copy, Debug, PartialEq, Eq, Structural)]
pub enum HeaderProtection {
    Aes128,
    Aes256,
    Chacha20,
}

/// How a cipher suite is used with QUIC.
#[derive(Clone, Copy, Debug, PartialEq, Eq, Structural)]
pub struct QuicSuite {
    pub packet_alg: Algorithm,
    pub header_alg: HeaderProtection,
    /// How many packets may be encrypted with one key.
    pub confidentiality_limit: u64,
    /// How many packets may fail to authenticate with one key.
    pub integrity_limit: u64,
}

/// A TLS 1.3 cipher suite.
#[derive(Clone, Copy, Debug, PartialEq, Eq, Structural)]
pub struct Tls13CipherSuite {
    pub suite: CipherSuite,
    pub hash: HashAlgorithm,
    /// How many records may be encrypted with one key.
    pub confidentiality_limit: u64,
    pub aead_alg: Algorithm,
    pub quic: QuicSuite,
}

/// The cipher suite TLS_CHACHA20_POLY1305_SHA256.
///
/// No number of records or packets wears a key of ChaCha20-Poly1305 out; of failed packets it
/// takes 2^36.
pub fn tls13_chacha20_poly1305_sha256() -> (r: Tls13CipherSuite)
    ensures
        r == (Tls13CipherSuite {
            suite: CipherSuite::TLS13_CHACHA20_POLY1305_SHA256,
            hash: HashAlgorithm::Sha256,
            confidentiality_limit: u64::MAX,
            aead_alg: Algorithm::Chacha20Poly1305,
            quic: QuicSuite {
                packet_alg: Algorithm::Chacha20Poly1305,
                header_alg: HeaderProtection::Chacha20,
                confidentiality_limit: u64::MAX,
                integrity_limit: 0x10_0000_0000,
            },
        }),
{
    Tls13CipherSuite {
        suite: CipherSuite::TLS13_CHACHA20_POLY1305_SHA256,
        hash: HashAlgorithm::Sha256,
        confidentiality_limit: u64::MAX,
        aead_alg: Algorithm::Chacha20Poly1305,
        quic: QuicSuite {
            packet_alg: Algorithm::Chacha20Poly1305,
            header_alg: HeaderProtection::Chacha20,
            confidentiality_limit: u64::MAX,
            integrity_limit: 0x10_0000_0000,
        },
    }
}

/// The cipher suite TLS_AES_256_GCM_SHA384.
///
/// A key of AES-GCM lasts for 2^24 records, for 2^23 packets, and for 2^52 failed packets.
pub fn tls13_aes_256_gcm_sha384() -> (r: Tls13CipherSuite)
    ensures
        r == (Tls13CipherSuite {
            suite: CipherSuite::TLS13_AES_256_GCM_SHA384,
            hash: HashAlgorithm::Sha384,
            confidentiality_limit: 0x100_0000,
            aead_alg: Algorithm::Aes256Gcm,
            quic: QuicSuite {
                packet_alg: Algorithm::Aes256Gcm,
                header_alg: HeaderProtection::Aes256,
                confidentiality_limit: 0x80_0000,
                integrity_limit: 0x10_0000_0000_0000,
            },
        }),
{
    Tls13CipherSuite {
        suite: CipherSuite::TLS13_AES_256_GCM_SHA384,
        hash: HashAlgorithm::Sha384,
        confidentiality_limit: 0x100_0000,
        aead_alg: Algorithm::Aes256Gcm,
        quic: QuicSuite {
            packet_alg: Algorithm::Aes256Gcm,
            header_alg: HeaderProtection::Aes256,
            confidentiality_limit: 0x80_0000,
            integrity_limit: 0x10_0000_0000_0000,
        },
    }
}

/// The cipher suite TLS_AES_128_GCM_SHA256.
///
/// A key of AES-GCM lasts for 2^24 records, for 2^23 packets, and for 2^52 failed packets.
pub fn tls13_aes_128_gcm_sha256() -> (r: Tls13CipherSuite)
    ensures
        r == (Tls13CipherSuite {
            suite: CipherSuite::TLS13_AES_128_GCM_SHA256,
            hash: HashAlgorithm::Sha256,
            confidentiality_limit: 0x100_0000,
            aead_alg: Algorithm::Aes128Gcm,
            quic: QuicSuite {
                packet_alg: Algorithm::Aes128Gcm,
                header_alg: HeaderProtection::Aes128,
                confidentiality_limit: 0x80_0000,
                integrity_limit: 0x10_0000_0000_0000,
            },
        }),
{
    Tls13CipherSuite {
        suite: CipherSuite::TLS13_AES_128_GCM_SHA256,
        hash: HashAlgorithm::Sha256,
        confidentiality_limit: 0x100_0000,
        aead_alg: Algorithm::Aes128Gcm,
        quic: QuicSuite {
            packet_alg: Algorithm::Aes128Gcm,
            header_alg: HeaderProtection::Aes128,
            confidentiality_limit: 0x80_0000,
            integrity_limit: 0x10_0000_0000_0000,
        },
    }
}

} // verus!
