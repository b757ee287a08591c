//! The AEAD calls into `aws-lc-rs`.
//!
//! Each function here makes one call on plain values: the key, the nonce and the additional
//! data go in as bytes. What the ciphers compute is not written out; it has a name.

use aws_lc_rs::aead;
use aws_lc_rs::error::Unspecified;
use vstd::prelude::*;

verus! {

/// The error of every failed call into `aws-lc-rs`.
#[verifier::external_type_specification]
#[verifier::external_body]
pub struct ExUnspecified(Unspecified);

/// The AEADs of the TLS 1.3 cipher suites.
#[derive(Clone, Copy, Debug, PartialEq, Eq, Structural)]
pub enum Algorithm {
    Chacha20Poly1305,
    Aes128Gcm,
    Aes256Gcm,
}

/// Length of the tag of each of these AEADs.
pub const TAG_LEN: usize = 16;

/// Length of the nonce of each of these AEADs.
pub const NONCE_LEN: usize = 12;

/// Length of the additional data of a TLS 1.3 record: its header.
pub const AAD_LEN: usize = 5;

impl Algorithm {
    /// Length of a key, in bytes.
    pub open spec fn spec_key_len(self) -> nat {
        match self {
            Algorithm::Chacha20Poly1305 => 32,
            Algorithm::Aes128Gcm => 16,
            Algorithm::Aes256Gcm => 32,
        }
    }

    /// Is this AES in Galois/Counter mode?
    pub open spec fn is_gcm(self) -> bool {
        self != Algorithm::Chacha20Poly1305
    }

    /// Calls `aead::Algorithm::key_len`, which gives 32 bytes for ChaCha20-Poly1305 and for
    /// AES-256-GCM, and 16 bytes for AES-128-GCM.
    #[verifier::external_body]
    pub(crate) fn key_len(self) -> (r: usize)
        ensures
            r == self.spec_key_len(),
    {
        match self {
            Algorithm::Chacha20Poly1305 => aead::CHACHA20_POLY1305.key_len(),
            Algorithm::Aes128Gcm => aead::AES_128_GCM.key_len(),
            Algorithm::Aes256Gcm => aead::AES_256_GCM.key_len(),
        }
    }

    /// Calls `aead::Algorithm::tag_len`, which gives 16 bytes for each of these AEADs.
    #[verifier::external_body]
    pub(crate) fn tag_len(self) -> (r: usize)
        ensures
            r == TAG_LEN,
    {
        match self {
            Algorithm::Chacha20Poly1305 => aead::CHACHA20_POLY1305.tag_len(),
            Algorithm::Aes128Gcm => aead::AES_128_GCM.tag_len(),
            Algorithm::Aes256Gcm => aead::AES_256_GCM.tag_len(),
        }
    }
}

/// `n` zero bytes.
pub open spec fn zeroes(n: nat) -> Seq<u8> {
    Seq::new(n, |i: int| 0u8)
}

/// What `aead::LessSafeKey::seal_in_place_append_tag` makes of a plaintext: the ciphertext with
/// the tag behind it, or nothing where it fails.
pub uninterp spec fn less_safe_sealed(
    alg: Algorithm,
    key: Seq<u8>,
    nonce: Seq<u8>,
    aad: Seq<u8>,
    plain: Seq<u8>,
) -> Option<Seq<u8>>;

/// What `aead::LessSafeKey::open_in_place` makes of a ciphertext with its tag behind it: the
/// plaintext, or nothing where it does not authenticate.
pub uninterp spec fn less_safe_opened(
    alg: Algorithm,
    key: Seq<u8>,
    nonce: Seq<u8>,
    aad: Seq<u8>,
    sealed: Seq<u8>,
) -> Option<Seq<u8>>;

/// What `aead::TlsRecordSealingKey::seal_in_place_append_tag` makes of the first plaintext that
/// a TLS 1.3 key seals.
pub uninterp spec fn tls_record_sealed(
    alg: Algorithm,
    key: Seq<u8>,
    nonce: Seq<u8>,
    aad: Seq<u8>,
    plain: Seq<u8>,
) -> Option<Seq<u8>>;

/// What `aead::TlsRecordOpeningKey::open_in_place` makes of a ciphertext with its tag behind it,
/// for a TLS 1.3 key.
pub uninterp spec fn tls_record_opened(
    alg: Algorithm,
    key: Seq<u8>,
    nonce: Seq<u8>,
    aad: Seq<u8>,
    sealed: Seq<u8>,
) -> Option<Seq<u8>>;

/// Calls `aead::LessSafeKey::seal_in_place_append_tag` on a key that was made of `key`.
///
/// The result depends on the arguments alone. Inputs of less than 4GB are always sealed. What
/// comes out is as long as the plaintext and a tag together, and opens to the plaintext again.
/// A key of the wrong length would panic.
#[verifier::external_body]
pub(crate) fn less_safe_seal(
    alg: Algorithm,
    key: &[u8],
    nonce: [u8; NONCE_LEN],
    aad: [u8; AAD_LEN],
    in_out: &mut Vec<u8>,
) -> (r: Result<(), Unspecified>)
    requires
        key@.len() == alg.spec_key_len(),
    ensures
        r is Ok <==> less_safe_sealed(alg, key@, nonce@, aad@, old(in_out)@) is Some,
        old(in_out)@.len() < 0x1_0000_0000 ==> r is Ok,
        r is Ok ==> {
            &&& less_safe_sealed(alg, key@, nonce@, aad@, old(in_out)@) == Some(final(in_out)@)
            &&& final(in_out)@.len() == old(in_out)@.len() + TAG_LEN
            &&& less_safe_opened(alg, key@, nonce@, aad@, final(in_out)@) == Some(old(in_out)@)
        },
{
    let alg: &'static aead::Algorithm = match alg {
        Algorithm::Chacha20Poly1305 => &aead::CHACHA20_POLY1305,
        Algorithm::Aes128Gcm => &aead::AES_128_GCM,
        Algorithm::Aes256Gcm => &aead::AES_256_GCM,
    };
    let key = aead::LessSafeKey::new(aead::UnboundKey::new(alg, key).unwrap());
    let nonce = aead::Nonce::assume_unique_for_key(nonce);
    key.seal_in_place_append_tag(nonce, aead::Aad::from(aad), in_out)
}

/// Calls `aead::LessSafeKey::open_in_place` on a key that was made of `key`; gives the length of
/// the plaintext, which then lies at the front of `in_out`.
///
/// The result depends on the arguments alone, and a plaintext is shorter than what was opened
/// by the length of the tag. The tag stays where it is. Where opening fails the ciphertext is
/// filled with zero bytes, as the code of this version of the crate does before it reports the
/// failure; what is shorter than a tag is not touched.
#[verifier::external_body]
pub(crate) fn less_safe_open(
    alg: Algorithm,
    key: &[u8],
    nonce: [u8; NONCE_LEN],
    aad: [u8; AAD_LEN],
    in_out: &mut [u8],
) -> (r: Result<usize, Unspecified>)
    requires
        key@.len() == alg.spec_key_len(),
    ensures
        final(in_out)@.len() == old(in_out)@.len(),
        match r {
            Ok(n) => {
                &&& n + TAG_LEN == old(in_out)@.len()
                &&& less_safe_opened(alg, key@, nonce@, aad@, old(in_out)@) == Some(
                    final(in_out)@.take(n as int),
                )
                &&& final(in_out)@.skip(n as int) == old(in_out)@.skip(n as int)
            },
            Err(_) => {
                &&& less_safe_opened(alg, key@, nonce@, aad@, old(in_out)@) is None
                &&& final(in_out)@ == (if old(in_out)@.len() < TAG_LEN {
                    old(in_out)@
                } else {
                    zeroes((old(in_out)@.len() - TAG_LEN) as nat) + old(in_out)@.skip(
                        old(in_out)@.len() - TAG_LEN,
                    )
                })
            },
        },
{
    let alg: &'static aead::Algorithm = match alg {
        Algorithm::Chacha20Poly1305 => &aead::CHACHA20_POLY1305,
        Algorithm::Aes128Gcm => &aead::AES_128_GCM,
        Algorithm::Aes256Gcm => &aead::AES_256_GCM,
    };
    let key = aead::LessSafeKey::new(aead::UnboundKey::new(alg, key).unwrap());
    let nonce = aead::Nonce::assume_unique_for_key(nonce);
    key.open_in_place(nonce, aead::Aad::from(aad), in_out).map(|plain| plain.len())
}

/// Calls `aead::LessSafeKey::open_separate_gather` on a key that was made of `key`.
///
/// It opens what `open_in_place` opens when the tag stands behind the ciphertext, and writes the
/// same plaintext to `out`, which has to be as long as the ciphertext. Where opening fails it fills
/// `out` with zero bytes, as the code of this version of the crate does before it reports the
/// failure.
#[verifier::external_body]
pub(crate) fn less_safe_open_gather(
    alg: Algorithm,
    key: &[u8],
    nonce: [u8; NONCE_LEN],
    aad: [u8; AAD_LEN],
    parts: (&[u8], &[u8]),
    out: &mut [u8],
) -> (r: Result<(), Unspecified>)
    requires
        key@.len() == alg.spec_key_len(),
        parts.0@.len() == old(out)@.len(),
        parts.1@.len() == TAG_LEN,
    ensures
        final(out)@.len() == old(out)@.len(),
        match r {
            Ok(_) => less_safe_opened(alg, key@, nonce@, aad@, parts.0@ + parts.1@) == Some(
                final(out)@,
            ),
            Err(_) => {
                &&& less_safe_opened(alg, key@, nonce@, aad@, parts.0@ + parts.1@) is None
                &&& final(out)@ == zeroes(old(out)@.len())
            },
        },
{
    let alg: &'static aead::Algorithm = match alg {
        Algorithm::Chacha20Poly1305 => &aead::CHACHA20_POLY1305,
        Algorithm::Aes128Gcm => &aead::AES_128_GCM,
        Algorithm::Aes256Gcm => &aead::AES_256_GCM,
    };
    let key = aead::LessSafeKey::new(aead::UnboundKey::new(alg, key).unwrap());
    let nonce = aead::Nonce::assume_unique_for_key(nonce);
    key.open_separate_gather(nonce, aead::Aad::from(aad), parts.0, parts.1, out)
}

/// Calls `aead::TlsRecordSealingKey::seal_in_place_append_tag` on a fresh TLS 1.3 key that was
/// made of `key`.
///
/// Such a key refuses nonces that do not increase; the first one it takes as it is. So the
/// result depends on the arguments alone, and inputs of less than 4GB are always sealed. What
/// comes out is as long as the plaintext and a tag together, and opens to the plaintext again.
/// A key of the wrong length, or of an algorithm other than AES-GCM, would panic.
#[verifier::external_body]
pub(crate) fn tls_record_seal(
    alg: Algorithm,
    key: &[u8],
    nonce: [u8; NONCE_LEN],
    aad: [u8; AAD_LEN],
    in_out: &mut Vec<u8>,
) -> (r: Result<(), Unspecified>)
    requires
        alg.is_gcm(),
        key@.len() == alg.spec_key_len(),
    ensures
        r is Ok <==> tls_record_sealed(alg, key@, nonce@, aad@, old(in_out)@) is Some,
        old(in_out)@.len() < 0x1_0000_0000 ==> r is Ok,
        r is Ok ==> {
            &&& tls_record_sealed(alg, key@, nonce@, aad@, old(in_out)@) == Some(final(in_out)@)
            &&& final(in_out)@.len() == old(in_out)@.len() + TAG_LEN
            &&& tls_record_opened(alg, key@, nonce@, aad@, final(in_out)@) == Some(old(in_out)@)
        },
{
    let alg: &'static aead::Algorithm = match alg {
        Algorithm::Chacha20Poly1305 => &aead::CHACHA20_POLY1305,
        Algorithm::Aes128Gcm => &aead::AES_128_GCM,
        Algorithm::Aes256Gcm => &aead::AES_256_GCM,
    };
    let protocol = aead::TlsProtocolId::TLS13;
    let mut key = aead::TlsRecordSealingKey::new(alg, protocol, key).unwrap();
    let nonce = aead::Nonce::assume_unique_for_key(nonce);
    key.seal_in_place_append_tag(nonce, aead::Aad::from(aad), in_out)
}

/// Calls `aead::TlsRecordOpeningKey::open_in_place` on a TLS 1.3 key that was made of `key`;
/// gives the length of the plaintext, which then lies at the front of `in_out`.
///
/// The result depends on the arguments alone, and a plaintext is shorter than what was opened
/// by the length of the tag. The tag stays where it is. Where opening fails the ciphertext is
/// filled with zero bytes, as the code of this version of the crate does before it reports the
/// failure; what is shorter than a tag is not touched.
#[verifier::external_body]
pub(crate) fn tls_record_open(
    alg: Algorithm,
    key: &[u8],
    nonce: [u8; NONCE_LEN],
    aad: [u8; AAD_LEN],
    in_out: &mut [u8],
) -> (r: Result<usize, Unspecified>)
    requires
        alg.is_gcm(),
        key@.len() == alg.spec_key_len(),
    ensures
        final(in_out)@.len() == old(in_out)@.len(),
        match r {
            Ok(n) => {
                &&& n + TAG_LEN == old(in_out)@.len()
                &&& tls_record_opened(alg, key@, nonce@, aad@, old(in_out)@) == Some(
                    final(in_out)@.take(n as int),
                )
                &&& final(in_out)@.skip(n as int) == old(in_out)@.skip(n as int)
            },
            Err(_) => {
                &&& tls_record_opened(alg, key@, nonce@, aad@, old(in_out)@) is None
                &&& final(in_out)@ == (if old(in_out)@.len() < TAG_LEN {
                    old(in_out)@
                } else {
                    zeroes((old(in_out)@.len() - TAG_LEN) as nat) + old(in_out)@.skip(
                        old(in_out)@.len() - TAG_LEN,
                    )
                })
            },
        },
{
    let alg: &'static aead::Algorithm = match alg {
        Algorithm::Chacha20Poly1305 => &aead::CHACHA20_POLY1305,
        Algorithm::Aes128Gcm => &aead::AES_128_GCM,
        Algorithm::Aes256Gcm => &aead::AES_256_GCM,
    };
    let key = aead::TlsRecordOpeningKey::new(alg, aead::TlsProtocolId::TLS13, key).unwrap();
    let nonce = aead::Nonce::assume_unique_for_key(nonce);
    key.open_in_place(nonce, aead::Aad::from(aad), in_out).map(|plain| plain.len())
}

/// Zero bytes are as many as were asked for, and all of them zero.
pub proof fn law_zeroes_are_zero(n: nat)
    ensures
        zeroes(n).len() == n,
        forall|i: int| 0 <= i < n ==> #[trigger] zeroes(n)[i] == 0,
{
}

} // verus!
