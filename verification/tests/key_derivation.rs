//! Key derivation and cipher suites.

use tls_unbuffered::crypto::aead::Algorithm;
use tls_unbuffered::crypto::hkdf::{AwsLcHkdf, HashAlgorithm, OkmBlock, OutputLengthError};
use tls_unbuffered::crypto::key_schedule::{derive_next_secret, derive_traffic_key};
use tls_unbuffered::crypto::suites::{
    tls13_aes_128_gcm_sha256, tls13_aes_256_gcm_sha384, tls13_chacha20_poly1305_sha256,
    CipherSuite, HeaderProtection,
};

fn hex(s: &str) -> Vec<u8> {
    (0..s.len() / 2).map(|i| u8::from_str_radix(&s[2 * i..2 * i + 2], 16).unwrap()).collect()
}

#[test]
fn hkdf_sha256_with_salt() {
    // RFC 5869, test case 1.
    let salt: Vec<u8> = (0x00..=0x0c).collect();
    let info: Vec<u8> = (0xf0..=0xf9).collect();
    let expander =
        AwsLcHkdf(HashAlgorithm::Sha256).extract_from_secret(Some(&salt), &[0x0b; 22]);
    assert_eq!(expander.hash_len(), 32);
    let okm = hex("3cb25f25faacd57a90434f64d0362f2a2d2d0a90cf1a5a4c5db02d56ecc4c5bf34007208d5b887185865");
    let mut output = [0u8; 42];
    expander.expand_slice(&[&info], &mut output).unwrap();
    assert_eq!(&output[..], &okm[..]);
    // The pieces of the info are taken one behind the other.
    let mut output = [0u8; 42];
    expander.expand_slice(&[&info[..3], &[], &info[3..]], &mut output).unwrap();
    assert_eq!(&output[..], &okm[..]);
    assert_eq!(&expander.expand_block(&[&info]).bytes, &okm[..32]);
}

#[test]
fn hkdf_sha256_without_salt() {
    // RFC 5869, test case 3.
    let expander = AwsLcHkdf(HashAlgorithm::Sha256).extract_from_secret(None, &[0x0b; 22]);
    let mut output = [0u8; 42];
    expander.expand_slice(&[], &mut output).unwrap();
    assert_eq!(
        output.to_vec(),
        hex("8da4e775a563c18f715f802a063c5a31b8a11f5c5ee1879ec3454e5f3c738d2d9d201395faa4b61a96c8")
    );
}

#[test]
fn zero_secret() {
    // RFC 8448, section 3: the secret that is derived from the early secret.
    let empty_hash = hex("e3b0c44298fc1c149afbf4c8996fb92427ae41e4649b934ca495991b7852b855");
    let expander = AwsLcHkdf(HashAlgorithm::Sha256).extract_from_zero_ikm(None);
    let derived = expander.expand_block(&[&[0, 32, 13], b"tls13 derived", &[32], &empty_hash]);
    assert_eq!(
        derived.bytes,
        hex("6f2615a108c702c5678f54fc9dbab69716c076189c48250cebeac3576c3611ba")
    );
    // A salt of zero bytes is what stands in for no salt.
    let salted = AwsLcHkdf(HashAlgorithm::Sha256).extract_from_zero_ikm(Some(&[0u8; 32]));
    assert_eq!(
        salted.expand_block(&[b"x"]).bytes,
        expander.expand_block(&[b"x"]).bytes
    );
    let other = AwsLcHkdf(HashAlgorithm::Sha256).extract_from_zero_ikm(Some(&[1u8; 32]));
    assert_ne!(other.expand_block(&[b"x"]).bytes, expander.expand_block(&[b"x"]).bytes);
}

#[test]
fn output_has_a_limit() {
    for (hash, len) in [(HashAlgorithm::Sha256, 32), (HashAlgorithm::Sha384, 48)] {
        let expander = AwsLcHkdf(hash).expander_for_okm(&OkmBlock::new(&[7u8; 32]));
        assert_eq!(expander.hash_len(), len);
        let mut output = vec![0u8; 255 * len];
        assert_eq!(expander.expand_slice(&[b"info"], &mut output), Ok(()));
        assert!(output.iter().any(|b| *b != 0));
        let mut output = vec![9u8; 255 * len + 1];
        assert_eq!(expander.expand_slice(&[b"info"], &mut output), Err(OutputLengthError));
        assert!(output.iter().all(|b| *b == 9));
    }
}

#[test]
fn hmac_known_answers() {
    // RFC 4231, test case 2.
    let key = OkmBlock::new(b"Jefe");
    let message = b"what do ya want for nothing?";
    assert_eq!(
        AwsLcHkdf(HashAlgorithm::Sha256).hmac_sign(&key, message).bytes,
        hex("5bdcc146bf60754e6a042426089575c75a003f089d2739839dec58b964ec3843")
    );
    assert_eq!(
        AwsLcHkdf(HashAlgorithm::Sha384).hmac_sign(&key, message).bytes,
        hex("af45d2e376484031617f78d2b58a6b1b9c7ef464f5a01b47e42ec3736322445e8e2240ca5e69e2c78b3239ecfab21649")
    );
}

#[test]
fn fips_is_one_answer() {
    let answer = AwsLcHkdf(HashAlgorithm::Sha256).fips();
    assert_eq!(AwsLcHkdf(HashAlgorithm::Sha384).fips(), answer);
    assert_eq!(Algorithm::Aes128Gcm.fips(), answer);
    assert_eq!(Algorithm::Aes256Gcm.fips(), answer);
    assert!(!Algorithm::Chacha20Poly1305.fips());
}

#[test]
fn traffic_key_known_answer() {
    // RFC 8448, section 3: the keys of the server's handshake records.
    let secret = OkmBlock::new(&hex(
        "b67b7d690cc16c4e75e54213cb2d37b4e9c912bcded9105d42befd59d391ad38",
    ));
    let (key, iv) = derive_traffic_key(tls13_aes_128_gcm_sha256(), &secret);
    assert_eq!(key.as_slice(), &hex("3fce516009c21727d0f2e4e86ee403bc")[..]);
    assert_eq!(iv.0.to_vec(), hex("5d313eb2671276ee13000b30"));
}

#[test]
fn next_secret_is_the_label_upd() {
    let secret = OkmBlock::new(&[0x33u8; 48]);
    let next = derive_next_secret(tls13_aes_256_gcm_sha384(), &secret);
    let expected = AwsLcHkdf(HashAlgorithm::Sha384)
        .expander_for_okm(&secret)
        .expand_block(&[&[0, 48, 17], b"tls13 traffic upd", &[0]]);
    assert_eq!(next.bytes, expected.bytes);
    assert_ne!(next.bytes, secret.bytes);
}

#[test]
fn suites_have_their_limits() {
    let chacha = tls13_chacha20_poly1305_sha256();
    assert_eq!(chacha.suite, CipherSuite::TLS13_CHACHA20_POLY1305_SHA256);
    assert_eq!((chacha.hash, chacha.aead_alg), (HashAlgorithm::Sha256, Algorithm::Chacha20Poly1305));
    assert_eq!(chacha.confidentiality_limit, u64::MAX);
    assert_eq!(chacha.quic.packet_alg, Algorithm::Chacha20Poly1305);
    assert_eq!(chacha.quic.header_alg, HeaderProtection::Chacha20);
    assert_eq!(chacha.quic.confidentiality_limit, u64::MAX);
    assert_eq!(chacha.quic.integrity_limit, 1 << 36);

    let aes256 = tls13_aes_256_gcm_sha384();
    assert_eq!(aes256.suite, CipherSuite::TLS13_AES_256_GCM_SHA384);
    assert_eq!((aes256.hash, aes256.aead_alg), (HashAlgorithm::Sha384, Algorithm::Aes256Gcm));
    assert_eq!(aes256.confidentiality_limit, 1 << 24);
    assert_eq!(aes256.quic.packet_alg, Algorithm::Aes256Gcm);
    assert_eq!(aes256.quic.header_alg, HeaderProtection::Aes256);
    assert_eq!(aes256.quic.confidentiality_limit, 1 << 23);
    assert_eq!(aes256.quic.integrity_limit, 1 << 52);

    let aes128 = tls13_aes_128_gcm_sha256();
    assert_eq!(aes128.suite, CipherSuite::TLS13_AES_128_GCM_SHA256);
    assert_eq!((aes128.hash, aes128.aead_alg), (HashAlgorithm::Sha256, Algorithm::Aes128Gcm));
    assert_eq!(aes128.confidentiality_limit, 1 << 24);
    assert_eq!(aes128.quic.packet_alg, Algorithm::Aes128Gcm);
    assert_eq!(aes128.quic.header_alg, HeaderProtection::Aes128);
    assert_eq!(aes128.quic.confidentiality_limit, 1 << 23);
    assert_eq!(aes128.quic.integrity_limit, 1 << 52);
}
