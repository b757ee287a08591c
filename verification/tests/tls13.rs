//! Record protection.

use tls_unbuffered::crypto::aead::Algorithm;
use tls_unbuffered::crypto::cipher::{make_tls13_aad, AeadKey, Iv, Nonce};
use tls_unbuffered::crypto::tls13::{
    AeadMessageDecrypter, AeadMessageEncrypter, ConnectionTrafficSecrets, GcmMessageDecrypter,
    GcmMessageEncrypter, NonceOrder,
};
use tls_unbuffered::enums::{ContentType, ProtocolVersion};
use tls_unbuffered::error::{Error, PeerMisbehaved};
use tls_unbuffered::msgs::message::{
    InboundOpaqueMessage, InboundOpaqueMessageImmut, OutboundChunks, OutboundPlainMessage,
};

fn chacha_encrypter() -> AeadMessageEncrypter {
    AeadMessageEncrypter {
        alg: Algorithm::Chacha20Poly1305,
        enc_key: AeadKey::new(&[0x42u8; 32]),
        iv: Iv::new([0x01u8; 12]),
    }
}

fn chacha_decrypter() -> AeadMessageDecrypter {
    AeadMessageDecrypter {
        alg: Algorithm::Chacha20Poly1305,
        dec_key: AeadKey::new(&[0x42u8; 32]),
        iv: Iv::new([0x01u8; 12]),
    }
}

fn gcm_encrypter(alg: Algorithm, key: &[u8]) -> GcmMessageEncrypter {
    GcmMessageEncrypter {
        alg,
        enc_key: AeadKey::new(key),
        iv: Iv::new([0x01u8; 12]),
        order: NonceOrder::new(),
    }
}

fn gcm_decrypter(alg: Algorithm, key: &[u8]) -> GcmMessageDecrypter {
    GcmMessageDecrypter { alg, dec_key: AeadKey::new(key), iv: Iv::new([0x01u8; 12]) }
}

fn message(typ: ContentType, payload: &[u8]) -> OutboundPlainMessage<'_> {
    OutboundPlainMessage {
        typ,
        version: ProtocolVersion::TLSv1_3,
        payload: OutboundChunks::Single(payload),
    }
}

#[test]
fn test_aead_chacha20_decrypt_to() {
    let mut encrypter = chacha_encrypter();
    let mut decrypter = chacha_decrypter();

    let plaintext = b"Hello, zero-copy TLS 1.3!";
    let encrypted = encrypter.encrypt(message(ContentType::ApplicationData, plaintext), 0).unwrap();

    let opaque = InboundOpaqueMessageImmut::new(
        encrypted.typ,
        ProtocolVersion::TLSv1_2,
        &encrypted.payload,
    );

    let mut out_buf = [0u8; 16384 + 256];
    let result = decrypter.decrypt_to(&opaque, 0, &mut out_buf).unwrap();

    assert_eq!(result.typ, ContentType::ApplicationData);
    assert_eq!(result.version, ProtocolVersion::TLSv1_3);
    assert_eq!(result.payload, plaintext);
}

#[test]
fn test_gcm_aes128_decrypt_to() {
    let key_bytes = [0x42u8; 16];
    let mut encrypter = gcm_encrypter(Algorithm::Aes128Gcm, &key_bytes);
    let mut decrypter = gcm_decrypter(Algorithm::Aes128Gcm, &key_bytes);

    let plaintext = b"AES-GCM zero-copy test";
    let encrypted = encrypter.encrypt(message(ContentType::ApplicationData, plaintext), 0).unwrap();

    let opaque = InboundOpaqueMessageImmut::new(
        encrypted.typ,
        ProtocolVersion::TLSv1_2,
        &encrypted.payload,
    );

    let mut out_buf = [0u8; 16384 + 256];
    let result = decrypter.decrypt_to(&opaque, 0, &mut out_buf).unwrap();

    assert_eq!(result.typ, ContentType::ApplicationData);
    assert_eq!(result.version, ProtocolVersion::TLSv1_3);
    assert_eq!(result.payload, plaintext);
}

#[test]
fn test_gcm_aes256_decrypt_to() {
    let key_bytes = [0x42u8; 32];
    let mut encrypter = gcm_encrypter(Algorithm::Aes256Gcm, &key_bytes);
    let mut decrypter = gcm_decrypter(Algorithm::Aes256Gcm, &key_bytes);

    let plaintext = b"AES-256-GCM zero-copy test";
    let encrypted = encrypter.encrypt(message(ContentType::ApplicationData, plaintext), 0).unwrap();

    let opaque = InboundOpaqueMessageImmut::new(
        encrypted.typ,
        ProtocolVersion::TLSv1_2,
        &encrypted.payload,
    );

    let mut out_buf = [0u8; 16384 + 256];
    let result = decrypter.decrypt_to(&opaque, 0, &mut out_buf).unwrap();

    assert_eq!(result.typ, ContentType::ApplicationData);
    assert_eq!(result.payload, plaintext);
}

#[test]
fn test_decrypt_to_matches_decrypt() {
    let mut decrypter1 = chacha_decrypter();
    let mut decrypter2 = chacha_decrypter();
    let mut encrypter = chacha_encrypter();

    let plaintext = b"Consistency test between decrypt and decrypt_to";
    let encrypted = encrypter.encrypt(message(ContentType::ApplicationData, plaintext), 0).unwrap();

    let mut payload_vec = encrypted.payload.clone();
    let opaque1 =
        InboundOpaqueMessage::new(encrypted.typ, ProtocolVersion::TLSv1_2, &mut payload_vec);
    let result1 = decrypter1.decrypt(opaque1, 0).unwrap();

    let opaque2 = InboundOpaqueMessageImmut::new(
        encrypted.typ,
        ProtocolVersion::TLSv1_2,
        &encrypted.payload,
    );
    let mut out_buf = [0u8; 16384 + 256];
    let result2 = decrypter2.decrypt_to(&opaque2, 0, &mut out_buf).unwrap();

    assert_eq!(result1.typ, result2.typ, "the content types agree");
    assert_eq!(result1.version, result2.version, "the versions agree");
    assert_eq!(result1.payload, result2.payload, "the payloads agree");
}

#[test]
fn test_decrypt_to_sequence_numbers() {
    let mut encrypter = chacha_encrypter();
    let mut decrypter = chacha_decrypter();

    for seq in 0..5u64 {
        let plaintext = format!("Message with seq {}", seq);
        let encrypted = encrypter
            .encrypt(message(ContentType::ApplicationData, plaintext.as_bytes()), seq)
            .unwrap();

        let opaque = InboundOpaqueMessageImmut::new(
            encrypted.typ,
            ProtocolVersion::TLSv1_2,
            &encrypted.payload,
        );

        let mut out_buf = [0u8; 16384 + 256];
        let result = decrypter.decrypt_to(&opaque, seq, &mut out_buf).unwrap();

        assert_eq!(result.payload, plaintext.as_bytes());
    }
}

#[test]
fn test_decrypt_to_corrupted_ciphertext() {
    let mut encrypter = chacha_encrypter();
    let mut decrypter = chacha_decrypter();

    let plaintext = b"Test message";
    let encrypted = encrypter.encrypt(message(ContentType::ApplicationData, plaintext), 0).unwrap();
    let mut corrupted = encrypted.payload.clone();
    corrupted[0] ^= 0xFF;

    let opaque =
        InboundOpaqueMessageImmut::new(encrypted.typ, ProtocolVersion::TLSv1_2, &corrupted);

    let mut out_buf = [0u8; 16384 + 256];
    let result = decrypter.decrypt_to(&opaque, 0, &mut out_buf);

    assert!(result.is_err(), "a corrupted ciphertext does not open");
    assert!(matches!(result, Err(Error::DecryptError)));
}

#[test]
fn test_decrypt_to_wrong_sequence_number() {
    let mut encrypter = chacha_encrypter();
    let mut decrypter = chacha_decrypter();

    let plaintext = b"Test message";
    let encrypted = encrypter.encrypt(message(ContentType::ApplicationData, plaintext), 0).unwrap();

    let opaque = InboundOpaqueMessageImmut::new(
        encrypted.typ,
        ProtocolVersion::TLSv1_2,
        &encrypted.payload,
    );

    let mut out_buf = [0u8; 16384 + 256];
    let result = decrypter.decrypt_to(&opaque, 1, &mut out_buf);

    assert!(result.is_err(), "a wrong sequence number does not open the record");
}

#[test]
fn test_decrypt_to_handshake_content_type() {
    let mut encrypter = chacha_encrypter();
    let mut decrypter = chacha_decrypter();

    let plaintext = b"Handshake message content";
    let encrypted = encrypter.encrypt(message(ContentType::Handshake, plaintext), 0).unwrap();

    let opaque = InboundOpaqueMessageImmut::new(
        encrypted.typ,
        ProtocolVersion::TLSv1_2,
        &encrypted.payload,
    );

    let mut out_buf = [0u8; 16384 + 256];
    let result = decrypter.decrypt_to(&opaque, 0, &mut out_buf).unwrap();

    assert_eq!(result.typ, ContentType::Handshake);
    assert_eq!(result.payload, plaintext);
}

#[test]
fn encrypted_records_look_like_application_data() {
    let mut encrypter = chacha_encrypter();
    let encrypted = encrypter.encrypt(message(ContentType::Alert, &[1, 0]), 3).unwrap();
    assert_eq!(encrypted.typ, ContentType::ApplicationData);
    assert_eq!(encrypted.version, ProtocolVersion::TLSv1_2);
    assert_eq!(encrypted.payload.len(), 2 + 1 + 16);
    assert_eq!(encrypter.encrypted_payload_len(2), 19);
    let bytes = encrypted.encode();
    assert_eq!(&bytes[..5], &[0x17, 3, 3, 0, 19]);
}

#[test]
fn chunks_are_encrypted_as_one_payload() {
    let pieces: [&[u8]; 3] = [b"one ", b"", b"payload"];
    let chunked = OutboundPlainMessage {
        typ: ContentType::ApplicationData,
        version: ProtocolVersion::TLSv1_3,
        payload: OutboundChunks::Multiple(&pieces),
    };
    let a = chacha_encrypter().encrypt(chunked, 9).unwrap();
    let b = chacha_encrypter()
        .encrypt(message(ContentType::ApplicationData, b"one payload"), 9)
        .unwrap();
    assert_eq!(a.payload, b.payload);
}

#[test]
fn short_records_and_small_buffers_are_refused() {
    let mut chacha = chacha_decrypter();
    let mut gcm = gcm_decrypter(Algorithm::Aes128Gcm, &[0x42u8; 16]);
    let short = InboundOpaqueMessageImmut::new(
        ContentType::ApplicationData,
        ProtocolVersion::TLSv1_2,
        &[0u8; 15],
    );
    let mut out = [7u8; 8];
    assert_eq!(chacha.decrypt_to(&short, 0, &mut out).err(), Some(Error::DecryptError));
    assert_eq!(gcm.decrypt_to(&short, 0, &mut out).err(), Some(Error::DecryptError));
    assert_eq!(out, [7u8; 8]);

    let long = InboundOpaqueMessageImmut::new(
        ContentType::ApplicationData,
        ProtocolVersion::TLSv1_2,
        &[0u8; 25],
    );
    assert_eq!(
        chacha.decrypt_to(&long, 0, &mut out).err(),
        Some(Error::General("output buffer too small"))
    );
    assert_eq!(
        gcm.decrypt_to(&long, 0, &mut out).err(),
        Some(Error::General("output buffer too small"))
    );
    assert_eq!(out, [7u8; 8]);
}

#[test]
fn gcm_leaves_the_buffer_alone_where_it_does_not_open() {
    let mut gcm = gcm_decrypter(Algorithm::Aes256Gcm, &[0x42u8; 32]);
    let junk = InboundOpaqueMessageImmut::new(
        ContentType::ApplicationData,
        ProtocolVersion::TLSv1_2,
        &[3u8; 40],
    );
    let mut out = [7u8; 64];
    assert_eq!(gcm.decrypt_to(&junk, 0, &mut out).err(), Some(Error::DecryptError));
    assert_eq!(out, [7u8; 64]);
}

#[test]
fn opening_leaves_the_bytes_behind_the_plaintext_alone() {
    let encrypted = chacha_encrypter()
        .encrypt(message(ContentType::ApplicationData, b"abc"), 0)
        .unwrap();
    let opaque = InboundOpaqueMessageImmut::new(
        encrypted.typ,
        ProtocolVersion::TLSv1_2,
        &encrypted.payload,
    );
    let mut out = [9u8; 10];
    let len = chacha_decrypter().decrypt_to(&opaque, 0, &mut out).unwrap().payload.len();
    assert_eq!(len, 3);
    assert_eq!(&out, &[b'a', b'b', b'c', 0x17, 9, 9, 9, 9, 9, 9]);
}

/// Encrypts bytes as an inner plaintext: the last of them takes the place of the content type.
fn sealed_inner(inner: &[u8]) -> Vec<u8> {
    let (last, payload) = inner.split_last().unwrap();
    chacha_encrypter().encrypt(message(ContentType::Unknown(*last), payload), 0).unwrap().payload
}

#[test]
fn padding_is_taken_off() {
    let mut record = sealed_inner(&[1, 2, 0, 0x17, 0, 0, 0]);
    let copy = record.clone();
    let opaque = InboundOpaqueMessageImmut::new(
        ContentType::ApplicationData,
        ProtocolVersion::TLSv1_2,
        &copy,
    );
    let mut out = [0u8; 32];
    let m = chacha_decrypter().decrypt_to(&opaque, 0, &mut out).unwrap();
    assert_eq!((m.typ, m.payload), (ContentType::ApplicationData, &[1u8, 2, 0][..]));
    let opaque =
        InboundOpaqueMessage::new(ContentType::ApplicationData, ProtocolVersion::TLSv1_2, &mut record);
    let m = chacha_decrypter().decrypt(opaque, 0).unwrap();
    assert_eq!((m.typ, m.payload), (ContentType::ApplicationData, &[1u8, 2, 0][..]));
}

#[test]
fn nothing_but_padding_is_refused() {
    let mut record = sealed_inner(&[0, 0, 0]);
    let copy = record.clone();
    let opaque = InboundOpaqueMessageImmut::new(
        ContentType::ApplicationData,
        ProtocolVersion::TLSv1_2,
        &copy,
    );
    let mut out = [0u8; 32];
    assert_eq!(
        chacha_decrypter().decrypt_to(&opaque, 0, &mut out).err(),
        Some(Error::DecryptError)
    );
    let opaque =
        InboundOpaqueMessage::new(ContentType::ApplicationData, ProtocolVersion::TLSv1_2, &mut record);
    assert_eq!(
        chacha_decrypter().decrypt(opaque, 0).err(),
        Some(Error::PeerMisbehaved(PeerMisbehaved::IllegalTlsInnerPlaintext))
    );
    // What was opened lies in front of the tag.
    assert_eq!(record, [&[0u8; 3][..], &copy[3..]].concat());
}

#[test]
fn what_does_not_open_in_place_is_cleared() {
    let before = sealed_inner(&[1, 2, 23]);
    let mut record = before.clone();
    let opaque =
        InboundOpaqueMessage::new(ContentType::ApplicationData, ProtocolVersion::TLSv1_2, &mut record);
    assert_eq!(chacha_decrypter().decrypt(opaque, 1).err(), Some(Error::DecryptError));
    assert_eq!(record, [&[0u8; 3][..], &before[3..]].concat());

    // What is shorter than a tag is not tried.
    let mut short = [7u8; 15];
    let opaque =
        InboundOpaqueMessage::new(ContentType::ApplicationData, ProtocolVersion::TLSv1_2, &mut short);
    assert_eq!(chacha_decrypter().decrypt(opaque, 0).err(), Some(Error::DecryptError));
    assert_eq!(short, [7u8; 15]);
}

#[test]
fn oversized_records_are_refused_in_place() {
    let open = |record: &mut Vec<u8>| {
        let opaque = InboundOpaqueMessage::new(
            ContentType::ApplicationData,
            ProtocolVersion::TLSv1_2,
            record,
        );
        chacha_decrypter().decrypt(opaque, 0).map(|m| m.payload.len())
    };
    let encrypt = |len: usize| {
        chacha_encrypter()
            .encrypt(message(ContentType::ApplicationData, &vec![5u8; len]), 0)
            .unwrap()
            .payload
    };
    assert_eq!(open(&mut encrypt(16384)), Ok(16384));
    assert_eq!(open(&mut encrypt(16385)), Err(Error::PeerSentOversizedRecord));
    // The largest inner plaintext, all of it message.
    let mut inner = vec![5u8; 16385];
    inner[16384] = 0;
    assert_eq!(open(&mut sealed_inner(&inner)), Ok(16383));
}

#[test]
fn gcm_opens_in_place_too() {
    for (alg, key) in [(Algorithm::Aes128Gcm, vec![3u8; 16]), (Algorithm::Aes256Gcm, vec![3u8; 32])] {
        let mut encrypter = gcm_encrypter(alg, &key);
        let mut payload =
            encrypter.encrypt(message(ContentType::Handshake, b"in place"), 0).unwrap().payload;
        assert_ne!(&payload[..8], b"in place");
        let opaque = InboundOpaqueMessage::new(
            ContentType::ApplicationData,
            ProtocolVersion::TLSv1_2,
            &mut payload,
        );
        let m = gcm_decrypter(alg, &key).decrypt(opaque, 0).unwrap();
        assert_eq!((m.typ, m.payload), (ContentType::Handshake, &b"in place"[..]));
    }
}

#[test]
fn gcm_sequence_numbers_only_increase() {
    let mut encrypter = gcm_encrypter(Algorithm::Aes128Gcm, &[0x42u8; 16]);
    let msg = message(ContentType::ApplicationData, b"x");
    assert!(encrypter.encrypt(msg, 0).is_ok());
    assert!(encrypter.encrypt(msg, 1).is_ok());
    assert_eq!(encrypter.encrypt(msg, 1).err(), Some(Error::EncryptError));
    assert_eq!(encrypter.encrypt(msg, 0).err(), Some(Error::EncryptError));
    assert!(encrypter.encrypt(msg, 7).is_ok());
    assert_eq!(encrypter.encrypt(msg, 5).err(), Some(Error::EncryptError));
    assert_eq!(encrypter.encrypt(msg, u64::MAX).err(), Some(Error::EncryptError));
    assert!(encrypter.encrypt(msg, u64::MAX - 1).is_ok());
}

#[test]
fn nonces_fold_the_sequence_number_in() {
    let iv = Iv::new([1, 2, 3, 4, 5, 6, 7, 8, 9, 10, 11, 12]);
    assert_eq!(Nonce::new(&iv, 0).0, [1, 2, 3, 4, 5, 6, 7, 8, 9, 10, 11, 12]);
    assert_eq!(
        Nonce::new(&iv, 0x0102_0304_0506_0708).0,
        [1, 2, 3, 4, 4, 4, 4, 12, 12, 12, 12, 4]
    );
    assert_ne!(Nonce::new(&iv, 1).0, Nonce::new(&iv, 2).0);
}

#[test]
fn additional_data_is_the_record_header() {
    assert_eq!(make_tls13_aad(0x1234), [0x17, 3, 3, 0x12, 0x34]);
}

#[test]
fn algorithms_make_matching_pairs() {
    for (alg, len) in [
        (Algorithm::Chacha20Poly1305, 32),
        (Algorithm::Aes128Gcm, 16),
        (Algorithm::Aes256Gcm, 32),
    ] {
        let key = vec![0x17u8; len];
        let iv = Iv::new([0x55; 12]);
        let mut encrypter = alg.encrypter(AeadKey::new(&key), iv);
        let mut decrypter = alg.decrypter(AeadKey::new(&key), iv);
        let m = encrypter.encrypt(message(ContentType::ApplicationData, b"pair"), 0).unwrap();
        assert_eq!(encrypter.encrypted_payload_len(4), m.payload.len());
        let opaque = InboundOpaqueMessageImmut::new(m.typ, m.version, &m.payload);
        let mut out = [0u8; 16];
        assert_eq!(decrypter.decrypt_to(&opaque, 0, &mut out).unwrap().payload, b"pair");
        match (alg, alg.extract_keys(AeadKey::new(&key), iv).unwrap()) {
            (Algorithm::Chacha20Poly1305, ConnectionTrafficSecrets::Chacha20Poly1305 { key: k, iv }) => {
                assert_eq!((k.as_slice(), iv.0), (&key[..], [0x55; 12]));
            }
            (Algorithm::Aes128Gcm, ConnectionTrafficSecrets::Aes128Gcm { key: k, iv }) => {
                assert_eq!((k.as_slice(), iv.0), (&key[..], [0x55; 12]));
            }
            (Algorithm::Aes256Gcm, ConnectionTrafficSecrets::Aes256Gcm { key: k, iv }) => {
                assert_eq!((k.as_slice(), iv.0), (&key[..], [0x55; 12]));
            }
            _ => panic!("the secrets are of another algorithm"),
        }
        assert!(!alg.fips_with(false));
        assert_eq!(alg.fips_with(true), alg != Algorithm::Chacha20Poly1305);
        assert!(alg != Algorithm::Chacha20Poly1305 || !alg.fips());
    }
}

#[test]
fn chacha_known_answer() {
    // The AEAD example of RFC 8439, section 2.8.2, has other additional data; the first block of
    // the key stream does not depend on it.
    let key: Vec<u8> = (0x80u8..=0x9f).collect();
    let mut encrypter = AeadMessageEncrypter {
        alg: Algorithm::Chacha20Poly1305,
        enc_key: AeadKey::new(&key),
        iv: Iv::new([7, 0, 0, 0, 0x40, 0x41, 0x42, 0x43, 0x44, 0x45, 0x46, 0x47]),
    };
    let m = encrypter
        .encrypt(message(ContentType::ApplicationData, b"Ladies and Gentl"), 0)
        .unwrap();
    assert_eq!(
        &m.payload[..16],
        &[
            0xd3, 0x1a, 0x8d, 0x34, 0x64, 0x8e, 0x60, 0xdb, 0x7b, 0x86, 0xaf, 0xbc, 0x53, 0xef,
            0x7e, 0xc2
        ]
    );
}

#[test]
fn chacha_clears_the_room_for_the_plaintext_where_it_does_not_open() {
    let junk = InboundOpaqueMessageImmut::new(
        ContentType::ApplicationData,
        ProtocolVersion::TLSv1_2,
        &[3u8; 20],
    );
    let mut out = [7u8; 6];
    assert_eq!(chacha_decrypter().decrypt_to(&junk, 0, &mut out).err(), Some(Error::DecryptError));
    assert_eq!(out, [0, 0, 0, 0, 7, 7]);
}

#[test]
fn what_was_opened_stays_in_the_buffer() {
    let record = sealed_inner(&[0, 0, 0]);
    let opaque = InboundOpaqueMessageImmut::new(
        ContentType::ApplicationData,
        ProtocolVersion::TLSv1_2,
        &record,
    );
    let mut out = [7u8; 5];
    assert_eq!(chacha_decrypter().decrypt_to(&opaque, 0, &mut out).err(), Some(Error::DecryptError));
    assert_eq!(out, [0, 0, 0, 7, 7]);

    let record = gcm_encrypter(Algorithm::Aes128Gcm, &[0x42u8; 16])
        .encrypt(message(ContentType::Alert, &[1, 90]), 0)
        .unwrap()
        .payload;
    let opaque = InboundOpaqueMessageImmut::new(
        ContentType::ApplicationData,
        ProtocolVersion::TLSv1_2,
        &record,
    );
    let mut out = [7u8; 5];
    gcm_decrypter(Algorithm::Aes128Gcm, &[0x42u8; 16]).decrypt_to(&opaque, 0, &mut out).unwrap();
    assert_eq!(out, [1, 90, 0x15, 7, 7]);
}
