//! The handshake buffer.

use tls_unbuffered::enums::{ContentType, ProtocolVersion};
use tls_unbuffered::error::Error;
use tls_unbuffered::msgs::handshake_buffer::{
    HandshakeBuffer, DEFAULT_HS_BUFFER_SIZE, MAX_HS_BUFFER_SIZE,
};

#[test]
fn test_empty_buffer() {
    let buf = HandshakeBuffer::new();
    assert!(!buf.is_active());
    assert!(buf.is_aligned());
    assert!(!buf.has_message_ready());
}

#[test]
fn test_append_and_read() {
    let mut buf = HandshakeBuffer::new();

    // Handshake message: type=1 (ClientHello), length=5, body=[0,1,2,3,4]
    let msg = [1, 0, 0, 5, 0, 1, 2, 3, 4];
    buf.append(&msg, ProtocolVersion::TLSv1_3).unwrap();

    assert!(buf.is_active());
    assert!(buf.is_aligned());
    assert!(buf.has_message_ready());

    let message = buf.next_message().unwrap();
    assert_eq!(message.typ, ContentType::Handshake);
    assert_eq!(message.version, ProtocolVersion::TLSv1_3);
    assert_eq!(message.payload, &msg);

    assert!(!buf.is_active());
    assert!(!buf.has_message_ready());
}

#[test]
fn test_partial_message() {
    let mut buf = HandshakeBuffer::new();

    // Partial header only
    buf.append(&[1, 0, 0], ProtocolVersion::TLSv1_3).unwrap();
    assert!(buf.is_active());
    assert!(!buf.is_aligned()); // Incomplete header
    assert!(!buf.has_message_ready());

    // Complete header, partial body
    buf.append(&[5, 0, 1], ProtocolVersion::TLSv1_3).unwrap();
    assert!(buf.is_active());
    assert!(!buf.is_aligned()); // Incomplete body
    assert!(!buf.has_message_ready());

    // Complete body
    buf.append(&[2, 3, 4], ProtocolVersion::TLSv1_3).unwrap();
    assert!(buf.is_active());
    assert!(buf.is_aligned());
    assert!(buf.has_message_ready());
}

#[test]
fn test_multiple_messages() {
    let mut buf = HandshakeBuffer::new();

    // Two messages
    let msg1 = [1, 0, 0, 2, 0xAA, 0xBB];
    let msg2 = [2, 0, 0, 3, 0xCC, 0xDD, 0xEE];

    buf.append(&msg1, ProtocolVersion::TLSv1_3).unwrap();
    buf.append(&msg2, ProtocolVersion::TLSv1_3).unwrap();

    assert!(buf.is_aligned());
    assert!(buf.has_message_ready());

    let m1 = buf.next_message().unwrap();
    assert_eq!(m1.payload, &msg1);

    let m2 = buf.next_message().unwrap();
    assert_eq!(m2.payload, &msg2);

    assert!(!buf.has_message_ready());
}

#[test]
fn test_buffer_growth() {
    let mut buf = HandshakeBuffer::with_capacity(16);

    // Fill with data requiring growth
    let header = [1, 0, 0, 20]; // length = 20
    let body = [0u8; 20];

    buf.append(&header, ProtocolVersion::TLSv1_3).unwrap();
    buf.append(&body, ProtocolVersion::TLSv1_3).unwrap();

    assert!(buf.capacity() > 16); // Buffer grew
    assert!(buf.has_message_ready());
}

#[test]
fn growth_goes_to_the_next_power_of_two() {
    let mut buf = HandshakeBuffer::with_capacity(16);
    buf.append(&[0u8; 24], ProtocolVersion::TLSv1_3).unwrap();
    assert_eq!(buf.capacity(), 32);
    buf.append(&[0u8; 8], ProtocolVersion::TLSv1_3).unwrap();
    assert_eq!(buf.capacity(), 32);
    buf.append(&[0u8; 1], ProtocolVersion::TLSv1_3).unwrap();
    assert_eq!(buf.capacity(), 64);
}

#[test]
fn default_is_the_initial_size() {
    let buf = HandshakeBuffer::default();
    assert_eq!(buf.capacity(), DEFAULT_HS_BUFFER_SIZE);
    assert_eq!(buf.available_space(), 65536);
    assert_eq!(buf.pending_len(), 0);
    assert_eq!(buf.peek_message_len(), None);
}

#[test]
fn overflow_is_refused_and_keeps_the_bytes() {
    let mut buf = HandshakeBuffer::new();
    let big = vec![7u8; MAX_HS_BUFFER_SIZE - 4];
    buf.append(&big, ProtocolVersion::TLSv1_2).unwrap();
    assert_eq!(buf.capacity(), MAX_HS_BUFFER_SIZE);
    let err = buf.append(&[1, 2, 3, 4, 5], ProtocolVersion::TLSv1_3).unwrap_err();
    assert_eq!(err, Error::General("handshake buffer overflow (exceeds 256KB)"));
    assert_eq!(buf.pending(), &big[..]);
    assert_eq!(buf.version, Some(ProtocolVersion::TLSv1_3));
    buf.append(&[1, 2, 3, 4], ProtocolVersion::TLSv1_3).unwrap();
    assert_eq!(buf.pending_len(), MAX_HS_BUFFER_SIZE);
}

#[test]
fn reading_makes_room_by_compacting() {
    let mut buf = HandshakeBuffer::with_capacity(16);
    buf.append(&[1, 0, 0, 6, 1, 2, 3, 4, 5, 6], ProtocolVersion::TLSv1_3).unwrap();
    assert_eq!(buf.next_message().unwrap().payload, &[1, 0, 0, 6, 1, 2, 3, 4, 5, 6]);
    buf.append(&[2, 0, 0, 8, 1, 2, 3, 4, 5, 6, 7, 8], ProtocolVersion::TLSv1_3).unwrap();
    assert_eq!(buf.capacity(), 16);
    assert_eq!(buf.next_message().unwrap().payload, &[2, 0, 0, 8, 1, 2, 3, 4, 5, 6, 7, 8]);
    assert!(buf.next_message().is_none());
}

#[test]
fn a_message_behind_a_partial_one_is_not_aligned() {
    let mut buf = HandshakeBuffer::new();
    buf.append(&[1, 0, 0, 1, 9, 2, 0, 0], ProtocolVersion::TLSv1_3).unwrap();
    assert!(buf.has_message_ready());
    assert!(!buf.is_aligned());
    assert_eq!(buf.next_message().unwrap().payload, &[1, 0, 0, 1, 9]);
    assert!(!buf.is_aligned());
    buf.append(&[0], ProtocolVersion::TLSv1_3).unwrap();
    assert!(buf.is_aligned());
    assert_eq!(buf.peek_message_len(), Some(4));
}

#[test]
fn lengths_have_three_bytes() {
    let mut buf = HandshakeBuffer::new();
    buf.append(&[1, 1, 2, 3], ProtocolVersion::TLSv1_3).unwrap();
    assert_eq!(buf.peek_message_len(), Some(4 + 65536 + 512 + 3));
}

#[test]
fn clearing_forgets_everything_but_the_size() {
    let mut buf = HandshakeBuffer::with_capacity(32);
    buf.append(&[1, 2, 3], ProtocolVersion::TLSv1_3).unwrap();
    buf.clear();
    assert!(!buf.is_active());
    assert!(buf.is_aligned());
    assert_eq!(buf.version, None);
    assert_eq!(buf.capacity(), 32);
    assert_eq!(buf.available_space(), 32);
}

#[test]
fn a_message_without_version_counts_as_tls12() {
    let mut buf = HandshakeBuffer::new();
    buf.append(&[20, 0, 0, 0], ProtocolVersion::TLSv1_3).unwrap();
    buf.version = None;
    assert_eq!(buf.next_message().unwrap().version, ProtocolVersion::TLSv1_2);
}

#[test]
fn it_does_not_matter_how_bytes_are_split() {
    let bytes = [1, 0, 0, 2, 0xAA, 0xBB, 2, 0, 0, 0, 3, 0];
    for split in 0..=bytes.len() {
        let mut whole = HandshakeBuffer::with_capacity(4);
        whole.append(&bytes, ProtocolVersion::TLSv1_3).unwrap();
        let mut pieces = HandshakeBuffer::with_capacity(4);
        pieces.append(&bytes[..split], ProtocolVersion::TLSv1_3).unwrap();
        pieces.append(&bytes[split..], ProtocolVersion::TLSv1_3).unwrap();
        assert_eq!(pieces.pending(), whole.pending());
        assert_eq!(pieces.capacity(), 16);
        assert_eq!(pieces.next_message().unwrap().payload, &bytes[..6]);
        assert_eq!(pieces.next_message().unwrap().payload, &bytes[6..10]);
        assert!(pieces.next_message().is_none());
        assert_eq!(pieces.pending(), &bytes[10..]);
    }
}
