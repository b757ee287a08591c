//! Numbers on the wire, and record framing.

use tls_unbuffered::enums::{AlertDescription, AlertLevel, ContentType, ProtocolVersion};
use tls_unbuffered::msgs::buffers::ChunkVecBuffer;
use tls_unbuffered::msgs::deframer::DeframerIterImmut;
use tls_unbuffered::msgs::message::OutboundOpaqueMessage;

#[test]
fn bytes_and_names_are_one_to_one() {
    for byte in 0..=255u8 {
        assert_eq!(ContentType::from(byte).to_byte(), byte);
        assert_eq!(AlertLevel::from_byte(byte).to_byte(), byte);
        assert_eq!(AlertDescription::from_byte(byte).to_byte(), byte);
    }
    for code in [0x0300, 0x0301, 0x0302, 0x0303, 0x0304, 0x1234u16] {
        assert_eq!(ProtocolVersion::from(code).to_code(), code);
    }
    assert_eq!(ContentType::from(0x17), ContentType::ApplicationData);
    assert_eq!(ContentType::from(0x16), ContentType::Handshake);
    assert_eq!(ContentType::from(0x15), ContentType::Alert);
    assert_eq!(ContentType::from(0x14), ContentType::ChangeCipherSpec);
    assert_eq!(ProtocolVersion::from(0x0304), ProtocolVersion::TLSv1_3);
    assert_eq!(AlertDescription::DecodeError.to_byte(), 0x32);
}

#[test]
fn records_are_found_one_behind_the_other() {
    let first = OutboundOpaqueMessage::new(
        ContentType::Handshake,
        ProtocolVersion::TLSv1_2,
        vec![1, 2, 3],
    )
    .encode();
    let second =
        OutboundOpaqueMessage::new(ContentType::ApplicationData, ProtocolVersion::TLSv1_2, vec![])
            .encode();
    assert_eq!(first, [0x16, 3, 3, 0, 3, 1, 2, 3]);
    assert_eq!(second, [0x17, 3, 3, 0, 0]);
    let mut bytes = first.clone();
    bytes.extend_from_slice(&second);
    bytes.push(0x15);
    let mut iter = DeframerIterImmut::new(&bytes);
    let record = iter.next().unwrap().unwrap();
    assert_eq!((record.typ, record.payload), (ContentType::Handshake, &[1u8, 2, 3][..]));
    assert_eq!(iter.bytes_consumed(), first.len());
    let record = iter.next().unwrap().unwrap();
    assert_eq!((record.typ, record.payload), (ContentType::ApplicationData, &[][..]));
    assert_eq!(iter.bytes_consumed(), first.len() + second.len());
    assert!(iter.next().is_none());
    assert_eq!(iter.bytes_consumed(), first.len() + second.len());
    for cut in 0..first.len() {
        assert!(DeframerIterImmut::new(&first[..cut]).next().is_none());
    }
}

#[test]
fn chunks_keep_their_order_and_empty_ones_are_dropped() {
    let mut chunks = ChunkVecBuffer::new();
    assert!(chunks.is_empty());
    assert_eq!(chunks.peek_len(), None);
    chunks.append(vec![1, 2]);
    chunks.append(vec![]);
    chunks.append(vec![3]);
    assert_eq!((chunks.len(), chunks.peek_len()), (3, Some(2)));
    let mut out = [9u8; 5];
    let mut other = ChunkVecBuffer::new();
    other.append(vec![4, 5]);
    other.append(vec![6]);
    assert_eq!(other.drain_to(&mut out), 3);
    assert_eq!(out, [4, 5, 6, 9, 9]);
    assert!(other.is_empty());
    assert_eq!(chunks.pop(), Some(vec![1, 2]));
    assert_eq!(chunks.pop(), Some(vec![3]));
    assert_eq!(chunks.pop(), None);
}
