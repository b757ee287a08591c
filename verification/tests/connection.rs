//! What a connection does at its edges, and over several calls.

use tls_unbuffered::conn::common_state::{CommonState, EncryptError, InsufficientSizeError};
use tls_unbuffered::conn::handles::EncodeError;
use tls_unbuffered::conn::state::{ClientConnectionData, EarlyDataState, ServerConnectionData};
use tls_unbuffered::conn::traffic::{establish, TrafficState};
use tls_unbuffered::conn::trial::{DangerousBatchDecryptOutcome, DangerousDecryptOutcome};
use tls_unbuffered::conn::unbuffered::{
    ConnectionState, FastReadLen, ReadEarlyData, ReadTraffic, UnbufferedConnectionCommon,
    UnbufferedStatus,
};
use tls_unbuffered::crypto::hkdf::OkmBlock;
use tls_unbuffered::crypto::suites::{tls13_aes_128_gcm_sha256, tls13_chacha20_poly1305_sha256};
use tls_unbuffered::enums::{AlertDescription, ContentType, ProtocolVersion, Side};
use tls_unbuffered::error::{Error, InvalidMessage, PeerMisbehaved};
use tls_unbuffered::msgs::buffers::ChunkVecBuffer;
use tls_unbuffered::msgs::message::{
    OutboundChunks, OutboundOpaqueMessage, OutboundPlainMessage,
};

type Client = UnbufferedConnectionCommon<ClientConnectionData>;
type Server = UnbufferedConnectionCommon<ServerConnectionData>;

fn secret(byte: u8) -> OkmBlock {
    OkmBlock::new(&[byte; 32])
}

fn connected_pair() -> (Client, Server) {
    let suite = tls13_aes_128_gcm_sha256();
    (
        UnbufferedConnectionCommon::new(
            TrafficState::new(suite, secret(1), &secret(2)),
            ClientConnectionData,
            establish(Side::Client, suite, &secret(1), &secret(2)),
        ),
        UnbufferedConnectionCommon::new(
            TrafficState::new(suite, secret(2), &secret(1)),
            ServerConnectionData { early_data: EarlyDataState::New },
            establish(Side::Server, suite, &secret(2), &secret(1)),
        ),
    )
}

fn new_server() -> Server {
    let suite = tls13_aes_128_gcm_sha256();
    UnbufferedConnectionCommon::new(
        TrafficState::new(suite, secret(2), &secret(1)),
        ServerConnectionData { early_data: EarlyDataState::New },
        CommonState::new(Side::Server),
    )
}

/// A record in the clear.
fn plain_record(typ: ContentType, payload: &[u8]) -> Vec<u8> {
    OutboundOpaqueMessage::new(typ, ProtocolVersion::TLSv1_2, payload.to_vec()).encode()
}

/// A record of the server, whatever it holds.
fn server_record(server: &mut Server, typ: ContentType, payload: &[u8]) -> Vec<u8> {
    let message = OutboundPlainMessage {
        typ,
        version: ProtocolVersion::TLSv1_3,
        payload: OutboundChunks::Single(payload),
    };
    server.core.common_state.record_layer.encrypt_outgoing(message)
}

fn server_data(server: &mut Server, payload: &[u8]) -> Vec<u8> {
    let mut out = vec![0u8; payload.len() + 1024];
    let n = match server.process_tls_records_fast(&[], &mut []).state.unwrap() {
        ConnectionState::WriteTraffic(mut write) => write.encrypt(payload, &mut out).unwrap(),
        other => panic!("expected WriteTraffic, got {}", other.name()),
    };
    out.truncate(n);
    out
}

fn fails_fast(client: &mut Client, input: &[u8]) -> (usize, Error) {
    let mut out = vec![0u8; 20000];
    let UnbufferedStatus { discard, state } = client.process_tls_records_fast(input, &mut out);
    (discard, state.err().unwrap())
}

/// The next record that the client has to send.
fn alert_of(client: &mut Client) -> Vec<u8> {
    match client.process_tls_records_fast(&[], &mut []).state.unwrap() {
        ConnectionState::EncodeTlsData(mut encode) => {
            let mut out = vec![0u8; 64];
            let n = encode.encode(&mut out).unwrap();
            out.truncate(n);
            out
        }
        other => panic!("expected EncodeTlsData, got {}", other.name()),
    }
}

/// What the server makes of the next record.
fn server_fails(server: &mut Server, record: &[u8]) -> Error {
    server.process_tls_records(&mut record.to_vec()).state.err().unwrap()
}

#[test]
fn a_long_payload_comes_in_fragments() {
    let (mut client, mut server) = connected_pair();
    let payload: Vec<u8> = (0..40_000u32).map(|i| (i % 251) as u8).collect();
    let mut records = vec![0u8; 50_000];
    let n = match server.process_tls_records_fast(&[], &mut []).state.unwrap() {
        ConnectionState::WriteTraffic(mut write) => {
            assert_eq!(
                write.encrypt(&payload, &mut []),
                Err(EncryptError::InsufficientSize(InsufficientSizeError {
                    required_size: 40_000 + 3 * 22,
                }))
            );
            write.encrypt(&payload, &mut records).unwrap()
        }
        other => panic!("expected WriteTraffic, got {}", other.name()),
    };
    assert_eq!(n, 40_000 + 3 * 22);

    let mut input = &records[..n];
    let mut received = Vec::new();
    for len in [16384, 16384, 40_000 - 2 * 16384] {
        let mut out = vec![0u8; 16385];
        let UnbufferedStatus { discard, state } = client.process_tls_records_fast(input, &mut out);
        match state.unwrap() {
            ConnectionState::FastReadLen(FastReadLen(n)) => {
                assert_eq!(n, len);
                received.extend_from_slice(&out[..n]);
            }
            other => panic!("expected FastReadLen, got {}", other.name()),
        }
        assert_eq!(discard, len + 22);
        input = &input[discard..];
    }
    assert_eq!(received, payload);
    assert!(input.is_empty());
    assert_eq!(client.dangerous_read_seq(), 3);
}

#[test]
fn in_place_reading_gathers_records() {
    let (mut client, mut server) = connected_pair();
    let mut input = server_data(&mut server, b"first");
    input.extend(server_data(&mut server, b"second"));
    let len = input.len();

    let UnbufferedStatus { discard, state } = client.process_tls_records(&mut input);
    assert_eq!(discard, 5 + 22);
    match state.unwrap() {
        ConnectionState::ReadTraffic(mut read) => {
            assert_eq!(read.peek_len(), Some(5));
            let record = read.next_record().unwrap().unwrap();
            assert_eq!((record.discard, record.payload), (0, &b"first"[..]));
            assert_eq!(read.peek_len(), None);
            assert!(read.next_record().is_none());
        }
        other => panic!("expected ReadTraffic, got {}", other.name()),
    }

    let UnbufferedStatus { discard, state } = client.process_tls_records(&mut input[27..]);
    assert_eq!(discard, len - 27);
    assert!(matches!(state.unwrap(), ConnectionState::ReadTraffic(_)));
}

#[test]
fn both_paths_give_the_same_data() {
    let (mut client, mut server) = connected_pair();
    let (mut other, _) = connected_pair();
    let mut record = server_data(&mut server, b"same");
    let mut out = [0u8; 64];
    let n = match client.decrypt_to(&record, &mut out).state.unwrap() {
        ConnectionState::FastReadLen(FastReadLen(n)) => n,
        state => panic!("expected FastReadLen, got {}", state.name()),
    };
    match other.process_tls_records(&mut record).state.unwrap() {
        ConnectionState::ReadTraffic(mut read) => {
            assert_eq!(read.next_record().unwrap().unwrap().payload, &out[..n]);
        }
        state => panic!("expected ReadTraffic, got {}", state.name()),
    };
}

#[test]
fn early_data_comes_first() {
    let (mut client, _) = connected_pair();
    let suite = tls13_aes_128_gcm_sha256();
    let mut received = ChunkVecBuffer::new();
    received.append(b"early".to_vec());
    received.append(b"data".to_vec());
    let mut server: Server = UnbufferedConnectionCommon::new(
        TrafficState::new(suite, secret(2), &secret(1)),
        ServerConnectionData { early_data: EarlyDataState::Accepted { received } },
        establish(Side::Server, suite, &secret(2), &secret(1)),
    );
    let mut out = [0u8; 64];
    let n = match client.process_tls_records_fast(&[], &mut []).state.unwrap() {
        ConnectionState::WriteTraffic(mut write) => write.encrypt(b"late", &mut out).unwrap(),
        other => panic!("expected WriteTraffic, got {}", other.name()),
    };

    let UnbufferedStatus { discard, state } = server.process_tls_records(&mut out[..n]);
    assert_eq!(discard, 0);
    match state.unwrap() {
        ConnectionState::ReadEarlyData(mut read) => {
            assert_eq!(read.peek_len(), Some(5));
            let record = read.next_record().unwrap().unwrap();
            assert_eq!((record.discard, record.payload), (0, &b"early"[..]));
            assert_eq!(read.peek_len(), Some(4));
            assert_eq!(read.next_record().unwrap().unwrap().payload, b"data");
            assert_eq!(read.peek_len(), None);
            assert!(read.next_record().is_none());
        }
        other => panic!("expected ReadEarlyData, got {}", other.name()),
    }

    match server.process_tls_records(&mut out[..n]).state.unwrap() {
        ConnectionState::ReadTraffic(mut read) => {
            assert_eq!(read.next_record().unwrap().unwrap().payload, b"late");
        }
        other => panic!("expected ReadTraffic, got {}", other.name()),
    };
}

#[test]
fn states_are_made_of_their_handles() {
    let (_, mut server) = connected_pair();
    let mut buffer = [0u8; 4];
    let state: ConnectionState<'_, '_, _> =
        ReadTraffic { conn: &mut server, incoming_tls: &mut buffer, chunk: None }.into();
    assert_eq!(state.name(), "ReadTraffic");
    let (_, mut server) = connected_pair();
    let state: ConnectionState<'_, '_, _> =
        ReadEarlyData { conn: &mut server, incoming_tls: &mut buffer, chunk: None }.into();
    assert_eq!(state.name(), "ReadEarlyData");
}

#[test]
fn encoding_happens_once_and_then_is_transmitted() {
    let (mut client, _) = connected_pair();
    match client.process_tls_records_fast(&[], &mut []).state.unwrap() {
        ConnectionState::WriteTraffic(write) => write.refresh_traffic_keys().unwrap(),
        other => panic!("expected WriteTraffic, got {}", other.name()),
    }
    match client.process_tls_records_fast(&[], &mut []).state.unwrap() {
        ConnectionState::EncodeTlsData(mut encode) => {
            let mut out = [7u8; 64];
            assert_eq!(
                encode.encode(&mut out[..26]),
                Err(EncodeError::InsufficientSize(InsufficientSizeError { required_size: 27 }))
            );
            assert_eq!(out, [7u8; 64]);
            assert_eq!(encode.encode(&mut out), Ok(27));
            assert_eq!(&out[..5], &[0x17, 3, 3, 0, 22]);
            assert_eq!(&out[27..], &[7u8; 64 - 27]);
            assert_eq!(encode.encode(&mut out), Err(EncodeError::AlreadyEncoded));
        }
        other => panic!("expected EncodeTlsData, got {}", other.name()),
    }
    for _ in 0..2 {
        let state = client.process_tls_records_fast(&[], &mut []).state.unwrap();
        assert_eq!(state.name(), "TransmitTlsData");
    }
    match client.process_tls_records_fast(&[], &mut []).state.unwrap() {
        ConnectionState::TransmitTlsData(mut transmit) => {
            let mut out = [0u8; 64];
            let mut write = transmit.may_encrypt_app_data().expect("the handshake is done");
            assert_eq!(write.encrypt(b"data", &mut out), Ok(26));
            transmit.done();
        }
        other => panic!("expected TransmitTlsData, got {}", other.name()),
    }
    assert_eq!(client.process_tls_records_fast(&[], &mut []).state.unwrap().name(), "WriteTraffic");
}

#[test]
fn no_app_data_before_the_handshake() {
    let mut server = new_server();
    server.wants_write = true;
    match server.process_tls_records_fast(&[], &mut []).state.unwrap() {
        ConnectionState::TransmitTlsData(mut transmit) => {
            assert!(transmit.may_encrypt_app_data().is_none());
            transmit.done();
        }
        other => panic!("expected TransmitTlsData, got {}", other.name()),
    }
    let state = server.process_tls_records_fast(&[], &mut []).state.unwrap();
    assert_eq!(state.name(), "BlockedHandshake");
}

#[test]
fn closing_asks_for_its_size() {
    let (mut client, _) = connected_pair();
    match client.process_tls_records_fast(&[], &mut []).state.unwrap() {
        ConnectionState::WriteTraffic(mut write) => {
            let mut out = [7u8; 64];
            assert_eq!(
                write.queue_close_notify(&mut out[..23]),
                Err(EncryptError::InsufficientSize(InsufficientSizeError { required_size: 24 }))
            );
            assert_eq!(out, [7u8; 64]);
            assert_eq!(write.queue_close_notify(&mut out[..24]), Ok(24));
            assert_eq!(write.queue_close_notify(&mut out[24..]), Ok(0));
            assert_eq!(write.encrypt(b"", &mut []), Ok(0));
        }
        other => panic!("expected WriteTraffic, got {}", other.name()),
    }
}

#[test]
fn sequence_numbers_run_out() {
    let (mut client, _) = connected_pair();
    client.core.common_state.record_layer.write_seq = 0xffff_ffff_ffff_fffe;
    let mut out = [7u8; 64];
    match client.process_tls_records_fast(&[], &mut []).state.unwrap() {
        ConnectionState::WriteTraffic(mut write) => {
            assert_eq!(write.encrypt(b"x", &mut out), Err(EncryptError::EncryptExhausted));
            assert_eq!(write.queue_close_notify(&mut out), Err(EncryptError::EncryptExhausted));
            assert_eq!(write.refresh_traffic_keys(), Err(Error::EncryptError));
        }
        other => panic!("expected WriteTraffic, got {}", other.name()),
    }
    assert_eq!(out, [7u8; 64]);
}

#[test]
fn a_worn_out_key_is_replaced() {
    let (mut client, mut server) = connected_pair();
    server.core.common_state.record_layer.write_seq_max = 1;
    let mut input = server_data(&mut server, b"one");
    input.extend(server_data(&mut server, b"two"));
    assert!(server.core.common_state.refresh_traffic_keys_pending);
    input.extend(server_data(&mut server, b"three"));
    let mut rest = &input[..];
    let mut received: Vec<Vec<u8>> = Vec::new();
    let mut out = [0u8; 64];
    while !rest.is_empty() {
        let UnbufferedStatus { discard, state } = client.process_tls_records_fast(rest, &mut out);
        match state.unwrap() {
            ConnectionState::FastReadLen(FastReadLen(n)) => received.push(out[..n].to_vec()),
            other => panic!("expected FastReadLen, got {}", other.name()),
        }
        rest = &rest[discard..];
    }
    assert_eq!(received, [&b"one"[..], b"two", b"three"]);
    assert_eq!(client.dangerous_read_seq(), 1);
}

#[test]
fn peer_closed_is_told_once_and_closed_is_the_end() {
    let (mut client, mut server) = connected_pair();
    let mut out = [0u8; 64];
    let n = match server.process_tls_records_fast(&[], &mut []).state.unwrap() {
        ConnectionState::WriteTraffic(mut write) => write.queue_close_notify(&mut out).unwrap(),
        other => panic!("expected WriteTraffic, got {}", other.name()),
    };
    let UnbufferedStatus { discard, state } = client.process_tls_records_fast(&out[..n], &mut []);
    // A buffer without room for the alert is refused.
    assert_eq!(state.err(), Some(Error::General("output buffer too small")));
    assert_eq!(discard, 0);
    let mut room = [0u8; 3];
    let UnbufferedStatus { discard, state } = client.process_tls_records_fast(&out[..n], &mut room);
    assert_eq!(discard, n);
    assert_eq!(state.unwrap().name(), "PeerClosed");
    for _ in 0..2 {
        // Whatever follows is left where it is.
        let UnbufferedStatus { discard, state } =
            client.process_tls_records_fast(&[0xff; 9], &mut room);
        assert_eq!(discard, 0);
        assert_eq!(state.unwrap().name(), "WriteTraffic");
    }
    match client.process_tls_records_fast(&[], &mut []).state.unwrap() {
        ConnectionState::WriteTraffic(mut write) => {
            write.queue_close_notify(&mut [0u8; 64]).unwrap();
        }
        other => panic!("expected WriteTraffic, got {}", other.name()),
    }
    for _ in 0..2 {
        let state = client.process_tls_records_fast(&[0xff; 9], &mut room).state.unwrap();
        assert_eq!(state.name(), "Closed");
        let mut junk = [0xff; 9];
        let state = client.process_tls_records(&mut junk).state.unwrap();
        assert_eq!(state.name(), "Closed");
    }
}

#[test]
fn framing_errors() {
    for (input, error) in [
        (vec![0x17, 4, 3, 0, 1], InvalidMessage::UnknownProtocolVersion),
        (vec![0x16, 3, 3, 0, 0], InvalidMessage::InvalidEmptyPayload),
        (vec![0x17, 3, 3, 0x48, 0], InvalidMessage::MessageTooLarge),
        (vec![0x63], InvalidMessage::InvalidContentType),
    ] {
        let (mut client, _) = connected_pair();
        assert_eq!(fails_fast(&mut client, &input), (0, Error::InvalidMessage(error)));
        assert_eq!(alert_of(&mut client).len(), 24);
        let (_, mut server) = connected_pair();
        assert_eq!(server_fails(&mut server, &input), Error::InvalidMessage(error));
    }
    // One byte less than too large is only incomplete.
    let (mut client, _) = connected_pair();
    let state = client.process_tls_records_fast(&[0x17, 3, 3, 0x47, 0xff], &mut []).state;
    assert_eq!(state.unwrap().name(), "WriteTraffic");
}

#[test]
fn message_errors() {
    for (typ, payload, error) in [
        (ContentType::Alert, vec![1], Error::InvalidMessage(InvalidMessage::MissingData)),
        (ContentType::Alert, vec![1, 0, 0], Error::InvalidMessage(InvalidMessage::TrailingData)),
        (ContentType::Alert, vec![9, 0], Error::AlertReceived(AlertDescription::CloseNotify)),
        (ContentType::Alert, vec![2, 20], Error::AlertReceived(AlertDescription::BadRecordMac)),
        (ContentType::Alert, vec![1, 20], Error::AlertReceived(AlertDescription::BadRecordMac)),
        (ContentType::ChangeCipherSpec, vec![2], Error::InvalidMessage(InvalidMessage::InvalidCcs)),
        (
            ContentType::ChangeCipherSpec,
            vec![1],
            Error::InappropriateMessage { got_type: ContentType::ChangeCipherSpec },
        ),
        (
            ContentType::Unknown(99),
            vec![1],
            Error::InvalidMessage(InvalidMessage::InvalidContentType),
        ),
        (
            ContentType::Handshake,
            vec![1, 0, 0, 0],
            Error::InappropriateHandshakeMessage { got_type: 1 },
        ),
        (
            ContentType::Handshake,
            vec![24, 0, 0, 0],
            Error::InvalidMessage(InvalidMessage::MissingData),
        ),
        (
            ContentType::Handshake,
            vec![24, 0, 0, 2, 0, 0],
            Error::InvalidMessage(InvalidMessage::TrailingData),
        ),
        (
            ContentType::Handshake,
            vec![24, 0, 0, 1, 2],
            Error::InvalidMessage(InvalidMessage::InvalidKeyUpdate),
        ),
        (
            ContentType::Handshake,
            vec![24, 0, 0, 1, 0, 24],
            Error::PeerMisbehaved(PeerMisbehaved::KeyEpochWithPendingFragment),
        ),
    ] {
        let (mut client, mut server) = connected_pair();
        let record = server_record(&mut server, typ, &payload);
        assert_eq!(fails_fast(&mut client, &record), (record.len(), error), "{payload:?}");
        // The connection has ended with that error.
        let more = server_record(&mut server, ContentType::Alert, &[1, 90]);
        while let Ok(ConnectionState::EncodeTlsData(mut encode)) =
            client.process_tls_records_fast(&[], &mut []).state
        {
            encode.encode(&mut [0u8; 64]).unwrap();
        }
        client.wants_write = false;
        if typ != ContentType::Handshake || payload.len() != 6 {
            assert_eq!(fails_fast(&mut client, &more).1, error);
        }
    }
}

#[test]
fn harmless_messages_are_taken() {
    let (mut client, mut server) = connected_pair();
    let mut input = server_record(&mut server, ContentType::Handshake, &[4, 0, 0, 2, 1, 2]);
    input.extend(server_record(&mut server, ContentType::Alert, &[1, 90]));
    let mut out = [0u8; 64];
    let UnbufferedStatus { discard, state } = client.process_tls_records_fast(&input, &mut out);
    assert_eq!(state.unwrap().name(), "WriteTraffic");
    assert_eq!(discard, input.len());
    assert_eq!(client.dangerous_read_seq(), 2);
}

#[test]
fn a_record_that_does_not_open_ends_the_connection() {
    let (mut client, mut server) = connected_pair();
    let mut record = server_data(&mut server, b"data");
    record[10] ^= 1;
    assert_eq!(fails_fast(&mut client, &record), (0, Error::DecryptError));
    // The alert is encrypted: two bytes, their type and a tag.
    assert_eq!(alert_of(&mut client).len(), 5 + 2 + 1 + 16);
    let (_, mut server) = connected_pair();
    assert_eq!(server_fails(&mut server, &record), Error::DecryptError);
}

#[test]
fn oversized_records_are_refused() {
    let (mut client, mut server) = connected_pair();
    let mut record =
        server_record(&mut server, ContentType::ApplicationData, &vec![0u8; 16385]);
    assert_eq!(
        client.process_tls_records(&mut record).state.err(),
        Some(Error::PeerSentOversizedRecord)
    );
}

#[test]
fn handshake_messages_are_not_interleaved() {
    let (mut client, mut server) = connected_pair();
    let mut input = server_record(&mut server, ContentType::Handshake, &[4, 0, 0, 9]);
    let first = input.len();
    input.extend(server_record(&mut server, ContentType::ApplicationData, b"data"));
    assert_eq!(
        fails_fast(&mut client, &input),
        (
            first,
            Error::PeerMisbehaved(PeerMisbehaved::MessageInterleavedWithHandshakeMessage)
        )
    );

    let (mut client, mut server) = connected_pair();
    let mut input = server_record(&mut server, ContentType::Handshake, &[4, 0, 0, 9]);
    input.extend(server_record(&mut server, ContentType::ApplicationData, b"data"));
    assert_eq!(
        client.process_tls_records(&mut input).state.err(),
        Some(Error::PeerMisbehaved(PeerMisbehaved::MessageInterleavedWithHandshakeMessage))
    );
}

#[test]
fn a_handshake_message_may_be_split() {
    for split in 1..8 {
        let message = [4u8, 0, 0, 4, 1, 2, 3, 4];
        let (mut client, mut server) = connected_pair();
        let first = server_record(&mut server, ContentType::Handshake, &message[..split]);
        let second = server_record(&mut server, ContentType::Handshake, &message[split..]);
        let mut out = [0u8; 64];
        let UnbufferedStatus { discard, state } =
            client.process_tls_records_fast(&first, &mut out);
        assert_eq!((discard, state.unwrap().name()), (first.len(), "WriteTraffic"));
        let UnbufferedStatus { discard, state } =
            client.process_tls_records_fast(&second, &mut out);
        assert_eq!((discard, state.unwrap().name()), (second.len(), "WriteTraffic"));
        assert_eq!(client.hs_buffer_fast.pending_len(), 0);

        // In place, nothing is to be removed before the message is complete.
        let (mut client, _) = connected_pair();
        let mut input = first.clone();
        let UnbufferedStatus { discard, state } = client.process_tls_records(&mut input);
        assert_eq!((discard, state.unwrap().name()), (0, "WriteTraffic"));
        input.extend_from_slice(&second);
        let UnbufferedStatus { discard, state } = client.process_tls_records(&mut input);
        assert_eq!((discard, state.unwrap().name()), (first.len() + second.len(), "WriteTraffic"));
    }
}

#[test]
fn handshake_bytes_have_a_limit() {
    let (mut client, mut server) = connected_pair();
    let mut header = vec![4u8, 0xff, 0xff, 0xff];
    header.resize(16384, 0);
    let mut out = vec![0u8; 20_000];
    for i in 0..16 {
        let payload = if i == 0 { header.clone() } else { vec![0u8; 16384] };
        let record = server_record(&mut server, ContentType::Handshake, &payload);
        let UnbufferedStatus { discard, state } =
            client.process_tls_records_fast(&record, &mut out);
        assert_eq!((discard, state.unwrap().name()), (record.len(), "WriteTraffic"));
    }
    let record = server_record(&mut server, ContentType::Handshake, &[0]);
    assert_eq!(
        fails_fast(&mut client, &record),
        (record.len(), Error::General("handshake buffer overflow (exceeds 256KB)"))
    );
}

#[test]
fn plaintext_in_an_encrypted_stream() {
    // A change cipher spec record in the clear is let through to the state.
    let (mut client, _) = connected_pair();
    let record = plain_record(ContentType::ChangeCipherSpec, &[1]);
    assert_eq!(
        fails_fast(&mut client, &record).1,
        Error::InappropriateMessage { got_type: ContentType::ChangeCipherSpec }
    );
    // So is an alert, as long as nothing was decrypted.
    let (mut client, mut server) = connected_pair();
    let alert = plain_record(ContentType::Alert, &[2, 40]);
    assert_eq!(
        fails_fast(&mut client, &alert).1,
        Error::AlertReceived(AlertDescription::HandshakeFailure)
    );
    let (mut client, _) = connected_pair();
    let record = server_data(&mut server, b"data");
    let mut out = [0u8; 64];
    let state = client.process_tls_records_fast(&record, &mut out).state.unwrap();
    assert_eq!(state.name(), "FastReadLen");
    assert_eq!(fails_fast(&mut client, &alert).1, Error::DecryptError);
}

#[test]
fn a_middlebox_may_send_change_cipher_spec_during_the_handshake() {
    let mut server = new_server();
    server.core.common_state.negotiated_version = Some(ProtocolVersion::TLSv1_3);
    let good = plain_record(ContentType::ChangeCipherSpec, &[1]);
    let mut out = [0u8; 64];
    let UnbufferedStatus { discard, state } = server.process_tls_records_fast(&good, &mut out);
    assert_eq!((discard, state.unwrap().name()), (good.len(), "BlockedHandshake"));
    let bad = plain_record(ContentType::ChangeCipherSpec, &[2]);
    let state = server.process_tls_records_fast(&bad, &mut out).state;
    assert_eq!(
        state.err(),
        Some(Error::PeerMisbehaved(PeerMisbehaved::IllegalMiddleboxChangeCipherSpec))
    );
}

#[test]
fn trials_need_exactly_one_record() {
    let (mut client, mut server) = connected_pair();
    let record = server_data(&mut server, b"data");
    let none = DangerousDecryptOutcome::NoCompleteSingleRecord;
    let mut out = [0u8; 64];
    let cut = &record[..record.len() - 1];
    assert_eq!(client.dangerous_try_decrypt_record_to_at(cut, 0, &mut out), Ok(none));
    assert_eq!(client.dangerous_try_decrypt_record_to_at_with_next_key(cut, 0, &mut out), Ok(none));
    assert_eq!(client.dangerous_try_decrypt_record_to_at(&[], 0, &mut out), Ok(none));
    let two = [&record[..], &record[..]].concat();
    assert_eq!(client.dangerous_try_decrypt_record_to_at(&two, 0, &mut out), Ok(none));
    let junk = Err(Error::InvalidMessage(InvalidMessage::InvalidContentType));
    assert_eq!(client.dangerous_try_decrypt_record_to_at(&[0xff; 5], 0, &mut out), junk);
    assert_eq!(
        client.dangerous_try_decrypt_record_to_at_with_next_key(&[0xff; 5], 0, &mut out),
        junk
    );
    assert_eq!(
        client.dangerous_try_decrypt_record_to_sequence_range(cut, 0, 4, &mut out),
        Ok(DangerousBatchDecryptOutcome::NoCompleteSingleRecord)
    );
    assert_eq!(
        client.dangerous_try_decrypt_record_to_sequence_range(&record, 1, 4, &mut out),
        Ok(DangerousBatchDecryptOutcome::NoMatch)
    );
    assert_eq!(
        client.dangerous_try_decrypt_record_to_sequence_range(&record, 0, 4, &mut out[..4]),
        Err(Error::General("output buffer too small"))
    );
    assert_eq!(
        client.dangerous_try_decrypt_record_to_sequence_range_with_next_key(
            &record, 0, 4, &mut out
        ),
        Ok(DangerousBatchDecryptOutcome::NoMatch)
    );
    let opaque = server_record(&mut server, ContentType::Alert, &[1, 0]);
    assert_eq!(
        client.dangerous_try_decrypt_record_to_sequence_range(&opaque, 0, 4, &mut out),
        Ok(DangerousBatchDecryptOutcome::AuthenticatedOpaque { seq: 1 })
    );
    // The connection has not moved.
    assert_eq!(client.dangerous_read_seq(), 0);
    assert_eq!(
        client.dangerous_try_decrypt_record_to_at(&record, 0, &mut out),
        Ok(DangerousDecryptOutcome::AuthenticatedApplicationData(4))
    );
}

#[test]
fn trials_wait_for_handshake_messages() {
    let (mut client, mut server) = connected_pair();
    let part = server_record(&mut server, ContentType::Handshake, &[4, 0, 0, 9]);
    let mut out = [0u8; 64];
    let state = client.process_tls_records_fast(&part, &mut out).state.unwrap();
    assert_eq!(state.name(), "WriteTraffic");
    let record = server_data(&mut server, b"data");
    assert_eq!(
        client.dangerous_try_decrypt_record_to_at(&record, 1, &mut out),
        Ok(DangerousDecryptOutcome::NoCompleteSingleRecord)
    );
    assert_eq!(
        client.dangerous_try_decrypt_record_to_at_with_next_key(&record, 1, &mut out),
        Ok(DangerousDecryptOutcome::NoCompleteSingleRecord)
    );
}

#[test]
fn committing_needs_a_proof() {
    let (mut client, _) = connected_pair();
    let unproven = Error::General(
        "next inbound traffic key has not authenticated this sequence number",
    );
    assert_eq!(client.dangerous_commit_next_inbound_key(0), Err(unproven));
    assert_eq!(client.dangerous_commit_next_inbound_key(u64::MAX), Err(unproven));
    // A connection that has ended has no next key.
    fails_fast(&mut client, &plain_record(ContentType::Alert, &[2, 40]));
    let ended = Error::AlertReceived(AlertDescription::HandshakeFailure);
    assert_eq!(client.dangerous_commit_next_inbound_key(0), Err(ended));
    let record = plain_record(ContentType::ApplicationData, &[0; 32]);
    assert_eq!(
        client.dangerous_try_decrypt_record_to_at_with_next_key(&record, 0, &mut [0u8; 64]),
        Err(ended)
    );
}

#[test]
fn a_key_update_is_answered_with_the_next_record() {
    let suite = tls13_chacha20_poly1305_sha256();
    let mut client: Client = UnbufferedConnectionCommon::new(
        TrafficState::new(suite, secret(1), &secret(2)),
        ClientConnectionData,
        establish(Side::Client, suite, &secret(1), &secret(2)),
    );
    let mut server: Server = UnbufferedConnectionCommon::new(
        TrafficState::new(suite, secret(2), &secret(1)),
        ServerConnectionData { early_data: EarlyDataState::New },
        establish(Side::Server, suite, &secret(2), &secret(1)),
    );
    match server.process_tls_records_fast(&[], &mut []).state.unwrap() {
        ConnectionState::WriteTraffic(write) => write.refresh_traffic_keys().unwrap(),
        other => panic!("expected WriteTraffic, got {}", other.name()),
    }
    let mut update = [0u8; 64];
    let n = match server.process_tls_records_fast(&[], &mut []).state.unwrap() {
        ConnectionState::EncodeTlsData(mut encode) => encode.encode(&mut update).unwrap(),
        other => panic!("expected EncodeTlsData, got {}", other.name()),
    };
    match server.process_tls_records_fast(&[], &mut []).state.unwrap() {
        ConnectionState::TransmitTlsData(transmit) => transmit.done(),
        other => panic!("expected TransmitTlsData, got {}", other.name()),
    }
    let mut out = [0u8; 64];
    let mut reply = [0u8; 128];
    let written = match client.process_tls_records_fast(&update[..n], &mut out).state.unwrap() {
        ConnectionState::WriteTraffic(mut write) => write.encrypt(b"reply", &mut reply).unwrap(),
        other => panic!("expected WriteTraffic, got {}", other.name()),
    };
    // The answer and the data, each in a record of its own.
    assert_eq!(written, (5 + 22) + (5 + 22));
    let UnbufferedStatus { discard, state } =
        server.process_tls_records_fast(&reply[..written], &mut out);
    assert_eq!(discard, written);
    match state.unwrap() {
        ConnectionState::FastReadLen(FastReadLen(len)) => assert_eq!(&out[..len], b"reply"),
        other => panic!("expected FastReadLen, got {}", other.name()),
    }
}

#[test]
fn errors_have_texts() {
    let size = InsufficientSizeError { required_size: 1_234_567 };
    assert_eq!(
        EncodeError::from(size).to_string(),
        "cannot encode due to insufficient size, 1234567 bytes are required"
    );
    assert_eq!(
        EncodeError::AlreadyEncoded.to_string(),
        "cannot encode, data has already been encoded"
    );
    assert_eq!(
        EncryptError::from(size).to_string(),
        "cannot encrypt due to insufficient size, 1234567 bytes are required"
    );
    assert_eq!(EncryptError::EncryptExhausted.to_string(), "encrypter has been exhausted");
    let none = InsufficientSizeError { required_size: 0 };
    assert_eq!(
        EncodeError::InsufficientSize(none).to_string(),
        "cannot encode due to insufficient size, 0 bytes are required"
    );
}

#[test]
fn the_buffer_is_left_alone_where_nothing_is_opened() {
    // Records that are waiting go first, and the junk is not looked at.
    let (mut client, mut server) = connected_pair();
    match client.process_tls_records_fast(&[], &mut []).state.unwrap() {
        ConnectionState::WriteTraffic(write) => write.refresh_traffic_keys().unwrap(),
        other => panic!("expected WriteTraffic, got {}", other.name()),
    }
    let mut out = [7u8; 16];
    let UnbufferedStatus { discard, state } = client.process_tls_records_fast(&[0xff; 5], &mut out);
    assert_eq!((discard, state.unwrap().name()), (0, "EncodeTlsData"));
    assert_eq!(out, [7u8; 16]);

    // Two records are not tried, nor is junk before the handshake.
    let (mut client, _) = connected_pair();
    let record = server_data(&mut server, b"data");
    let two = [&record[..], &record[..]].concat();
    client.dangerous_try_decrypt_record_to_at(&two, 0, &mut out).unwrap();
    assert_eq!(out, [7u8; 16]);
    client.core.common_state.may_receive_application_data = false;
    assert_eq!(
        client.dangerous_try_decrypt_record_to_at(&[0xff; 5], 0, &mut out),
        Ok(DangerousDecryptOutcome::NoCompleteSingleRecord)
    );
    assert_eq!(out, [7u8; 16]);
}

#[test]
fn the_bytes_behind_the_plaintext_are_left_alone() {
    let (mut client, mut server) = connected_pair();
    let (mut other, _) = connected_pair();
    let record = server_data(&mut server, b"data");
    let mut a = [7u8; 8];
    let mut b = [7u8; 8];
    assert_eq!(client.decrypt_to(&record, &mut a).discard, record.len());
    assert_eq!(other.process_tls_records_fast(&record, &mut b).discard, record.len());
    assert_eq!(a, [b'd', b'a', b't', b'a', 0x17, 7, 7, 7]);
    assert_eq!(a, b);
}

#[test]
fn nothing_is_read_where_something_is_waiting() {
    // The bytes of an incomplete handshake message may be gone once nothing more is read.
    let (mut client, mut server) = connected_pair();
    let mut part = server_record(&mut server, ContentType::Handshake, &[4, 0, 0, 9]);
    assert_eq!(client.process_tls_records(&mut part).discard, 0);
    client.core.common_state.has_received_close_notify = true;
    client.core.common_state.has_sent_close_notify = true;
    assert_eq!(client.process_tls_records(&mut []).state.unwrap().name(), "PeerClosed");
    let UnbufferedStatus { discard, state } = client.process_tls_records(&mut []);
    assert_eq!((discard, state.unwrap().name()), (0, "Closed"));
}

/// A record of the server that holds nothing but padding.
fn padding_record(server: &mut Server) -> Vec<u8> {
    server_record(server, ContentType::Unknown(0), &[0, 0])
}

#[test]
fn trials_tell_padding_from_a_failed_authentication() {
    let illegal = Error::PeerMisbehaved(PeerMisbehaved::IllegalTlsInnerPlaintext);
    let (mut client, mut server) = connected_pair();
    let record = padding_record(&mut server);
    let mut out = [0u8; 64];
    assert_eq!(client.dangerous_try_decrypt_record_to_at(&record, 0, &mut out), Err(illegal));
    assert_eq!(
        client.dangerous_try_decrypt_record_to_at(&record, 1, &mut out),
        Err(Error::DecryptError)
    );
    // A range ends with the record that authenticates.
    assert_eq!(
        client.dangerous_try_decrypt_record_to_sequence_range(&record, 0, 4, &mut out),
        Err(illegal)
    );
    assert_eq!(
        client.dangerous_try_decrypt_record_to_sequence_range(&record, 1, 4, &mut out),
        Ok(DangerousBatchDecryptOutcome::NoMatch)
    );
    // Reading itself does not tell the two apart on the fast path.
    assert_eq!(fails_fast(&mut client, &record), (0, Error::DecryptError));
}

#[test]
fn next_key_trials_tell_padding_from_a_failed_authentication() {
    let illegal = Error::PeerMisbehaved(PeerMisbehaved::IllegalTlsInnerPlaintext);
    for suite in [tls13_aes_128_gcm_sha256(), tls13_chacha20_poly1305_sha256()] {
        let mut client: Client = UnbufferedConnectionCommon::new(
            TrafficState::new(suite, secret(1), &secret(2)),
            ClientConnectionData,
            establish(Side::Client, suite, &secret(1), &secret(2)),
        );
        let mut server: Server = UnbufferedConnectionCommon::new(
            TrafficState::new(suite, secret(2), &secret(1)),
            ServerConnectionData { early_data: EarlyDataState::New },
            establish(Side::Server, suite, &secret(2), &secret(1)),
        );
        match server.process_tls_records_fast(&[], &mut []).state.unwrap() {
            ConnectionState::WriteTraffic(write) => write.refresh_traffic_keys().unwrap(),
            other => panic!("expected WriteTraffic, got {}", other.name()),
        }
        let record = padding_record(&mut server);
        let mut out = [0u8; 64];
        assert_eq!(
            client.dangerous_try_decrypt_record_to_at_with_next_key(&record, 0, &mut out),
            Err(illegal)
        );
        assert_eq!(
            client.dangerous_try_decrypt_record_to_at_with_next_key(&record, 1, &mut out),
            Err(Error::DecryptError)
        );
        assert_eq!(
            client.dangerous_try_decrypt_record_to_sequence_range_with_next_key(
                &record, 0, 4, &mut out
            ),
            Err(illegal)
        );
        assert_eq!(
            client.dangerous_try_decrypt_record_to_sequence_range_with_next_key(
                &record, 1, 4, &mut out
            ),
            Ok(DangerousBatchDecryptOutcome::NoMatch)
        );
    }
}

#[test]
fn records_are_opened_where_they_lie() {
    let (mut client, mut server) = connected_pair();
    let first = server_data(&mut server, b"first");
    let second = server_data(&mut server, b"second");
    let mut input = [&first[..], &second[..]].concat();
    assert_eq!(client.process_tls_records(&mut input).discard, first.len());
    let opened = [&first[..5], &b"first\x17"[..], &first[11..], &second[..]].concat();
    assert_eq!(input, opened);

    // What is waiting comes first, and the second record is not touched.
    assert_eq!(client.process_tls_records(&mut input[27..]).discard, 0);
    assert_eq!(input, opened);
}

#[test]
fn a_record_that_does_not_open_is_cleared() {
    let (mut client, mut server) = connected_pair();
    let mut record = server_data(&mut server, b"data");
    record[7] ^= 1;
    let mut input = record.clone();
    assert_eq!(
        client.process_tls_records(&mut input).state.err(),
        Some(Error::DecryptError)
    );
    assert_eq!(input, [&record[..5], &[0u8; 5][..], &record[10..]].concat());
}

#[test]
fn a_gathered_handshake_message_is_opened_where_it_lies() {
    let message = [4u8, 0, 0, 4, 1, 2, 3, 4];
    let (mut client, mut server) = connected_pair();
    let first = server_record(&mut server, ContentType::Handshake, &message[..3]);
    let second = server_record(&mut server, ContentType::Handshake, &message[3..]);
    let mut input = [&first[..], &second[..], &[23u8, 3]].concat();
    assert_eq!(client.process_tls_records(&mut input).discard, first.len() + second.len());
    let opened = [
        &first[..5],
        &message[..3],
        &[22],
        &first[9..],
        &second[..5],
        &message[3..],
        &[22],
        &second[11..],
        &[23, 3],
    ];
    assert_eq!(input, opened.concat());
}

#[test]
fn a_long_payload_is_read_in_place() {
    let (mut client, mut server) = connected_pair();
    let payload: Vec<u8> = (0..40_000u32).map(|i| (i % 251) as u8).collect();
    let mut input = server_data(&mut server, &payload);
    let mut rest = &mut input[..];
    let mut received = Vec::new();
    for len in [16384, 16384, 40_000 - 2 * 16384] {
        let UnbufferedStatus { discard, state } = client.process_tls_records(rest);
        match state.unwrap() {
            ConnectionState::ReadTraffic(mut read) => {
                received.extend_from_slice(read.next_record().unwrap().unwrap().payload);
                assert!(read.next_record().is_none());
            }
            other => panic!("expected ReadTraffic, got {}", other.name()),
        }
        assert_eq!(discard, len + 22);
        rest = &mut rest[discard..];
    }
    assert_eq!(received, payload);
    assert!(rest.is_empty());
    assert_eq!(client.dangerous_read_seq(), 3);
}

#[test]
fn a_key_update_is_followed_in_place() {
    let (mut client, mut server) = connected_pair();
    match server.process_tls_records_fast(&[], &mut []).state.unwrap() {
        ConnectionState::WriteTraffic(write) => write.refresh_traffic_keys().unwrap(),
        other => panic!("expected WriteTraffic, got {}", other.name()),
    }
    let mut input = vec![0u8; 64];
    let n = match server.process_tls_records_fast(&[], &mut []).state.unwrap() {
        ConnectionState::EncodeTlsData(mut encode) => encode.encode(&mut input).unwrap(),
        other => panic!("expected EncodeTlsData, got {}", other.name()),
    };
    match server.process_tls_records_fast(&[], &mut []).state.unwrap() {
        ConnectionState::TransmitTlsData(transmit) => transmit.done(),
        other => panic!("expected TransmitTlsData, got {}", other.name()),
    }
    input.truncate(n);
    input.extend(server_data(&mut server, b"under the new key"));
    let len = input.len();
    let UnbufferedStatus { discard, state } = client.process_tls_records(&mut input);
    assert_eq!(discard, len);
    match state.unwrap() {
        ConnectionState::ReadTraffic(mut read) => {
            assert_eq!(read.next_record().unwrap().unwrap().payload, b"under the new key");
        }
        other => panic!("expected ReadTraffic, got {}", other.name()),
    };
    assert_eq!(client.dangerous_read_seq(), 1);
}

#[test]
fn a_record_may_come_byte_by_byte() {
    let (mut client, mut server) = connected_pair();
    let (mut other, _) = connected_pair();
    let record = server_data(&mut server, b"data");
    let mut out = [7u8; 16];
    for n in 0..record.len() {
        let UnbufferedStatus { discard, state } =
            client.process_tls_records_fast(&record[..n], &mut out);
        assert_eq!((discard, state.unwrap().name()), (0, "WriteTraffic"));
        assert_eq!(out, [7u8; 16]);
        let mut input = record[..n].to_vec();
        let UnbufferedStatus { discard, state } = other.process_tls_records(&mut input);
        assert_eq!((discard, state.unwrap().name()), (0, "WriteTraffic"));
        assert_eq!(input, &record[..n]);
    }
    let UnbufferedStatus { discard, state } = client.process_tls_records_fast(&record, &mut out);
    assert_eq!((discard, state.unwrap().name()), (record.len(), "FastReadLen"));
    assert_eq!(&out[..4], b"data");
    let mut input = record.clone();
    let UnbufferedStatus { discard, state } = other.process_tls_records(&mut input);
    assert_eq!((discard, state.unwrap().name()), (record.len(), "ReadTraffic"));

    // During the handshake there is nothing to do but to wait.
    let mut server = new_server();
    let hello = plain_record(ContentType::Handshake, &[1, 0, 0, 2, 3, 3]);
    for n in 0..hello.len() {
        let UnbufferedStatus { discard, state } =
            server.process_tls_records_fast(&hello[..n], &mut out);
        assert_eq!((discard, state.unwrap().name()), (0, "BlockedHandshake"));
        let mut input = hello[..n].to_vec();
        let UnbufferedStatus { discard, state } = server.process_tls_records(&mut input);
        assert_eq!((discard, state.unwrap().name()), (0, "BlockedHandshake"));
    }
}
