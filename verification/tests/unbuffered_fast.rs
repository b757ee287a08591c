//! The zero-copy interface, on connections whose handshake has finished or has not begun.

use tls_unbuffered::conn::common_state::{CommonState, EncryptError, InsufficientSizeError};
use tls_unbuffered::conn::handles::EncodeError;
use tls_unbuffered::conn::state::{
    ClientConnectionData, EarlyDataState, ServerConnectionData, SideData, State,
};
use tls_unbuffered::conn::traffic::{establish, TrafficState};
use tls_unbuffered::conn::trial::{DangerousBatchDecryptOutcome, DangerousDecryptOutcome};
use tls_unbuffered::conn::unbuffered::{
    ConnectionState, FastReadLen, ReadTraffic, UnbufferedConnectionCommon, UnbufferedStatus,
    WriteTraffic,
};
use tls_unbuffered::crypto::hkdf::{HashAlgorithm, OkmBlock};
use tls_unbuffered::crypto::suites::{
    tls13_aes_128_gcm_sha256, tls13_aes_256_gcm_sha384, tls13_chacha20_poly1305_sha256,
    Tls13CipherSuite,
};
use tls_unbuffered::enums::{AlertDescription, ContentType, ProtocolVersion, Side};
use tls_unbuffered::error::{Error, InvalidMessage};
use tls_unbuffered::msgs::message::OutboundOpaqueMessage;

type Client = UnbufferedConnectionCommon<ClientConnectionData>;
type Server = UnbufferedConnectionCommon<ServerConnectionData>;

const MAX_ITERATIONS: usize = 100;

fn all_suites() -> Vec<Tls13CipherSuite> {
    vec![
        tls13_chacha20_poly1305_sha256(),
        tls13_aes_128_gcm_sha256(),
        tls13_aes_256_gcm_sha384(),
    ]
}

/// A client and a server that agree on their secrets.
fn pair_with(suite: Tls13CipherSuite) -> (Client, Server) {
    let len = if suite.hash == HashAlgorithm::Sha384 { 48 } else { 32 };
    let from_client = OkmBlock::new(&vec![0x11u8; len]);
    let from_server = OkmBlock::new(&vec![0x22u8; len]);
    let client = UnbufferedConnectionCommon::new(
        TrafficState::new(suite, OkmBlock::new(&vec![0x11u8; len]), &from_server),
        ClientConnectionData,
        establish(Side::Client, suite, &from_client, &from_server),
    );
    let server = UnbufferedConnectionCommon::new(
        TrafficState::new(suite, OkmBlock::new(&vec![0x22u8; len]), &from_client),
        ServerConnectionData { early_data: EarlyDataState::New },
        establish(Side::Server, suite, &from_server, &from_client),
    );
    (client, server)
}

fn connected_pair() -> (Client, Server) {
    pair_with(tls13_aes_256_gcm_sha384())
}

/// A server that has received nothing yet, and knows no keys.
fn new_server() -> Server {
    let secret = OkmBlock::new(&[0u8; 32]);
    UnbufferedConnectionCommon::new(
        TrafficState::new(tls13_aes_128_gcm_sha256(), OkmBlock::new(&[0u8; 32]), &secret),
        ServerConnectionData { early_data: EarlyDataState::New },
        CommonState::new(Side::Server),
    )
}

#[test]
fn fast_app_data_client_to_server() {
    let expected: &[_] = b"hello";
    for suite in all_suites() {
        let mut client_actions = Actions { app_data_to_send: Some(expected), ..NO_ACTIONS };
        let outcome = run(suite, &mut client_actions, &mut NO_ACTIONS.clone());
        assert!(client_actions.app_data_to_send.is_none(), "the client has sent its data");
        assert_eq!([expected], outcome.server_received_app_data.as_slice());
    }
}

#[test]
fn fast_app_data_server_to_client() {
    let expected: &[_] = b"hello";
    for suite in all_suites() {
        let mut server_actions = Actions { app_data_to_send: Some(expected), ..NO_ACTIONS };
        let outcome = run(suite, &mut NO_ACTIONS.clone(), &mut server_actions);
        assert!(server_actions.app_data_to_send.is_none(), "the server has sent its data");
        assert_eq!([expected], outcome.client_received_app_data.as_slice());
    }
}

#[test]
fn fast_close_notify_client_to_server() {
    for suite in all_suites() {
        let mut client_actions = Actions { send_close_notify: true, ..NO_ACTIONS };
        let outcome = run(suite, &mut client_actions, &mut NO_ACTIONS.clone());
        assert!(!client_actions.send_close_notify, "close_notify was sent");
        assert!(outcome.server_saw_peer_closed_state, "the server saw PeerClosed");
    }
}

#[test]
fn fast_close_notify_server_to_client() {
    for suite in all_suites() {
        let mut server_actions = Actions { send_close_notify: true, ..NO_ACTIONS };
        let outcome = run(suite, &mut NO_ACTIONS.clone(), &mut server_actions);
        assert!(!server_actions.send_close_notify, "close_notify was sent");
        assert!(outcome.client_saw_peer_closed_state, "the client saw PeerClosed");
    }
}

#[test]
fn fast_full_closure_server_to_client() {
    for suite in all_suites() {
        let (mut client, mut server) = pair_with(suite);
        let mut buf = Buffer::default();

        // A message of the server, and a close_notify.
        write_traffic(server.process_tls_records(&mut []), |mut wt: WriteTraffic<_>| {
            encrypt(&mut wt, b"hello", &mut buf);
            queue_close_notify(&mut wt, &mut buf);
        });

        // The client gets the message first.
        let mut decrypt_buf = [0u8; 16384 + 256];
        let UnbufferedStatus { discard, state } =
            client.process_tls_records_fast(buf.filled(), &mut decrypt_buf);
        match state.unwrap() {
            ConnectionState::FastReadLen(FastReadLen(len)) => {
                assert_eq!(&decrypt_buf[..len], b"hello");
            }
            other => panic!("expected FastReadLen, got {}", other.name()),
        }
        buf.discard(discard);

        // Then it learns that the server has closed.
        let UnbufferedStatus { discard, state } =
            client.process_tls_records_fast(buf.filled(), &mut decrypt_buf);
        match state.unwrap() {
            ConnectionState::PeerClosed => {}
            other => panic!("expected PeerClosed, got {}", other.name()),
        }
        buf.discard(discard);
        assert_eq!(buf.used, 0, "the buffer is empty");

        // The client answers.
        write_traffic(client.process_tls_records_fast(&[], &mut decrypt_buf), |mut wt| {
            encrypt(&mut wt, b"goodbye", &mut buf);
            queue_close_notify(&mut wt, &mut buf);
        });

        let (data, discard) = read_traffic(server.process_tls_records(buf.filled()), |mut rt| {
            assert_eq!(rt.peek_len(), Some(7));
            rt.next_record().unwrap().unwrap().payload.to_vec()
        });
        assert_eq!(data, b"goodbye");
        buf.discard(discard);

        let discard = peer_closed(server.process_tls_records(buf.filled()));
        buf.discard(discard);
        assert_eq!(buf.used, 0);

        closed(client.process_tls_records_fast(&[], &mut decrypt_buf));
        closed(server.process_tls_records(&mut []));
    }
}

#[test]
fn fast_rejects_junk() {
    let mut server = new_server();

    let junk_data = [0xff; 5];
    let mut decrypt_buf = [0u8; 16384 + 256];

    let UnbufferedStatus { discard, state } =
        server.process_tls_records_fast(&junk_data, &mut decrypt_buf);

    assert_eq!(discard, 0, "nothing is to be discarded");
    assert_eq!(
        state.err().unwrap(),
        Error::InvalidMessage(InvalidMessage::InvalidContentType),
    );

    let (alert_data, _) = encode_tls_data(server.process_tls_records_fast(&[], &mut decrypt_buf));
    assert_eq!(
        alert_data,
        &[0x15, 0x03, 0x03, 0x00, 0x02, 0x02, AlertDescription::DecodeError.to_byte()],
    );

    confirm_transmit_tls_data(server.process_tls_records_fast(&[], &mut decrypt_buf));
}

#[test]
fn fast_server_receives_incorrect_first_handshake_message() {
    let mut server = new_server();

    let junk_buffer = [0x16, 0x3, 0x1, 0x0, 0x4, 0xff, 0x0, 0x0, 0x0];
    let mut decrypt_buf = [0u8; 16384 + 256];

    let UnbufferedStatus { discard, state } =
        server.process_tls_records_fast(&junk_buffer, &mut decrypt_buf);

    assert_eq!(discard, junk_buffer.len(), "the whole message is to be discarded");
    let err_str = format!("{:?}", state.err().unwrap());
    assert!(err_str.contains("InappropriateHandshakeMessage"), "{err_str}");

    let UnbufferedStatus { discard, state } =
        server.process_tls_records_fast(&[], &mut decrypt_buf);
    assert_eq!(discard, 0);
    match state.unwrap() {
        ConnectionState::EncodeTlsData(mut inner) => {
            let mut alert_buffer = [0u8; 7];
            let wr = inner.encode(&mut alert_buffer).unwrap();
            assert_eq!(wr, 7);
            assert_eq!(alert_buffer[0], 0x15, "an alert record");
            assert_eq!(alert_buffer[5], 0x02, "a fatal alert");
            assert_eq!(alert_buffer[6], 10, "unexpected_message");
        }
        other => panic!("expected EncodeTlsData, got {}", other.name()),
    }
}

#[test]
fn a_handshake_message_blocks_until_it_is_complete() {
    let mut server = new_server();
    let mut hello = vec![1, 0, 1, 0];
    hello.extend_from_slice(&[0x5a; 256]);
    let record = OutboundOpaqueMessage::new(ContentType::Handshake, ProtocolVersion::TLSv1_2, hello)
        .encode();
    let mut decrypt_buf = [0u8; 16384 + 256];

    for prefix in 0..record.len() {
        let UnbufferedStatus { discard, state } =
            server.process_tls_records_fast(&record[..prefix], &mut decrypt_buf);
        assert!(matches!(state.unwrap(), ConnectionState::BlockedHandshake), "prefix {prefix}");
        assert_eq!(discard, 0);
    }

    // No keys were agreed on, so the message has no place here.
    let UnbufferedStatus { discard, state } =
        server.process_tls_records_fast(&record, &mut decrypt_buf);
    assert_eq!(state.err(), Some(Error::InappropriateHandshakeMessage { got_type: 1 }));
    assert_eq!(discard, record.len());
}

#[test]
fn fast_queue_close_notify_is_idempotent() {
    let (mut client, _) = connected_pair();

    let mut buf = Buffer::default();
    let mut decrypt_buf = [0u8; 16384 + 256];

    match client.process_tls_records_fast(&[], &mut decrypt_buf).state.unwrap() {
        ConnectionState::WriteTraffic(mut wt) => {
            let first_len = wt.queue_close_notify(buf.unfilled()).unwrap();
            assert!(first_len > 0, "the first call writes");
            buf.advance(first_len);

            let second_len = wt.queue_close_notify(buf.unfilled()).unwrap();
            assert_eq!(second_len, 0, "the second call writes nothing");
        }
        other => panic!("expected WriteTraffic, got {}", other.name()),
    }
}

#[test]
fn fast_junk_after_close_notify_received() {
    for suite in all_suites() {
        let (mut client, mut server) = pair_with(suite);

        let mut buf = Buffer::default();
        let mut decrypt_buf = [0u8; 16384 + 256];

        write_traffic(client.process_tls_records_fast(&[], &mut decrypt_buf), |mut wt| {
            queue_close_notify(&mut wt, &mut buf);
        });

        let junk = [0xffu8; 64];
        buf.append(&junk);

        let UnbufferedStatus { discard, state } = server.process_tls_records(buf.filled());
        match state.unwrap() {
            ConnectionState::PeerClosed => {}
            other => panic!("expected PeerClosed, got {}", other.name()),
        }
        buf.discard(discard);

        let UnbufferedStatus { discard, state } = server.process_tls_records(buf.filled());
        assert_eq!(discard, 0, "the junk is ignored");
        match state.unwrap() {
            ConnectionState::WriteTraffic(_) | ConnectionState::Closed => {}
            other => panic!("expected WriteTraffic or Closed, got {}", other.name()),
        }
    }
}

#[test]
fn fast_refresh_traffic_keys_on_tls12_connection() {
    let (mut client, _) = connected_pair();
    client.core.common_state.negotiated_version = Some(ProtocolVersion::TLSv1_2);
    let mut decrypt_buf = [0u8; 16384 + 256];

    match client.process_tls_records_fast(&[], &mut decrypt_buf).state.unwrap() {
        ConnectionState::WriteTraffic(wt) => {
            let result = wt.refresh_traffic_keys();
            assert!(matches!(result, Err(Error::HandshakeNotComplete)), "{result:?}");
        }
        other => panic!("expected WriteTraffic, got {}", other.name()),
    }
}

#[test]
fn fast_refresh_traffic_keys_manually() {
    let (mut client, mut server) = connected_pair();
    let mut decrypt_buf = [0u8; 16384 + 256];

    match client.process_tls_records_fast(&[], &mut decrypt_buf).state.unwrap() {
        ConnectionState::WriteTraffic(wt) => {
            wt.refresh_traffic_keys().expect("TLS 1.3 has key updates");
        }
        other => panic!("expected WriteTraffic, got {}", other.name()),
    }

    let mut buffer = [0u8; 64];
    let used = match client.process_tls_records_fast(&[], &mut decrypt_buf).state.unwrap() {
        ConnectionState::EncodeTlsData(mut etd) => etd.encode(&mut buffer).expect("it fits"),
        other => panic!("expected EncodeTlsData, got {}", other.name()),
    };

    match client.process_tls_records_fast(&[], &mut decrypt_buf).state.unwrap() {
        ConnectionState::TransmitTlsData(ttd) => {
            ttd.done();
        }
        other => panic!("expected TransmitTlsData, got {}", other.name()),
    }

    let used = match server.process_tls_records(&mut buffer[..used]) {
        UnbufferedStatus {
            discard: actual_used,
            state: Ok(ConnectionState::WriteTraffic(mut wt)),
        } => {
            assert_eq!(used, actual_used);
            wt.encrypt(b"hello", &mut buffer).expect("it fits")
        }
        other => panic!("expected WriteTraffic, got {}", name_of(other)),
    };

    let UnbufferedStatus { discard, state } =
        client.process_tls_records_fast(&buffer[..used], &mut decrypt_buf);
    match state.unwrap() {
        ConnectionState::FastReadLen(FastReadLen(len)) => {
            assert_eq!(used, discard);
            let payload = &decrypt_buf[..len];
            assert_eq!(payload, b"hello");
        }
        other => panic!("expected FastReadLen, got {}", other.name()),
    }

    let used = match client.process_tls_records_fast(&[], &mut decrypt_buf).state.unwrap() {
        ConnectionState::WriteTraffic(mut wt) => {
            wt.encrypt(b"world", &mut buffer).expect("it fits")
        }
        other => panic!("expected WriteTraffic, got {}", other.name()),
    };

    match server.process_tls_records(&mut buffer[..used]) {
        UnbufferedStatus {
            discard: actual_used,
            state: Ok(ConnectionState::ReadTraffic(mut rt)),
        } => {
            assert_eq!(used, actual_used);
            let app_data = rt.next_record().unwrap().unwrap();
            assert_eq!(app_data.payload, b"world");
        }
        other => panic!("expected ReadTraffic, got {}", name_of(other)),
    }
}

#[test]
fn fast_current_inbound_key_sequence_range_finds_the_only_match() {
    let (mut client, mut server) = connected_pair();
    let mut client_out = [0u8; 16384 + 256];
    let mut server_out = [0u8; 16384 + 256];
    let expected_seq = client.dangerous_read_seq();
    let mut record = [0u8; 256];
    let record_len = encrypt_server_record(
        &mut server,
        &mut server_out,
        b"range-current",
        &mut record,
    );
    let outcome = client
        .dangerous_try_decrypt_record_to_sequence_range(
            &record[..record_len],
            expected_seq.saturating_sub(3),
            expected_seq + 5,
            &mut client_out,
        )
        .expect("current-key sequence range must execute");
    match outcome {
        DangerousBatchDecryptOutcome::AuthenticatedApplicationData {
            seq,
            plaintext_len,
        } => {
            assert_eq!(seq, expected_seq);
            assert_eq!(&client_out[..plaintext_len], b"range-current");
        }
        other => panic!("expected current-key range match, got {other:?}"),
    }
    assert_eq!(client.dangerous_read_seq(), expected_seq);
}

#[test]
fn fast_speculative_next_inbound_key_is_transactional_across_two_generations() {
    let (mut client, mut server) = connected_pair();
    let mut client_out = [0u8; 16384 + 256];
    let mut server_out = [0u8; 16384 + 256];
    let initial_read_seq = client.dangerous_read_seq();

    drop_server_key_update(&mut server, &mut server_out);

    let mut generation_one = [0u8; 256];
    let generation_one_len = encrypt_server_record(
        &mut server,
        &mut server_out,
        b"generation-one",
        &mut generation_one,
    );
    let generation_one = &generation_one[..generation_one_len];

    assert!(matches!(
        client.dangerous_try_decrypt_record_to_at(generation_one, 0, &mut client_out),
        Err(Error::DecryptError)
    ));
    assert_eq!(client.dangerous_read_seq(), initial_read_seq);

    assert!(matches!(
        client.dangerous_try_decrypt_record_to_at_with_next_key(
            generation_one,
            1,
            &mut client_out,
        ),
        Err(Error::DecryptError)
    ));
    assert_eq!(client.dangerous_read_seq(), initial_read_seq);
    assert!(client.dangerous_commit_next_inbound_key(1).is_err());
    assert_eq!(client.dangerous_read_seq(), initial_read_seq);

    let mut corrupted = generation_one.to_vec();
    let last = corrupted
        .last_mut()
        .expect("the encrypted TLS record contains an authentication tag");
    *last ^= 1;
    assert!(matches!(
        client.dangerous_try_decrypt_record_to_at_with_next_key(
            &corrupted,
            0,
            &mut client_out,
        ),
        Err(Error::DecryptError)
    ));
    assert_eq!(client.dangerous_read_seq(), initial_read_seq);
    assert!(client.dangerous_commit_next_inbound_key(0).is_err());
    assert_eq!(client.dangerous_read_seq(), initial_read_seq);

    let mut undersized = [0u8; 1];
    assert!(matches!(
        client.dangerous_try_decrypt_record_to_at_with_next_key(
            generation_one,
            0,
            &mut undersized,
        ),
        Err(Error::General(_))
    ));
    assert_eq!(client.dangerous_read_seq(), initial_read_seq);
    assert!(client.dangerous_commit_next_inbound_key(0).is_err());
    assert_eq!(client.dangerous_read_seq(), initial_read_seq);

    let batch_len = match client
        .dangerous_try_decrypt_record_to_sequence_range_with_next_key(
            generation_one,
            0,
            6,
            &mut client_out,
        )
        .expect("the next-key batch range must execute")
    {
        DangerousBatchDecryptOutcome::AuthenticatedApplicationData {
            seq,
            plaintext_len,
        } => {
            assert_eq!(seq, 0);
            plaintext_len
        }
        other => panic!("expected authenticated next-key batch record, got {other:?}"),
    };
    assert_eq!(&client_out[..batch_len], b"generation-one");
    assert_eq!(client.dangerous_read_seq(), initial_read_seq);

    let len = authenticated_application_data_len(
        client
            .dangerous_try_decrypt_record_to_at_with_next_key(
                generation_one,
                0,
                &mut client_out,
            )
            .expect("the first speculative traffic key must decrypt"),
    );
    assert_eq!(&client_out[..len], b"generation-one");
    assert_eq!(client.dangerous_read_seq(), initial_read_seq);
    assert!(matches!(
        client.dangerous_try_decrypt_record_to_at(generation_one, 0, &mut client_out),
        Err(Error::DecryptError)
    ));

    assert!(client
        .dangerous_commit_next_inbound_key(u64::MAX)
        .is_err());
    assert_eq!(client.dangerous_read_seq(), initial_read_seq);
    assert!(client.dangerous_commit_next_inbound_key(1).is_err());
    assert_eq!(client.dangerous_read_seq(), initial_read_seq);
    client
        .dangerous_commit_next_inbound_key(0)
        .expect("the authenticated first speculative key must commit");
    assert_eq!(client.dangerous_read_seq(), 1);

    let mut generation_one_current = [0u8; 256];
    let generation_one_current_len = encrypt_server_record(
        &mut server,
        &mut server_out,
        b"generation-one-current",
        &mut generation_one_current,
    );
    let len = authenticated_application_data_len(
        client
            .dangerous_try_decrypt_record_to_at(
                &generation_one_current[..generation_one_current_len],
                1,
                &mut client_out,
            )
            .expect("the committed first key must be current"),
    );
    assert_eq!(&client_out[..len], b"generation-one-current");
    client.dangerous_commit_read_seq(2);

    drop_server_key_update(&mut server, &mut server_out);

    let mut generation_two = [0u8; 256];
    let generation_two_len = encrypt_server_record(
        &mut server,
        &mut server_out,
        b"generation-two",
        &mut generation_two,
    );
    let generation_two = &generation_two[..generation_two_len];

    assert!(matches!(
        client.dangerous_try_decrypt_record_to_at(generation_two, 0, &mut client_out),
        Err(Error::DecryptError)
    ));
    assert_eq!(client.dangerous_read_seq(), 2);

    let len = authenticated_application_data_len(
        client
            .dangerous_try_decrypt_record_to_at_with_next_key(
                generation_two,
                0,
                &mut client_out,
            )
            .expect("the second speculative traffic key must decrypt"),
    );
    assert_eq!(&client_out[..len], b"generation-two");
    assert_eq!(client.dangerous_read_seq(), 2);
    client
        .dangerous_commit_next_inbound_key(0)
        .expect("the authenticated second speculative key must commit");
    assert_eq!(client.dangerous_read_seq(), 1);

    let mut generation_two_current = [0u8; 256];
    let generation_two_current_len = encrypt_server_record(
        &mut server,
        &mut server_out,
        b"generation-two-current",
        &mut generation_two_current,
    );
    let len = authenticated_application_data_len(
        client
            .dangerous_try_decrypt_record_to_at(
                &generation_two_current[..generation_two_current_len],
                1,
                &mut client_out,
            )
            .expect("the committed second key must be current"),
    );
    assert_eq!(&client_out[..len], b"generation-two-current");
}

#[test]
fn fast_standard_client_key_update_uses_prepared_inbound_chain() {
    let (mut client, mut server) = connected_pair();
    let mut client_out = [0u8; 16384 + 256];
    let mut server_out = [0u8; 16384 + 256];
    let mut key_update = [0u8; 256];
    let key_update_len = encode_server_key_update(
        &mut server,
        &mut server_out,
        &mut key_update,
    );
    let mut generation_one = [0u8; 256];
    let generation_one_len = encrypt_server_record(
        &mut server,
        &mut server_out,
        b"standard-generation-one",
        &mut generation_one,
    );

    process_client_key_update(
        &mut client,
        &key_update[..key_update_len],
        &mut client_out,
    );
    assert_eq!(client.dangerous_read_seq(), 0);
    let len = authenticated_application_data_len(
        client
            .dangerous_try_decrypt_record_to_at(
                &generation_one[..generation_one_len],
                0,
                &mut client_out,
            )
            .expect("the standard KeyUpdate must install the prepared inbound key"),
    );
    assert_eq!(&client_out[..len], b"standard-generation-one");
    client.dangerous_commit_read_seq(1);

    assert_following_speculative_generation(
        &mut client,
        &mut server,
        &mut client_out,
        &mut server_out,
        b"standard-generation-two",
    );
}

#[test]
fn fast_failed_speculative_trial_does_not_split_standard_key_update_chain() {
    let (mut client, mut server) = connected_pair();
    let mut client_out = [0u8; 16384 + 256];
    let mut server_out = [0u8; 16384 + 256];
    let initial_read_seq = client.dangerous_read_seq();
    let mut key_update = [0u8; 256];
    let key_update_len = encode_server_key_update(
        &mut server,
        &mut server_out,
        &mut key_update,
    );
    let mut generation_one = [0u8; 256];
    let generation_one_len = encrypt_server_record(
        &mut server,
        &mut server_out,
        b"failed-trial-generation-one",
        &mut generation_one,
    );

    assert!(matches!(
        client.dangerous_try_decrypt_record_to_at_with_next_key(
            &generation_one[..generation_one_len],
            1,
            &mut client_out,
        ),
        Err(Error::DecryptError)
    ));
    assert!(client.dangerous_commit_next_inbound_key(1).is_err());
    assert_eq!(client.dangerous_read_seq(), initial_read_seq);

    process_client_key_update(
        &mut client,
        &key_update[..key_update_len],
        &mut client_out,
    );
    let len = authenticated_application_data_len(
        client
            .dangerous_try_decrypt_record_to_at(
                &generation_one[..generation_one_len],
                0,
                &mut client_out,
            )
            .expect("a failed speculative trial must not poison standard KeyUpdate"),
    );
    assert_eq!(&client_out[..len], b"failed-trial-generation-one");
    client.dangerous_commit_read_seq(1);

    assert_following_speculative_generation(
        &mut client,
        &mut server,
        &mut client_out,
        &mut server_out,
        b"failed-trial-generation-two",
    );
}

#[test]
fn fast_uncommitted_speculative_success_is_consumed_by_standard_key_update() {
    let (mut client, mut server) = connected_pair();
    let mut client_out = [0u8; 16384 + 256];
    let mut server_out = [0u8; 16384 + 256];
    let initial_read_seq = client.dangerous_read_seq();
    let mut key_update = [0u8; 256];
    let key_update_len = encode_server_key_update(
        &mut server,
        &mut server_out,
        &mut key_update,
    );
    let mut generation_one = [0u8; 256];
    let generation_one_len = encrypt_server_record(
        &mut server,
        &mut server_out,
        b"uncommitted-generation-one",
        &mut generation_one,
    );

    let len = authenticated_application_data_len(
        client
            .dangerous_try_decrypt_record_to_at_with_next_key(
                &generation_one[..generation_one_len],
                0,
                &mut client_out,
            )
            .expect("the speculative next key must authenticate before standard KeyUpdate"),
    );
    assert_eq!(&client_out[..len], b"uncommitted-generation-one");
    assert_eq!(client.dangerous_read_seq(), initial_read_seq);

    process_client_key_update(
        &mut client,
        &key_update[..key_update_len],
        &mut client_out,
    );
    assert!(client.dangerous_commit_next_inbound_key(0).is_err());
    assert_eq!(client.dangerous_read_seq(), 0);
    let len = authenticated_application_data_len(
        client
            .dangerous_try_decrypt_record_to_at(
                &generation_one[..generation_one_len],
                0,
                &mut client_out,
            )
            .expect("standard KeyUpdate must consume the speculative key exactly once"),
    );
    assert_eq!(&client_out[..len], b"uncommitted-generation-one");
    client.dangerous_commit_read_seq(1);

    assert_following_speculative_generation(
        &mut client,
        &mut server,
        &mut client_out,
        &mut server_out,
        b"uncommitted-generation-two",
    );
}

#[test]
fn fast_current_key_update_and_next_key_app_data_share_one_tail_chain() {
    let (mut client, mut server) = connected_pair();
    let mut client_out = [0u8; 16384 + 256];
    let mut server_out = [0u8; 16384 + 256];
    let mut tail_packet = [0u8; 512];
    let current_seq = client.dangerous_read_seq();

    let key_update_len = encode_server_key_update(
        &mut server,
        &mut server_out,
        &mut tail_packet,
    );
    let next_app_len = encrypt_server_record(
        &mut server,
        &mut server_out,
        b"next-key-tail-app-data",
        &mut tail_packet[key_update_len..],
    );
    let tail_packet = &tail_packet[..key_update_len + next_app_len];
    let (current_key_update, next_key_app_data) = tail_packet.split_at(key_update_len);

    assert_eq!(
        client
            .dangerous_try_decrypt_record_to_at(tail_packet, current_seq, &mut client_out)
            .expect("a multi-record tail packet is a valid framing outcome"),
        DangerousDecryptOutcome::NoCompleteSingleRecord,
    );
    assert_eq!(
        client
            .dangerous_try_decrypt_record_to_at(current_key_update, current_seq, &mut client_out)
            .expect("the current-key KeyUpdate must authenticate"),
        DangerousDecryptOutcome::AuthenticatedOpaque,
    );
    client.dangerous_commit_read_seq(current_seq + 1);

    let len = authenticated_application_data_len(
        client
            .dangerous_try_decrypt_record_to_at_with_next_key(
                next_key_app_data,
                0,
                &mut client_out,
            )
            .expect("the next-key application record must authenticate"),
    );
    assert_eq!(&client_out[..len], b"next-key-tail-app-data");
    client
        .dangerous_commit_next_inbound_key(0)
        .expect("the opaque current record must not block next-key commit");
    assert_eq!(client.dangerous_read_seq(), 1);
}

#[test]
fn fast_authenticated_opaque_next_key_commits_and_prepares_following_generation() {
    let (mut client, mut server) = connected_pair();
    let mut client_out = [0u8; 16384 + 256];
    let mut server_out = [0u8; 16384 + 256];
    let initial_read_seq = client.dangerous_read_seq();

    drop_server_key_update(&mut server, &mut server_out);

    let mut next_key_update = [0u8; 256];
    let next_key_update_len = encode_server_key_update(
        &mut server,
        &mut server_out,
        &mut next_key_update,
    );
    assert_eq!(
        client
            .dangerous_try_decrypt_record_to_at_with_next_key(
                &next_key_update[..next_key_update_len],
                0,
                &mut client_out,
            )
            .expect("the next-key KeyUpdate must authenticate"),
        DangerousDecryptOutcome::AuthenticatedOpaque,
    );
    assert_eq!(client.dangerous_read_seq(), initial_read_seq);
    let mut corrupted = next_key_update[..next_key_update_len].to_vec();
    let last = corrupted
        .last_mut()
        .expect("the encrypted KeyUpdate contains an authentication tag");
    *last ^= 1;
    assert!(matches!(
        client.dangerous_try_decrypt_record_to_at_with_next_key(
            &corrupted,
            0,
            &mut client_out,
        ),
        Err(Error::DecryptError)
    ));
    assert_eq!(client.dangerous_read_seq(), initial_read_seq);
    client
        .dangerous_commit_next_inbound_key(0)
        .expect("a later authentication failure must preserve the opaque commit proof");
    assert_eq!(client.dangerous_read_seq(), 1);

    let mut following_generation = [0u8; 256];
    let following_generation_len = encrypt_server_record(
        &mut server,
        &mut server_out,
        b"following-generation",
        &mut following_generation,
    );
    let len = authenticated_application_data_len(
        client
            .dangerous_try_decrypt_record_to_at_with_next_key(
                &following_generation[..following_generation_len],
                0,
                &mut client_out,
            )
            .expect("the following speculative generation must authenticate"),
    );
    assert_eq!(&client_out[..len], b"following-generation");
    client
        .dangerous_commit_next_inbound_key(0)
        .expect("the following speculative generation must commit");
    assert_eq!(client.dangerous_read_seq(), 1);
}

fn authenticated_application_data_len(outcome: DangerousDecryptOutcome) -> usize {
    match outcome {
        DangerousDecryptOutcome::AuthenticatedApplicationData(len) => len,
        other => panic!("expected authenticated application data, got {other:?}"),
    }
}

fn process_client_key_update(
    client: &mut Client,
    key_update: &[u8],
    scratch: &mut [u8],
) {
    let UnbufferedStatus { discard, state } =
        client.process_tls_records_fast(key_update, scratch);
    assert_eq!(discard, key_update.len());
    match state.expect("the standard client KeyUpdate must process") {
        ConnectionState::WriteTraffic(_) => {}
        other => panic!("expected WriteTraffic after server KeyUpdate, got {}", other.name()),
    }
}

fn assert_following_speculative_generation(
    client: &mut Client,
    server: &mut Server,
    client_scratch: &mut [u8],
    server_scratch: &mut [u8],
    expected: &[u8],
) {
    drop_server_key_update(server, server_scratch);
    let mut following = [0u8; 256];
    let following_len = encrypt_server_record(
        server,
        server_scratch,
        expected,
        &mut following,
    );
    let len = authenticated_application_data_len(
        client
            .dangerous_try_decrypt_record_to_at_with_next_key(
                &following[..following_len],
                0,
                client_scratch,
            )
            .expect("the following speculative generation must remain prepared"),
    );
    assert_eq!(&client_scratch[..len], expected);
    client
        .dangerous_commit_next_inbound_key(0)
        .expect("the following speculative generation must commit");
    assert_eq!(client.dangerous_read_seq(), 1);
}

fn drop_server_key_update(
    server: &mut Server,
    scratch: &mut [u8],
) {
    let mut discarded = [0u8; 256];
    let _ = encode_server_key_update(server, scratch, &mut discarded);
}

fn encode_server_key_update(
    server: &mut Server,
    scratch: &mut [u8],
    record: &mut [u8],
) -> usize {
    match server
        .process_tls_records_fast(&[], scratch)
        .state
        .unwrap()
    {
        ConnectionState::WriteTraffic(write) => write
            .refresh_traffic_keys()
            .expect("TLS 1.3 server traffic keys must refresh"),
        other => panic!("expected WriteTraffic before key update, got {}", other.name()),
    }

    let encoded = match server
        .process_tls_records_fast(&[], scratch)
        .state
        .unwrap()
    {
        ConnectionState::EncodeTlsData(mut encode) => encode
            .encode(scratch)
            .expect("the KeyUpdate record must encode"),
        other => panic!("expected EncodeTlsData for key update, got {}", other.name()),
    };
    assert!(encoded > 0, "the KeyUpdate record must not be empty");
    record[..encoded].copy_from_slice(&scratch[..encoded]);

    match server
        .process_tls_records_fast(&[], scratch)
        .state
        .unwrap()
    {
        ConnectionState::TransmitTlsData(transmit) => transmit.done(),
        other => panic!("expected TransmitTlsData for key update, got {}", other.name()),
    }
    encoded
}

fn encrypt_server_record(
    server: &mut Server,
    scratch: &mut [u8],
    plaintext: &[u8],
    record: &mut [u8],
) -> usize {
    match server
        .process_tls_records_fast(&[], scratch)
        .state
        .unwrap()
    {
        ConnectionState::WriteTraffic(mut write) => write
            .encrypt(plaintext, record)
            .expect("the server application record must encrypt"),
        other => panic!("expected WriteTraffic before application record, got {}", other.name()),
    }
}

/// The name of the state, or the error.
fn name_of<Data: SideData, S: State<Data>>(status: UnbufferedStatus<'_, '_, Data, S>) -> String {
    match status.state {
        Ok(state) => state.name().to_string(),
        Err(e) => format!("{e:?}"),
    }
}

/// Lets both sides act until everything was sent and has arrived.
fn run(
    suite: Tls13CipherSuite,
    client_actions: &mut Actions,
    server_actions: &mut Actions,
) -> Outcome {
    let mut outcome = Outcome::default();
    let mut count = 0;
    let (mut client, mut server) = pair_with(suite);
    let mut buffers = BothBuffers::default();

    while !(client_actions.finished() && server_actions.finished() && buffers.idle()) {
        match advance_client(&mut client, &mut buffers.client, *client_actions) {
            Step::WriteTraffic { sent_app_data, sent_close_notify } => {
                buffers.client_send();
                if sent_app_data {
                    client_actions.app_data_to_send = None;
                }
                if sent_close_notify {
                    client_actions.send_close_notify = false;
                }
            }
            Step::ReceivedAppData { records } => {
                outcome.client_received_app_data.extend(records);
            }
            Step::PeerClosed => {
                outcome.client_saw_peer_closed_state = true;
            }
            step => unreachable!("{step:?}"),
        }

        match advance_server(&mut server, &mut buffers.server, *server_actions) {
            Step::WriteTraffic { sent_app_data, sent_close_notify } => {
                buffers.server_send();
                if sent_app_data {
                    server_actions.app_data_to_send = None;
                }
                if sent_close_notify {
                    server_actions.send_close_notify = false;
                }
            }
            Step::ReceivedAppData { records } => {
                outcome.server_received_app_data.extend(records);
            }
            Step::PeerClosed => {
                outcome.server_saw_peer_closed_state = true;
            }
            step => unreachable!("{step:?}"),
        }

        count += 1;
        assert!(count <= MAX_ITERATIONS, "nothing more happens");
    }

    outcome
}

#[derive(Debug)]
enum Step {
    Closed,
    PeerClosed,
    EncodedTlsData,
    TransmitTlsData,
    BlockedHandshake,
    ReceivedAppData { records: Vec<Vec<u8>> },
    WriteTraffic { sent_app_data: bool, sent_close_notify: bool },
}

const NO_ACTIONS: Actions = Actions { app_data_to_send: None, send_close_notify: false };

#[derive(Clone, Copy, Debug)]
struct Actions<'a> {
    app_data_to_send: Option<&'a [u8]>,
    send_close_notify: bool,
}

impl Actions<'_> {
    fn finished(&self) -> bool {
        self.app_data_to_send.is_none() && !self.send_close_notify
    }
}

#[derive(Default)]
struct Outcome {
    server_received_app_data: Vec<Vec<u8>>,
    server_saw_peer_closed_state: bool,
    client_received_app_data: Vec<Vec<u8>>,
    client_saw_peer_closed_state: bool,
}

fn advance_client(conn: &mut Client, buffers: &mut Buffers, actions: Actions) -> Step {
    let mut decrypt_buf = [0u8; 16384 + 256];
    let UnbufferedStatus { discard, state } =
        conn.process_tls_records_fast(buffers.incoming.filled(), &mut decrypt_buf);
    let step = match state.unwrap() {
        ConnectionState::FastReadLen(FastReadLen(len)) => {
            let records = vec![decrypt_buf[..len].to_vec()];
            Step::ReceivedAppData { records }
        }
        state => handle_state(state, &mut buffers.outgoing, actions),
    };
    buffers.incoming.discard(discard);
    step
}

/// The server decrypts in place.
fn advance_server(conn: &mut Server, buffers: &mut Buffers, actions: Actions) -> Step {
    let UnbufferedStatus { discard, state } = conn.process_tls_records(buffers.incoming.filled());
    let step = handle_state(state.unwrap(), &mut buffers.outgoing, actions);
    buffers.incoming.discard(discard);
    step
}

fn handle_state<Data: SideData>(
    state: ConnectionState<'_, '_, Data>,
    outgoing: &mut Buffer,
    actions: Actions,
) -> Step {
    match state {
        ConnectionState::EncodeTlsData(mut state) => {
            write_with_buffer_size_checks(
                |out_buf| state.encode(out_buf),
                |e| match e {
                    EncodeError::InsufficientSize(ise) => ise,
                    _ => unreachable!(),
                },
                outgoing,
            );
            assert!(matches!(
                state.encode(&mut []).unwrap_err(),
                EncodeError::AlreadyEncoded
            ));
            Step::EncodedTlsData
        }
        ConnectionState::TransmitTlsData(state) => {
            state.done();
            Step::TransmitTlsData
        }
        ConnectionState::BlockedHandshake => Step::BlockedHandshake,
        ConnectionState::WriteTraffic(mut state) => {
            let mut sent_app_data = false;
            if let Some(app_data) = actions.app_data_to_send {
                encrypt(&mut state, app_data, outgoing);
                sent_app_data = true;
            }
            let mut sent_close_notify = false;
            if actions.send_close_notify {
                queue_close_notify(&mut state, outgoing);
                sent_close_notify = true;
            }
            Step::WriteTraffic { sent_app_data, sent_close_notify }
        }
        ConnectionState::ReadTraffic(mut state) => {
            let mut records = vec![];
            let mut peeked_len = state.peek_len();
            while let Some(res) = state.next_record() {
                let payload = res.unwrap().payload.to_vec();
                assert_eq!(Some(payload.len()), peeked_len);
                records.push(payload);
                peeked_len = state.peek_len();
            }
            assert_eq!(None, peeked_len);
            Step::ReceivedAppData { records }
        }
        ConnectionState::PeerClosed => Step::PeerClosed,
        ConnectionState::Closed => Step::Closed,
        _ => unreachable!(),
    }
}

fn queue_close_notify<Data: SideData>(state: &mut WriteTraffic<'_, Data>, outgoing: &mut Buffer) {
    write_with_buffer_size_checks(
        |out_buf| state.queue_close_notify(out_buf),
        map_encrypt_error,
        outgoing,
    );
}

fn encrypt<Data: SideData>(
    state: &mut WriteTraffic<'_, Data>,
    app_data: &[u8],
    outgoing: &mut Buffer,
) {
    write_with_buffer_size_checks(
        |out_buf| state.encrypt(app_data, out_buf),
        map_encrypt_error,
        outgoing,
    );
}

fn map_encrypt_error(e: EncryptError) -> InsufficientSizeError {
    match e {
        EncryptError::InsufficientSize(ise) => ise,
        _ => unreachable!(),
    }
}

fn write_with_buffer_size_checks<E: std::fmt::Debug>(
    mut try_write: impl FnMut(&mut [u8]) -> Result<usize, E>,
    map_err: impl FnOnce(E) -> InsufficientSizeError,
    outgoing: &mut Buffer,
) {
    let required_size = map_err(try_write(&mut []).unwrap_err()).required_size;
    let written = try_write(outgoing.unfilled()).unwrap();
    assert_eq!(required_size, written);
    outgoing.advance(written);
}

fn encode_tls_data<T: SideData, S: State<T>>(
    status: UnbufferedStatus<'_, '_, T, S>,
) -> (Vec<u8>, usize) {
    match status {
        UnbufferedStatus { discard, state: Ok(ConnectionState::EncodeTlsData(mut etd)) } => {
            let mut buf = vec![0u8; 16384];
            let len = etd.encode(&mut buf).unwrap();
            buf.truncate(len);
            (buf, discard)
        }
        other => panic!("expected EncodeTlsData, got {}", name_of(other)),
    }
}

fn confirm_transmit_tls_data<T: SideData, S: State<T>>(status: UnbufferedStatus<'_, '_, T, S>) {
    match status {
        UnbufferedStatus { state: Ok(ConnectionState::TransmitTlsData(ttd)), .. } => {
            ttd.done();
        }
        other => panic!("expected TransmitTlsData, got {}", name_of(other)),
    }
}

fn write_traffic<T: SideData, R, F: FnMut(WriteTraffic<T>) -> R>(
    status: UnbufferedStatus<'_, '_, T>,
    mut f: F,
) -> R {
    let UnbufferedStatus { discard, state } = status;
    assert_eq!(discard, 0);
    match state.unwrap() {
        ConnectionState::WriteTraffic(state) => f(state),
        other => panic!("expected WriteTraffic, got {}", other.name()),
    }
}

fn read_traffic<T: SideData, R, F: FnMut(ReadTraffic<T>) -> R>(
    status: UnbufferedStatus<'_, '_, T>,
    mut f: F,
) -> (R, usize) {
    let UnbufferedStatus { discard, state } = status;
    match state.unwrap() {
        ConnectionState::ReadTraffic(state) => (f(state), discard),
        other => panic!("expected ReadTraffic, got {}", other.name()),
    }
}

fn peer_closed<T: SideData>(status: UnbufferedStatus<'_, '_, T>) -> usize {
    let UnbufferedStatus { discard, state } = status;
    match state.unwrap() {
        ConnectionState::PeerClosed => discard,
        other => panic!("expected PeerClosed, got {}", other.name()),
    }
}

fn closed<T: SideData>(status: UnbufferedStatus<'_, '_, T>) -> usize {
    let UnbufferedStatus { discard, state } = status;
    match state.unwrap() {
        ConnectionState::Closed => discard,
        other => panic!("expected Closed, got {}", other.name()),
    }
}

#[derive(Default)]
struct BothBuffers {
    client: Buffers,
    server: Buffers,
}

impl BothBuffers {
    fn client_send(&mut self) {
        self.server.incoming.append(self.client.outgoing.filled());
        self.client.outgoing.clear();
    }

    fn server_send(&mut self) {
        self.client.incoming.append(self.server.outgoing.filled());
        self.server.outgoing.clear();
    }

    fn idle(&self) -> bool {
        self.client.incoming.used == 0 && self.server.incoming.used == 0
    }
}

#[derive(Default)]
struct Buffers {
    incoming: Buffer,
    outgoing: Buffer,
}

struct Buffer {
    inner: Vec<u8>,
    used: usize,
}

impl Default for Buffer {
    fn default() -> Self {
        Self { inner: vec![0; 16 * 1024], used: 0 }
    }
}

impl Buffer {
    fn advance(&mut self, num_bytes: usize) {
        self.used += num_bytes;
    }

    fn append(&mut self, bytes: &[u8]) {
        let num_bytes = bytes.len();
        self.unfilled()[..num_bytes].copy_from_slice(bytes);
        self.advance(num_bytes)
    }

    fn clear(&mut self) {
        self.used = 0;
    }

    fn discard(&mut self, discard: usize) {
        if discard != 0 {
            assert!(discard <= self.used);
            self.inner.copy_within(discard..self.used, 0);
            self.used -= discard;
        }
    }

    fn filled(&mut self) -> &mut [u8] {
        &mut self.inner[..self.used]
    }

    fn unfilled(&mut self) -> &mut [u8] {
        &mut self.inner[self.used..]
    }
}
