//! What each message does to a connection, and what goes out in answer.

use vstd::prelude::*;

use crate::conn::common_state::CommonView;
use crate::conn::engine::processed;
use crate::conn::model::{took_message, CoreView};
use crate::conn::record_layer::RecordLayerView;
use crate::conn::state::{MessageView, SideData, State};
use crate::conn::traffic::{established, TrafficModel, TrafficState};
use crate::crypto::hkdf::{hkdf_expanded, HashAlgorithm};
use crate::crypto::key_schedule::{next_secret, traffic_key};
use crate::crypto::suites::Tls13CipherSuite;
use crate::crypto::tls13::sealed;
use crate::enums::{AlertDescription, ContentType, ProtocolVersion, Side};
use crate::error::{Error, InvalidMessage, PeerMisbehaved};
use crate::msgs::message::{record, PlainMessageView};

verus! {

/// What the protocol state makes of a message: it goes on in its next state, or the connection has
/// ended with its error. Of a message that has no place where it came the peer is told.
pub open spec fn decided<Data: SideData, S: State<Data>>(
    core: CoreView<S::Model>,
    msg: MessageView,
) -> (Result<(), Error>, CoreView<S::Model>) {
    let (r, common, early_data) = S::handled(core.state->Ok_0, core.common, core.early_data, msg);
    match r {
        Ok(model) => (Ok(()), CoreView { state: Ok(model), common, early_data }),
        Err(e) => (
            Err(e),
            CoreView {
                state: Err(e),
                common: if e is InappropriateMessage || e is InappropriateHandshakeMessage {
                    common.with_fatal_alert(AlertDescription::UnexpectedMessage)
                } else {
                    common
                },
                early_data,
            },
        ),
    }
}

/// A connection that has ended with an error, of which the peer was told.
pub open spec fn ended<M>(core: CoreView<M>, e: Error, description: AlertDescription) -> (
    Result<(), Error>,
    CoreView<M>,
) {
    (
        Err(e),
        CoreView { state: Err(e), common: core.common.with_fatal_alert(description), ..core },
    )
}

/// A connection that has ended takes no more messages: it gives the error that it has ended with,
/// and stays as it is.
pub proof fn law_ended_connection_takes_no_message<Data: SideData, S: State<Data>>(
    core: CoreView<S::Model>,
    m: PlainMessageView,
    e: Error,
)
    requires
        core.state == Err::<S::Model, Error>(e),
    ensures
        took_message::<Data, S>(core, m) == (Err::<(), Error>(e), core),
{
}

/// Application data is for the protocol state, all of it.
pub proof fn law_application_data_goes_to_the_state<Data: SideData, S: State<Data>>(
    core: CoreView<S::Model>,
    m: PlainMessageView,
)
    requires
        core.state is Ok,
        m.typ == ContentType::ApplicationData,
    ensures
        took_message::<Data, S>(core, m) == decided::<Data, S>(
            core,
            MessageView::ApplicationData(m.payload),
        ),
{
    reveal(processed);
}

/// A handshake message is for the protocol state: the first byte is its type, and what stands behind
/// the three bytes of its length is its body. Where the length is not that of the body, the peer is
/// told that the message cannot be decoded.
pub proof fn law_handshake_messages_go_to_the_state<Data: SideData, S: State<Data>>(
    core: CoreView<S::Model>,
    m: PlainMessageView,
)
    requires
        core.state is Ok,
        m.typ == ContentType::Handshake,
    ensures
        ({
            let p = m.payload;
            let len = 4 + 65536 * p[1] + 256 * p[2] + p[3];
            &&& p.len() >= 4 && p.len() == len ==> took_message::<Data, S>(core, m) == decided::<
                Data,
                S,
            >(core, MessageView::Handshake { typ: p[0], body: p.skip(4) })
            &&& p.len() < 4 || p.len() < len ==> took_message::<Data, S>(core, m) == ended(
                core,
                Error::InvalidMessage(InvalidMessage::MissingData),
                AlertDescription::DecodeError,
            )
            &&& p.len() >= 4 && p.len() > len ==> took_message::<Data, S>(core, m) == ended(
                core,
                Error::InvalidMessage(InvalidMessage::TrailingData),
                AlertDescription::DecodeError,
            )
        }),
{
    reveal(processed);
}

/// A change cipher spec message is a single byte, which is one. Until application data may come,
/// TLS 1.3 lets it pass and refuses any other; later it is for the protocol state, as it is for
/// earlier versions.
pub proof fn law_change_cipher_spec<Data: SideData, S: State<Data>>(
    core: CoreView<S::Model>,
    m: PlainMessageView,
)
    requires
        core.state is Ok,
        m.typ == ContentType::ChangeCipherSpec,
    ensures
        ({
            let valid = m.payload.len() == 1 && m.payload[0] == 1;
            let passes = core.common.negotiated_version == Some(ProtocolVersion::TLSv1_3)
                && !core.common.may_receive_application_data;
            took_message::<Data, S>(core, m) == (if passes && valid {
                (Ok::<(), Error>(()), core)
            } else if passes {
                ended(
                    core,
                    Error::PeerMisbehaved(PeerMisbehaved::IllegalMiddleboxChangeCipherSpec),
                    AlertDescription::UnexpectedMessage,
                )
            } else if valid {
                decided::<Data, S>(core, MessageView::ChangeCipherSpec)
            } else {
                ended(
                    core,
                    Error::InvalidMessage(InvalidMessage::InvalidCcs),
                    AlertDescription::DecodeError,
                )
            })
        }),
{
    reveal(processed);
    if m.payload.len() == 1 && m.payload[0] == 1 {
        assert(m.payload =~= seq![1u8]);
    }
}

/// A message of any other type cannot be decoded.
pub proof fn law_other_types_cannot_be_decoded<Data: SideData, S: State<Data>>(
    core: CoreView<S::Model>,
    m: PlainMessageView,
)
    requires
        core.state is Ok,
        m.typ is Heartbeat || m.typ is Unknown,
    ensures
        took_message::<Data, S>(core, m) == ended(
            core,
            Error::InvalidMessage(InvalidMessage::InvalidContentType),
            AlertDescription::DecodeError,
        ),
{
    reveal(processed);
}

/// An alert has two bytes, its level and its description. A close_notify alert ends what the peer
/// sends, once application data may come, and changes nothing else. Of the other warnings TLS 1.3
/// knows only user_canceled, which passes, as all warnings do in earlier versions. All other alerts
/// end the connection. The peer is told of a level that there is not, of a warning that there is
/// not, and of an alert that has not two bytes.
pub proof fn law_alerts<Data: SideData, S: State<Data>>(
    core: CoreView<S::Model>,
    m: PlainMessageView,
)
    requires
        core.state is Ok,
        m.typ == ContentType::Alert,
    ensures
        ({
            let p = m.payload;
            let received = Error::AlertReceived(AlertDescription::of(p[1]));
            let tls13 = core.common.negotiated_version == Some(ProtocolVersion::TLSv1_3);
            took_message::<Data, S>(core, m) == (if p.len() < 2 {
                ended(
                    core,
                    Error::InvalidMessage(InvalidMessage::MissingData),
                    AlertDescription::DecodeError,
                )
            } else if p.len() > 2 {
                ended(
                    core,
                    Error::InvalidMessage(InvalidMessage::TrailingData),
                    AlertDescription::DecodeError,
                )
            } else if p[0] != 1 && p[0] != 2 {
                ended(core, received, AlertDescription::IllegalParameter)
            } else if p[1] == 0 && core.common.may_receive_application_data {
                (
                    Ok::<(), Error>(()),
                    CoreView {
                        common: CommonView { has_received_close_notify: true, ..core.common },
                        ..core
                    },
                )
            } else if p[0] == 1 && tls13 && p[1] != 90 {
                ended(core, received, AlertDescription::DecodeError)
            } else if p[0] == 1 {
                (Ok::<(), Error>(()), core)
            } else {
                (Err::<(), Error>(received), CoreView { state: Err(received), ..core })
            })
        }),
{
    reveal(processed);
}

/// A fatal alert goes out behind everything that is waiting, a key update first: in the clear until
/// there is an outgoing key, then sealed with the next sequence number; and not at all once the
/// numbers are used up. Nothing else changes but that it is noted.
pub proof fn law_fatal_alerts_go_out(common: CommonView, description: AlertDescription)
    ensures
        ({
            let after = common.with_fatal_alert(description);
            let layer = common.record_layer;
            let waiting = match common.queued_key_update_message {
                Some(update) if update.len() > 0 => common.sendable_tls.push(update),
                _ => common.sendable_tls,
            };
            let clear = seq![21u8, 3u8, 3u8, 0u8, 2u8, 2u8, description.byte()];
            let plain = seq![2u8, description.byte(), 21u8];
            let noted = CommonView { sent_fatal_alert: true, ..common };
            after == (if layer.encrypter is None {
                CommonView {
                    queued_key_update_message: None,
                    sendable_tls: waiting.push(clear),
                    ..noted
                }
            } else if layer.write_seq >= 0xffff_ffff_ffff_fffe {
                noted
            } else {
                CommonView {
                    queued_key_update_message: None,
                    record_layer: layer.after_encrypt(),
                    sendable_tls: waiting.push(
                        record(
                            ContentType::ApplicationData,
                            ProtocolVersion::TLSv1_2,
                            sealed(layer.encrypter->0.key, layer.write_seq, plain)->0,
                        ),
                    ),
                    ..noted
                }
            })
        }),
{
    reveal(CommonView::with_fatal_alert);
    let payload = seq![2u8, description.byte()];
    assert(0x0303u16 / 256 == 3 && 0x0303u16 % 256 == 3);
    assert(record(ContentType::Alert, ProtocolVersion::TLSv1_2, payload) =~= seq![
        21u8,
        3u8,
        3u8,
        0u8,
        2u8,
        2u8,
        description.byte(),
    ]);
    assert(payload.push(21u8) =~= seq![2u8, description.byte(), 21u8]);
}

/// Application data that comes is kept for the caller, behind what is kept already; empty data is
/// not kept.
pub proof fn law_data_is_kept_for_the_caller<Data: SideData>(
    model: TrafficModel,
    common: CommonView,
    early_data: Seq<Seq<u8>>,
    payload: Seq<u8>,
)
    ensures
        <TrafficState as State<Data>>::handled(
            model,
            common,
            early_data,
            MessageView::ApplicationData(payload),
        ) == (
            Ok::<TrafficModel, Error>(model),
            CommonView {
                received_plaintext: if payload.len() > 0 {
                    common.received_plaintext.push(payload)
                } else {
                    common.received_plaintext
                },
                ..common
            },
            early_data,
        ),
{
}

/// A client lets session tickets pass; a server refuses them. Of the other handshake messages only
/// key updates have a place once the handshake is done; nor have change cipher spec messages one.
pub proof fn law_messages_without_a_place<Data: SideData>(
    model: TrafficModel,
    common: CommonView,
    early_data: Seq<Seq<u8>>,
    typ: u8,
    body: Seq<u8>,
)
    ensures
        typ == 4 && common.side == Side::Client ==> <TrafficState as State<Data>>::handled(
            model,
            common,
            early_data,
            MessageView::Handshake { typ, body },
        ) == (Ok::<TrafficModel, Error>(model), common, early_data),
        typ != 24 && !(typ == 4 && common.side == Side::Client) ==> <TrafficState as State<
            Data,
        >>::handled(model, common, early_data, MessageView::Handshake { typ, body }) == (
            Err::<TrafficModel, Error>(Error::InappropriateHandshakeMessage { got_type: typ }),
            common,
            early_data,
        ),
        <TrafficState as State<Data>>::handled(
            model,
            common,
            early_data,
            MessageView::ChangeCipherSpec,
        ) == (
            Err::<TrafficModel, Error>(
                Error::InappropriateMessage { got_type: ContentType::ChangeCipherSpec },
            ),
            common,
            early_data,
        ),
{
}

/// A key update that is no key update ends the connection: one whose body is not a single byte, one
/// that is not the last message that came, and one that neither asks for an answer nor does without
/// one.
pub proof fn law_bad_key_updates_are_refused<Data: SideData>(
    model: TrafficModel,
    common: CommonView,
    early_data: Seq<Seq<u8>>,
    body: Seq<u8>,
)
    requires
        body.len() != 1 || !common.aligned_handshake || body[0] > 1,
    ensures
        ({
            let refused = |e: Error, description: AlertDescription|
                (
                    Err::<TrafficModel, Error>(e),
                    common.with_fatal_alert(description),
                    early_data,
                );
            <TrafficState as State<Data>>::handled(
                model,
                common,
                early_data,
                MessageView::Handshake { typ: 24, body },
            ) == (if body.len() == 0 {
                refused(
                    Error::InvalidMessage(InvalidMessage::MissingData),
                    AlertDescription::DecodeError,
                )
            } else if body.len() > 1 {
                refused(
                    Error::InvalidMessage(InvalidMessage::TrailingData),
                    AlertDescription::DecodeError,
                )
            } else if !common.aligned_handshake {
                refused(
                    Error::PeerMisbehaved(PeerMisbehaved::KeyEpochWithPendingFragment),
                    AlertDescription::UnexpectedMessage,
                )
            } else {
                refused(
                    Error::InvalidMessage(InvalidMessage::InvalidKeyUpdate),
                    AlertDescription::IllegalParameter,
                )
            })
        }),
{
}

/// A key update of the peer installs the prepared key, from sequence number zero on, and prepares
/// the one after it. Where it asks for an answer, the answer is sealed with the outgoing key that is
/// about to go, waits for the next record, and the outgoing key moves on, too; unless an answer is
/// waiting already, there is no outgoing key, or its numbers are used up. Nothing else changes.
pub proof fn law_key_updates_are_followed<Data: SideData>(
    model: TrafficModel,
    common: CommonView,
    early_data: Seq<Seq<u8>>,
    request: u8,
)
    requires
        common.aligned_handshake,
        request <= 1,
    ensures
        ({
            let layer = common.record_layer;
            let answers = request == 1 && common.queued_key_update_message is None
                && layer.encrypter is Some && layer.write_seq < 0xffff_ffff_ffff_fffe;
            let outbound = next_secret(model.suite, model.outbound_secret);
            let answer = record(
                ContentType::ApplicationData,
                ProtocolVersion::TLSv1_2,
                sealed(
                    layer.encrypter->0.key,
                    layer.write_seq,
                    seq![24u8, 0u8, 0u8, 1u8, 0u8, 22u8],
                )->0,
            );
            let out = if answers {
                layer.with_encrypter(
                    traffic_key(model.suite, outbound),
                    model.suite.confidentiality_limit,
                )
            } else {
                layer
            };
            <TrafficState as State<Data>>::handled(
                model,
                common,
                early_data,
                MessageView::Handshake { typ: 24, body: seq![request] },
            ) == (
                Ok::<TrafficModel, Error>(
                    TrafficModel {
                        outbound_secret: if answers {
                            outbound
                        } else {
                            model.outbound_secret
                        },
                        next_inbound_secret: next_secret(model.suite, model.next_inbound_secret),
                        authenticated: Set::empty(),
                        suite: model.suite,
                    },
                ),
                CommonView {
                    record_layer: RecordLayerView {
                        decrypter: Some(traffic_key(model.suite, model.next_inbound_secret)),
                        read_seq: 0,
                        ..out
                    },
                    queued_key_update_message: if answers {
                        Some(answer)
                    } else {
                        common.queued_key_update_message
                    },
                    ..common
                },
                early_data,
            )
        }),
{
    assert(seq![24u8, 0u8, 0u8, 1u8, 0u8].push(22u8) =~= seq![24u8, 0u8, 0u8, 1u8, 0u8, 22u8]);
}

/// Asking for new keys sends a key update that asks for an answer, sealed with the outgoing key that
/// is about to go, behind everything that is waiting; and the outgoing key moves on. It is refused
/// before the handshake is done, in the middle of handshake messages, and where the numbers of the
/// outgoing key are used up; then the keys stay.
pub proof fn law_new_keys_are_asked_for<Data: SideData>(model: TrafficModel, common: CommonView)
    requires
        common.record_layer.write_seq_max <= 0xffff_ffff_ffff_0000,
    ensures
        ({
            let layer = common.record_layer;
            let outbound = next_secret(model.suite, model.outbound_secret);
            let request = record(
                ContentType::ApplicationData,
                ProtocolVersion::TLSv1_2,
                sealed(
                    layer.encrypter->0.key,
                    layer.write_seq,
                    seq![24u8, 0u8, 0u8, 1u8, 1u8, 22u8],
                )->0,
            );
            let waiting = match common.queued_key_update_message {
                Some(update) if update.len() > 0 => common.sendable_tls.push(update),
                _ => common.sendable_tls,
            };
            let r = <TrafficState as State<Data>>::key_update_requested(model, common);
            if common.negotiated_version != Some(ProtocolVersion::TLSv1_3)
                || layer.encrypter is None {
                r == (Err::<(), Error>(Error::HandshakeNotComplete), model, common)
            } else if !common.aligned_handshake {
                r == (
                    Err::<(), Error>(
                        Error::PeerMisbehaved(PeerMisbehaved::KeyEpochWithPendingFragment),
                    ),
                    model,
                    common.with_fatal_alert(AlertDescription::UnexpectedMessage),
                )
            } else if layer.write_seq >= 0xffff_ffff_ffff_fffe {
                r == (Err::<(), Error>(Error::EncryptError), model, common)
            } else {
                &&& r.0 is Ok
                &&& r.1 == (TrafficModel { outbound_secret: outbound, ..model })
                &&& r.2.sendable_tls == waiting.push(request)
                &&& r.2.record_layer == layer.with_encrypter(
                    traffic_key(model.suite, outbound),
                    model.suite.confidentiality_limit,
                )
                &&& r.2.queued_key_update_message is None
                &&& r.2 == (CommonView {
                    sendable_tls: r.2.sendable_tls,
                    record_layer: r.2.record_layer,
                    queued_key_update_message: None,
                    refresh_traffic_keys_pending: common.refresh_traffic_keys_pending
                        || layer.write_seq == layer.write_seq_max,
                    ..common
                })
            }
        }),
{
    assert(seq![24u8, 0u8, 0u8, 1u8, 1u8].push(22u8) =~= seq![24u8, 0u8, 0u8, 1u8, 1u8, 22u8]);
}

/// The bytes of an ASCII text.
pub open spec fn ascii(text: Seq<char>) -> Seq<u8> {
    text.map_values(|c: char| c as u8)
}

/// What tells the outputs that HKDF makes of a traffic secret apart: the length of the output in two
/// bytes, the label behind `tls13 ` with its own length, and an empty context.
pub open spec fn label(text: Seq<char>, len: nat) -> Seq<u8> {
    seq![(len / 256) as u8, (len % 256) as u8, text.len() as u8] + ascii(text) + seq![0u8]
}

/// The key and the initialisation vector of a traffic secret, and the secret after it, are what HKDF
/// expands the secret to under their labels: as many bytes as the algorithm wants, twelve bytes, and
/// as many as the hash has.
pub proof fn law_keys_are_expanded_under_their_labels(suite: Tls13CipherSuite, secret: Seq<u8>)
    ensures
        ({
            let key_len: nat = match suite.aead_alg {
                crate::crypto::aead::Algorithm::Aes128Gcm => 16,
                _ => 32,
            };
            let hash_len: nat = match suite.hash {
                HashAlgorithm::Sha256 => 32,
                HashAlgorithm::Sha384 => 48,
            };
            let key = traffic_key(suite, secret);
            &&& key.alg == suite.aead_alg
            &&& key.key == hkdf_expanded(suite.hash, secret, label("tls13 key"@, key_len), key_len)
            &&& key.iv == hkdf_expanded(suite.hash, secret, label("tls13 iv"@, 12), 12)
            &&& next_secret(suite, secret) == hkdf_expanded(
                suite.hash,
                secret,
                label("tls13 traffic upd"@, hash_len),
                hash_len,
            )
        }),
{
    reveal_strlit("tls13 key");
    reveal_strlit("tls13 iv");
    reveal_strlit("tls13 traffic upd");
    let key_len = suite.aead_alg.spec_key_len();
    let hash_len = suite.hash.spec_len();
    assert(label("tls13 key"@, key_len) =~= crate::crypto::key_schedule::label_info(
        crate::crypto::key_schedule::key_label(),
        key_len,
    ));
    assert(label("tls13 iv"@, 12) =~= crate::crypto::key_schedule::label_info(
        crate::crypto::key_schedule::iv_label(),
        12,
    ));
    assert(label("tls13 traffic upd"@, hash_len) =~= crate::crypto::key_schedule::label_info(
        crate::crypto::key_schedule::update_label(),
        hash_len,
    ));
}

/// A connection whose handshake is done has a key in each direction, of its own secret, from
/// sequence number zero on. Application data may go and come, and nothing has happened yet.
pub proof fn law_established_connection(
    side: Side,
    suite: Tls13CipherSuite,
    outbound_secret: Seq<u8>,
    inbound_secret: Seq<u8>,
)
    ensures
        ({
            let common = established(side, suite, outbound_secret, inbound_secret);
            &&& common.side == side
            &&& common.negotiated_version == Some(ProtocolVersion::TLSv1_3)
            &&& common.may_send_application_data
            &&& common.may_receive_application_data
            &&& !common.has_sent_close_notify
            &&& !common.has_received_close_notify
            &&& !common.sent_fatal_alert
            &&& common.aligned_handshake
            &&& !common.refresh_traffic_keys_pending
            &&& common.received_plaintext.len() == 0
            &&& common.sendable_tls.len() == 0
            &&& common.queued_key_update_message is None
            &&& common.record_layer.encrypter is Some
            &&& common.record_layer.encrypter->0.key == traffic_key(suite, outbound_secret)
            &&& common.record_layer.decrypter == Some(traffic_key(suite, inbound_secret))
            &&& common.record_layer.write_seq == 0
            &&& common.record_layer.read_seq == 0
            &&& common.record_layer.write_seq_max == (if suite.confidentiality_limit
                < 0xffff_ffff_ffff_0000 {
                suite.confidentiality_limit
            } else {
                0xffff_ffff_ffff_0000
            })
        }),
{
}

/// A connection before its handshake has no keys, and may neither send nor receive application data.
pub proof fn law_new_connection(side: Side)
    ensures
        ({
            let common = CommonView::initial(side);
            &&& common.side == side
            &&& common.negotiated_version is None
            &&& common.record_layer.encrypter is None
            &&& common.record_layer.decrypter is None
            &&& !common.may_send_application_data
            &&& !common.may_receive_application_data
            &&& !common.has_sent_close_notify
            &&& !common.has_received_close_notify
            &&& !common.sent_fatal_alert
            &&& common.aligned_handshake
            &&& !common.refresh_traffic_keys_pending
            &&& common.received_plaintext.len() == 0
            &&& common.sendable_tls.len() == 0
            &&& common.queued_key_update_message is None
        }),
{
}

} // verus!
