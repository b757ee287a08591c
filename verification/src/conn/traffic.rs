//! The TLS 1.3 protocol state after the handshake: application data and key updates.
//!
//! The next incoming key is always prepared. Records can be tried with it before the peer's key
//! update was seen, and it can be committed once it has opened one.

use vstd::prelude::*;

use crate::conn::common_state::{handshake_message, record_opens, CommonState, CommonView};
use crate::conn::record_layer::{RecordLayerView, SEQ_HARD_LIMIT};
use crate::conn::state::{Message, MessageView, SideData, State};
use crate::crypto::hkdf::OkmBlock;
use crate::crypto::key_schedule::{
    derive_next_secret, derive_traffic_key, next_secret, traffic_key,
};
use crate::crypto::suites::Tls13CipherSuite;
use crate::crypto::tls13::{buffer_after, opened, tried_to, MessageDecrypter};
use crate::enums::{AlertDescription, ContentType, ProtocolVersion, Side};
use crate::error::{Error, InvalidMessage, PeerMisbehaved};
use crate::msgs::buffers::queued;
use crate::msgs::message::{
    InboundOpaqueMessageImmut, InboundPlainMessage, OutboundChunks, OutboundPlainMessage,
    PlainMessageView,
};

verus! {

/// The handshake type of a session ticket.
pub const NEW_SESSION_TICKET: u8 = 4;

/// The handshake type of a key update.
pub const KEY_UPDATE: u8 = 24;

/// A key update message; `request` is one where the peer is asked to update its key, too.
pub open spec fn key_update(request: u8) -> Seq<u8> {
    seq![KEY_UPDATE, 0u8, 0u8, 1u8, request]
}

/// The key update that asks the peer for new keys, too.
pub open spec fn key_update_request() -> PlainMessageView {
    handshake_message(key_update(1))
}

/// What the traffic state holds.
#[verifier::ext_equal]
pub struct TrafficModel {
    pub suite: Tls13CipherSuite,
    /// The secret of the current outgoing key.
    pub outbound_secret: Seq<u8>,
    /// The secret of the next incoming key.
    pub next_inbound_secret: Seq<u8>,
    /// The sequence numbers of the records that the next incoming key has opened.
    pub authenticated: Set<u64>,
}

/// The error of committing a key that has not opened the record in question.
pub open spec fn not_authenticated_error() -> Error {
    Error::General("next inbound traffic key has not authenticated this sequence number")
}

impl TrafficModel {
    /// The outgoing secret moves on, and with it the outgoing key.
    pub open spec fn next_outbound(self, layer: RecordLayerView) -> (Self, RecordLayerView) {
        let secret = next_secret(self.suite, self.outbound_secret);
        (
            TrafficModel { outbound_secret: secret, ..self },
            layer.with_encrypter(
                traffic_key(self.suite, secret),
                self.suite.confidentiality_limit,
            ),
        )
    }

    /// The next incoming key becomes the current one, and the one after it is prepared.
    pub open spec fn next_inbound(self, layer: RecordLayerView) -> (Self, RecordLayerView) {
        (
            TrafficModel {
                next_inbound_secret: next_secret(self.suite, self.next_inbound_secret),
                authenticated: Set::empty(),
                ..self
            },
            layer.with_decrypter(traffic_key(self.suite, self.next_inbound_secret)),
        )
    }

    /// A key update is answered: the answer waits for the next record that goes out, and the
    /// outgoing key moves on. One answer that is waiting is enough.
    pub open spec fn answered(self, common: CommonView) -> (Self, CommonView) {
        if common.queued_key_update_message is Some || common.record_layer.encrypter is None
            || common.record_layer.exhausted() {
            (self, common)
        } else {
            let answer = PlainMessageView {
                typ: ContentType::Handshake,
                version: ProtocolVersion::TLSv1_3,
                payload: key_update(0),
            };
            let (model, layer) = self.next_outbound(common.record_layer.after_encrypt());
            (
                model,
                CommonView {
                    queued_key_update_message: Some(common.record_layer.encrypted(answer)),
                    record_layer: layer,
                    ..common
                },
            )
        }
    }

    /// What a key update of the peer does. It has to be the last message of its record.
    pub open spec fn updated(self, common: CommonView, body: Seq<u8>) -> (
        Result<Self, Error>,
        CommonView,
    ) {
        if body.len() < 1 {
            (
                Err(Error::InvalidMessage(InvalidMessage::MissingData)),
                common.with_fatal_alert(AlertDescription::DecodeError),
            )
        } else if body.len() > 1 {
            (
                Err(Error::InvalidMessage(InvalidMessage::TrailingData)),
                common.with_fatal_alert(AlertDescription::DecodeError),
            )
        } else if !common.aligned_handshake {
            (
                Err(Error::PeerMisbehaved(PeerMisbehaved::KeyEpochWithPendingFragment)),
                common.with_fatal_alert(AlertDescription::UnexpectedMessage),
            )
        } else if body[0] > 1 {
            (
                Err(Error::InvalidMessage(InvalidMessage::InvalidKeyUpdate)),
                common.with_fatal_alert(AlertDescription::IllegalParameter),
            )
        } else {
            let (model, common) = if body[0] == 1 {
                self.answered(common)
            } else {
                (self, common)
            };
            let (model, layer) = model.next_inbound(common.record_layer);
            (Ok(model), CommonView { record_layer: layer, ..common })
        }
    }

    /// What asking the peer for new keys does: a key update goes out, and the outgoing key moves
    /// on. There is nothing to ask for before the handshake is done.
    pub open spec fn requested(self, common: CommonView) -> (Result<(), Error>, Self, CommonView) {
        if !common.is_tls13() || common.record_layer.encrypter is None {
            (Err(Error::HandshakeNotComplete), self, common)
        } else if !common.aligned_handshake {
            (
                Err(Error::PeerMisbehaved(PeerMisbehaved::KeyEpochWithPendingFragment)),
                self,
                common.with_fatal_alert(AlertDescription::UnexpectedMessage),
            )
        } else if common.record_layer.exhausted() {
            (Err(Error::EncryptError), self, common)
        } else {
            let common = common.with_handshake_message(key_update(1));
            let (model, layer) = self.next_outbound(common.record_layer);
            (Ok(()), model, CommonView { record_layer: layer, ..common })
        }
    }

    /// What trying the next incoming key on a record gives.
    pub open spec fn tried(self, payload: Seq<u8>, seq: u64, room: nat) -> (
        Result<PlainMessageView, Error>,
        Self,
    ) {
        let key = traffic_key(self.suite, self.next_inbound_secret);
        match tried_to(payload.len(), room, opened(key, seq, payload)) {
            Ok(m) => (
                Ok(m),
                TrafficModel { authenticated: self.authenticated.insert(seq), ..self },
            ),
            Err(e) => (Err(e), self),
        }
    }

    /// What committing the next incoming key does, after it has opened the record with sequence
    /// number `matched_seq`.
    pub open spec fn committed(self, common: CommonView, matched_seq: u64) -> (
        Result<(), Error>,
        Self,
        CommonView,
    ) {
        if matched_seq == u64::MAX || !self.authenticated.contains(matched_seq) {
            (Err(not_authenticated_error()), self, common)
        } else {
            let (model, layer) = self.next_inbound(common.record_layer);
            (
                Ok(()),
                model,
                CommonView {
                    record_layer: RecordLayerView {
                        read_seq: (matched_seq + 1) as u64,
                        ..layer
                    },
                    ..common
                },
            )
        }
    }

    /// What the traffic state makes of a message: application data is kept for the caller, key
    /// updates are followed, and a client lets session tickets pass.
    pub open spec fn took(self, common: CommonView, msg: MessageView) -> (
        Result<Self, Error>,
        CommonView,
    ) {
        match msg {
            MessageView::ApplicationData(payload) => (
                Ok(self),
                CommonView {
                    received_plaintext: queued(common.received_plaintext, payload),
                    ..common
                },
            ),
            MessageView::Handshake { typ, body } => if typ == KEY_UPDATE {
                self.updated(common, body)
            } else if typ == NEW_SESSION_TICKET && common.side == Side::Client {
                (Ok(self), common)
            } else {
                (Err(Error::InappropriateHandshakeMessage { got_type: typ }), common)
            },
            MessageView::ChangeCipherSpec => (
                Err(Error::InappropriateMessage { got_type: ContentType::ChangeCipherSpec }),
                common,
            ),
            MessageView::Alert { .. } => (
                Err(Error::InappropriateMessage { got_type: ContentType::Alert }),
                common,
            ),
        }
    }
}

/// The TLS 1.3 protocol state after the handshake.
pub struct TrafficState {
    pub suite: Tls13CipherSuite,
    /// The secret of the current outgoing key.
    pub outbound_secret: OkmBlock,
    /// The secret of the next incoming key.
    pub next_inbound_secret: OkmBlock,
    /// The next incoming key.
    pub next_inbound: MessageDecrypter,
    /// The sequence numbers of the records that the next incoming key has opened.
    pub authenticated: Vec<u64>,
}

impl View for TrafficState {
    type V = TrafficModel;

    open spec fn view(&self) -> TrafficModel {
        TrafficModel {
            suite: self.suite,
            outbound_secret: self.outbound_secret@,
            next_inbound_secret: self.next_inbound_secret@,
            authenticated: self.authenticated@.to_set(),
        }
    }
}

impl TrafficState {
    /// The next incoming key is the one that belongs to its secret.
    pub open spec fn inv(&self) -> bool {
        &&& self.outbound_secret.wf()
        &&& self.next_inbound_secret.wf()
        &&& self.next_inbound.wf()
        &&& self.next_inbound@ == traffic_key(self.suite, self.next_inbound_secret@)
    }

    /// The state behind a handshake that gave these secrets for the current keys.
    pub fn new(suite: Tls13CipherSuite, outbound_secret: OkmBlock, inbound_secret: &OkmBlock) -> (r:
        Self)
        requires
            outbound_secret.wf(),
            inbound_secret.wf(),
        ensures
            r.inv(),
            r@ == (TrafficModel {
                suite,
                outbound_secret: outbound_secret@,
                next_inbound_secret: next_secret(suite, inbound_secret@),
                authenticated: Set::empty(),
            }),
    {
        let next_inbound_secret = derive_next_secret(suite, inbound_secret);
        let (key, iv) = derive_traffic_key(suite, &next_inbound_secret);
        let r = TrafficState {
            suite,
            outbound_secret,
            next_inbound_secret,
            next_inbound: suite.aead_alg.decrypter(key, iv),
            authenticated: Vec::new(),
        };
        assert(r@.authenticated =~= Set::empty());
        r
    }

    /// The outgoing secret moves on, and with it the outgoing key.
    fn update_encrypter(&mut self, common: &mut CommonState)
        requires
            old(self).inv(),
            old(common).wf(),
        ensures
            final(self).inv(),
            final(common).wf(),
            ({
                let (model, layer) = old(self)@.next_outbound(old(common)@.record_layer);
                &&& final(self)@ == model
                &&& final(common)@ == (CommonView { record_layer: layer, ..old(common)@ })
            }),
    {
        let secret = derive_next_secret(self.suite, &self.outbound_secret);
        let (key, iv) = derive_traffic_key(self.suite, &secret);
        self.outbound_secret = secret;
        let encrypter = self.suite.aead_alg.encrypter(key, iv);
        common.record_layer.set_message_encrypter(encrypter, self.suite.confidentiality_limit);
    }

    /// The next incoming key becomes the current one, and the one after it is prepared.
    fn update_decrypter(&mut self, common: &mut CommonState)
        requires
            old(self).inv(),
            old(common).wf(),
        ensures
            final(self).inv(),
            final(common).wf(),
            ({
                let (model, layer) = old(self)@.next_inbound(old(common)@.record_layer);
                &&& final(self)@ == model
                &&& final(common)@ == (CommonView { record_layer: layer, ..old(common)@ })
            }),
    {
        let secret = derive_next_secret(self.suite, &self.next_inbound_secret);
        let (key, iv) = derive_traffic_key(self.suite, &secret);
        self.next_inbound_secret = secret;
        let mut decrypter = self.suite.aead_alg.decrypter(key, iv);
        std::mem::swap(&mut self.next_inbound, &mut decrypter);
        common.record_layer.set_message_decrypter(decrypter);
        self.authenticated = Vec::new();
        assert(self@.authenticated =~= Set::empty());
    }

    /// Answers a key update.
    fn update_encrypter_and_notify(&mut self, common: &mut CommonState)
        requires
            old(self).inv(),
            old(common).wf(),
        ensures
            final(self).inv(),
            final(common).wf(),
            (final(self)@, final(common)@) == old(self)@.answered(old(common)@),
    {
        if common.queued_key_update_message.is_some() || !common.record_layer.is_encrypting()
            || common.record_layer.write_seq >= SEQ_HARD_LIMIT {
            return;
        }
        let payload: [u8; 5] = [KEY_UPDATE, 0, 0, 1, 0];
        assert(payload@ =~= key_update(0));
        let msg = OutboundPlainMessage {
            typ: ContentType::Handshake,
            version: ProtocolVersion::TLSv1_3,
            payload: OutboundChunks::Single(vstd::array::array_as_slice(&payload)),
        };
        let bytes = common.record_layer.encrypt_outgoing(msg);
        common.queued_key_update_message = Some(bytes);
        self.update_encrypter(common);
    }

    /// Follows a key update of the peer.
    #[verifier::rlimit(40)]
    fn handle_key_update(&mut self, common: &mut CommonState, body: &[u8]) -> (r: Result<(), Error>)
        requires
            old(self).inv(),
            old(common).wf(),
        ensures
            final(self).inv(),
            final(common).wf(),
            ({
                let (expected, after) = old(self)@.updated(old(common)@, body@);
                &&& final(common)@ == after
                &&& match (r, expected) {
                    (Ok(_), Ok(model)) => final(self)@ == model,
                    (Err(e), Err(f)) => e == f,
                    _ => false,
                }
            }),
    {
        if body.len() < 1 {
            return Err(
                common.send_fatal_alert(
                    AlertDescription::DecodeError,
                    Error::InvalidMessage(InvalidMessage::MissingData),
                ),
            );
        }
        if body.len() > 1 {
            return Err(
                common.send_fatal_alert(
                    AlertDescription::DecodeError,
                    Error::InvalidMessage(InvalidMessage::TrailingData),
                ),
            );
        }
        if !common.aligned_handshake {
            return Err(
                common.send_fatal_alert(
                    AlertDescription::UnexpectedMessage,
                    Error::PeerMisbehaved(PeerMisbehaved::KeyEpochWithPendingFragment),
                ),
            );
        }
        let request: u8 = body[0];
        if request > 1 {
            return Err(
                common.send_fatal_alert(
                    AlertDescription::IllegalParameter,
                    Error::InvalidMessage(InvalidMessage::InvalidKeyUpdate),
                ),
            );
        }
        if request == 1 {
            self.update_encrypter_and_notify(common);
        }
        self.update_decrypter(common);
        Ok(())
    }

    /// Notes that the next incoming key has opened the record with sequence number `seq`.
    fn note_authenticated(&mut self, seq: u64)
        requires
            old(self).inv(),
        ensures
            final(self).inv(),
            final(self)@ == (TrafficModel {
                authenticated: old(self)@.authenticated.insert(seq),
                ..old(self)@
            }),
    {
        if !self.has_authenticated(seq) {
            self.authenticated.push(seq);
            let ghost before = old(self).authenticated@;
            assert(before.push(seq).to_set() =~= before.to_set().insert(seq)) by {
                assert forall|x: u64| before.push(seq).to_set().contains(x) == before.to_set().insert(
                    seq,
                ).contains(x) by {
                    if before.contains(x) {
                        let i = choose|i: int| 0 <= i < before.len() && before[i] == x;
                        assert(before.push(seq)[i] == x);
                    }
                    if x == seq {
                        assert(before.push(seq)[before.len() as int] == x);
                    }
                }
            }
        } else {
            assert(self@.authenticated =~= self@.authenticated.insert(seq));
        }
    }

    /// Has the next incoming key opened the record with sequence number `seq`?
    fn has_authenticated(&self, seq: u64) -> (r: bool)
        ensures
            r == self@.authenticated.contains(seq),
    {
        let mut i: usize = 0;
        while i < self.authenticated.len()
            invariant
                i <= self.authenticated@.len(),
                forall|j: int| 0 <= j < i ==> self.authenticated@[j] != seq,
            decreases self.authenticated@.len() - i,
        {
            if self.authenticated[i] == seq {
                assert(self.authenticated@.contains(seq));
                return true;
            }
            i += 1;
        }
        false
    }
}

/// What both sides share on a connection whose handshake is done, with these secrets for the
/// current keys.
pub open spec fn established(
    side: Side,
    suite: Tls13CipherSuite,
    outbound_secret: Seq<u8>,
    inbound_secret: Seq<u8>,
) -> CommonView {
    CommonView {
        negotiated_version: Some(ProtocolVersion::TLSv1_3),
        may_send_application_data: true,
        may_receive_application_data: true,
        record_layer: RecordLayerView::initial().with_encrypter(
            traffic_key(suite, outbound_secret),
            suite.confidentiality_limit,
        ).with_decrypter(traffic_key(suite, inbound_secret)),
        ..CommonView::initial(side)
    }
}

/// Installs the keys that a TLS 1.3 handshake has agreed on.
pub fn establish(
    side: Side,
    suite: Tls13CipherSuite,
    outbound_secret: &OkmBlock,
    inbound_secret: &OkmBlock,
) -> (r: CommonState)
    requires
        outbound_secret.wf(),
        inbound_secret.wf(),
    ensures
        r.wf(),
        r@ == established(side, suite, outbound_secret@, inbound_secret@),
{
    let mut common = CommonState::new(side);
    common.negotiated_version = Some(ProtocolVersion::TLSv1_3);
    let (key, iv) = derive_traffic_key(suite, outbound_secret);
    common.record_layer.set_message_encrypter(
        suite.aead_alg.encrypter(key, iv),
        suite.confidentiality_limit,
    );
    let (key, iv) = derive_traffic_key(suite, inbound_secret);
    common.record_layer.set_message_decrypter(suite.aead_alg.decrypter(key, iv));
    common.may_send_application_data = true;
    common.may_receive_application_data = true;
    common
}

impl<Data: SideData> State<Data> for TrafficState {
    type Model = TrafficModel;

    open spec fn model(&self) -> TrafficModel {
        self@
    }

    open spec fn wf(&self) -> bool {
        self.inv()
    }

    open spec fn handled(
        model: TrafficModel,
        common: CommonView,
        early_data: Seq<Seq<u8>>,
        msg: MessageView,
    ) -> (Result<TrafficModel, Error>, CommonView, Seq<Seq<u8>>) {
        let (r, common) = model.took(common, msg);
        (r, common, early_data)
    }

    fn handle(self, common: &mut CommonState, data: &mut Data, msg: Message<'_>) -> (r: Result<
        Self,
        Error,
    >) {
        let mut this = self;
        match msg {
            Message::ApplicationData(payload) => {
                common.received_plaintext.append(vstd::slice::slice_to_vec(payload));
                Ok(this)
            },
            Message::Handshake { typ, body } => {
                if typ == KEY_UPDATE {
                    match this.handle_key_update(common, body) {
                        Ok(_) => Ok(this),
                        Err(e) => Err(e),
                    }
                } else if typ == NEW_SESSION_TICKET && common.side == Side::Client {
                    Ok(this)
                } else {
                    Err(Error::InappropriateHandshakeMessage { got_type: typ })
                }
            },
            Message::ChangeCipherSpec => Err(
                Error::InappropriateMessage { got_type: ContentType::ChangeCipherSpec },
            ),
            Message::Alert { .. } => Err(
                Error::InappropriateMessage { got_type: ContentType::Alert },
            ),
        }
    }

    open spec fn key_update_requested(model: TrafficModel, common: CommonView) -> (
        Result<(), Error>,
        TrafficModel,
        CommonView,
    ) {
        model.requested(common)
    }

    open spec fn key_update_request_opens(model: TrafficModel, common: CommonView) -> bool {
        record_opens(common.record_layer, key_update_request())
    }

    fn send_key_update_request(&mut self, common: &mut CommonState) -> (r: Result<(), Error>) {
        if !common.is_tls13() || !common.record_layer.is_encrypting() {
            return Err(Error::HandshakeNotComplete);
        }
        proof {
            crate::conn::common_state::lemma_fatal_alert(
                common@,
                AlertDescription::UnexpectedMessage,
            );
        }
        if !common.aligned_handshake {
            return Err(
                common.send_fatal_alert(
                    AlertDescription::UnexpectedMessage,
                    Error::PeerMisbehaved(PeerMisbehaved::KeyEpochWithPendingFragment),
                ),
            );
        }
        if common.record_layer.write_seq >= SEQ_HARD_LIMIT {
            return Err(Error::EncryptError);
        }
        let payload: [u8; 5] = [KEY_UPDATE, 0, 0, 1, 1];
        assert(payload@ =~= key_update(1));
        common.send_handshake_message(vstd::array::array_as_slice(&payload));
        self.update_encrypter(common);
        Ok(())
    }

    open spec fn tried_with_next_key(
        model: TrafficModel,
        payload: Seq<u8>,
        seq: u64,
        room: nat,
    ) -> (Result<PlainMessageView, Error>, TrafficModel) {
        model.tried(payload, seq, room)
    }

    open spec fn left_by_next_key(
        model: TrafficModel,
        payload: Seq<u8>,
        seq: u64,
        out: Seq<u8>,
    ) -> Seq<u8> {
        buffer_after(traffic_key(model.suite, model.next_inbound_secret), seq, payload, out)
    }

    fn try_decrypt_with_next_inbound_traffic_key<'a>(
        &mut self,
        msg: &InboundOpaqueMessageImmut<'_>,
        seq: u64,
        out: &'a mut [u8],
    ) -> (r: Result<InboundPlainMessage<'a>, Error>) {
        match self.next_inbound.try_decrypt_to(msg, seq, out) {
            Ok(m) => {
                self.note_authenticated(seq);
                Ok(m)
            },
            Err(e) => Err(e),
        }
    }

    open spec fn next_key_committed(model: TrafficModel, common: CommonView, matched_seq: u64) -> (
        Result<(), Error>,
        TrafficModel,
        CommonView,
    ) {
        model.committed(common, matched_seq)
    }

    fn commit_next_inbound_traffic_key(&mut self, common: &mut CommonState, matched_seq: u64) -> (r:
        Result<(), Error>) {
        if matched_seq == u64::MAX || !self.has_authenticated(matched_seq) {
            return Err(
                Error::General(
                    "next inbound traffic key has not authenticated this sequence number",
                ),
            );
        }
        self.update_decrypter(common);
        common.record_layer.commit_read_seq_after_decrypt(matched_seq + 1);
        Ok(())
    }
}

} // verus!
