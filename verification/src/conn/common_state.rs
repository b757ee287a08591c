//! What clients and servers share: the record layer, the queues in both directions, and how far
//! the connection has got.

use vstd::prelude::*;

use crate::conn::record_layer::{
    PreEncryptAction, RecordLayer, RecordLayerView, SEQ_HARD_LIMIT,
};
use crate::crypto::tls13::{inner_plaintext, opened};
use crate::enums::{AlertDescription, AlertLevel, ContentType, ProtocolVersion, Side};
use crate::error::Error;
use crate::msgs::buffers::{clamped, flat, queued, total_len, ChunkVecBuffer};
use crate::msgs::message::{
    copy_at, record, OutboundChunks, OutboundOpaqueMessage, OutboundPlainMessage,
    PlainMessageView, HEADER_LEN, MAX_FRAGMENT_LEN,
};

verus! {

/// Provided buffer was too small.
#[derive(Clone, Copy, Debug, PartialEq, Eq, Structural)]
pub struct InsufficientSizeError {
    /// The buffer has to be at least this large.
    pub required_size: usize,
}

/// Errors that may arise when encrypting application data.
#[derive(Clone, Copy, Debug, PartialEq, Eq, Structural)]
pub enum EncryptError {
    /// Provided buffer was too small.
    InsufficientSize(InsufficientSizeError),
    /// Encrypter has been exhausted.
    EncryptExhausted,
}

/// What clients and servers share.
pub struct CommonView {
    pub side: Side,
    pub negotiated_version: Option<ProtocolVersion>,
    pub record_layer: RecordLayerView,
    pub may_send_application_data: bool,
    pub may_receive_application_data: bool,
    pub has_sent_close_notify: bool,
    pub has_received_close_notify: bool,
    pub sent_fatal_alert: bool,
    pub aligned_handshake: bool,
    pub refresh_traffic_keys_pending: bool,
    /// Application data from the peer that the caller has not taken yet.
    pub received_plaintext: Seq<Seq<u8>>,
    /// Records that the caller has not taken yet.
    pub sendable_tls: Seq<Seq<u8>>,
    /// The record of a key update that goes out before the next record.
    pub queued_key_update_message: Option<Seq<u8>>,
}

/// The message that an alert is sent as.
pub open spec fn alert_message(level: AlertLevel, description: AlertDescription) -> PlainMessageView {
    PlainMessageView {
        typ: ContentType::Alert,
        version: ProtocolVersion::TLSv1_2,
        payload: seq![level.byte(), description.byte()],
    }
}

/// The message that a fragment of application data is sent as.
pub open spec fn data_message(payload: Seq<u8>) -> PlainMessageView {
    PlainMessageView {
        typ: ContentType::ApplicationData,
        version: ProtocolVersion::TLSv1_2,
        payload,
    }
}

/// How many fragments a payload of `len` bytes is split into.
pub open spec fn fragment_count(len: nat) -> nat {
    if len == 0 {
        0
    } else {
        (len - 1) as nat / MAX_FRAGMENT_LEN as nat + 1
    }
}

/// Fragment `i` of a payload: all fragments but the last are as large as they can be.
pub open spec fn fragment(payload: Seq<u8>, i: nat) -> Seq<u8> {
    payload.subrange(
        (i * MAX_FRAGMENT_LEN) as int,
        if (i + 1) * MAX_FRAGMENT_LEN <= payload.len() {
            ((i + 1) * MAX_FRAGMENT_LEN) as int
        } else {
            payload.len() as int
        },
    )
}

/// What protection adds to the length of a payload: the header, the content type and the tag.
pub const RECORD_OVERHEAD: usize = 22;

/// Length of all the records that a payload of `len` bytes is encrypted as.
pub open spec fn encrypted_size(len: nat) -> nat {
    len + fragment_count(len) * RECORD_OVERHEAD as nat
}

/// The record layer after `n` more records were encrypted.
pub open spec fn after_records(layer: RecordLayerView, n: nat) -> RecordLayerView
    decreases n,
{
    if n == 0 {
        layer
    } else {
        after_records(layer, (n - 1) as nat).after_encrypt()
    }
}

/// The records of the first `n` fragments of a payload, one behind the other.
pub open spec fn records_of(layer: RecordLayerView, payload: Seq<u8>, n: nat) -> Seq<u8>
    decreases n,
{
    if n == 0 {
        Seq::empty()
    } else {
        records_of(layer, payload, (n - 1) as nat) + after_records(
            layer,
            (n - 1) as nat,
        ).encrypted(data_message(fragment(payload, (n - 1) as nat)))
    }
}

impl CommonView {
    /// Was TLS 1.3 negotiated?
    pub open spec fn is_tls13(self) -> bool {
        self.negotiated_version == Some(ProtocolVersion::TLSv1_3)
    }

    /// A key update that is waiting joins the records to be sent.
    pub open spec fn with_key_update_written(self) -> Self {
        match self.queued_key_update_message {
            Some(message) => CommonView {
                queued_key_update_message: None,
                sendable_tls: queued(self.sendable_tls, message),
                ..self
            },
            None => self,
        }
    }

    /// A record joins the records to be sent, behind a key update that is waiting.
    pub open spec fn with_record(self, bytes: Seq<u8>) -> Self {
        let this = self.with_key_update_written();
        CommonView { sendable_tls: queued(this.sendable_tls, bytes), ..this }
    }

    /// A message is encrypted and joins the records to be sent.
    pub open spec fn with_encrypted(self, msg: PlainMessageView) -> Self {
        let this = CommonView { record_layer: self.record_layer.after_encrypt(), ..self };
        this.with_record(self.record_layer.encrypted(msg))
    }

    /// An alert is sent: encrypted, once outgoing records are. Where no sequence numbers are
    /// left, it is not sent.
    pub open spec fn with_alert(self, level: AlertLevel, description: AlertDescription) -> Self {
        let msg = alert_message(level, description);
        if self.record_layer.encrypter is None {
            self.with_record(record(msg.typ, msg.version, msg.payload))
        } else if self.record_layer.exhausted() {
            self
        } else {
            self.with_encrypted(msg)
        }
    }

    /// A fatal alert is sent.
    #[verifier::opaque]
    pub open spec fn with_fatal_alert(self, description: AlertDescription) -> Self {
        let this = CommonView { sent_fatal_alert: true, ..self };
        this.with_alert(AlertLevel::Fatal, description)
    }

    /// A close_notify alert is sent, unless one was sent before.
    pub open spec fn with_close_notify(self) -> Self {
        if self.has_sent_close_notify {
            self
        } else {
            let this = CommonView { has_sent_close_notify: true, ..self };
            this.with_alert(AlertLevel::Warning, AlertDescription::CloseNotify)
        }
    }

    /// A handshake message is sent on an encrypted connection. Where the outgoing key is due to
    /// be replaced, that is noted; where no sequence numbers are left, nothing is sent.
    pub open spec fn with_handshake_message(self, payload: Seq<u8>) -> Self {
        let msg = PlainMessageView {
            typ: ContentType::Handshake,
            version: ProtocolVersion::TLSv1_3,
            payload,
        };
        match self.record_layer.pre_encrypt_action(0) {
            PreEncryptAction::Nothing => self.with_encrypted(msg),
            PreEncryptAction::RefreshOrClose => if self.is_tls13() {
                let this = CommonView { refresh_traffic_keys_pending: true, ..self };
                this.with_encrypted(msg)
            } else {
                self.with_close_notify()
            },
            PreEncryptAction::Refuse => self,
        }
    }

    /// Is the outgoing key due to be replaced while `n` records are encrypted?
    pub open spec fn limit_within(self, n: nat) -> bool {
        self.record_layer.write_seq <= self.record_layer.write_seq_max
            < self.record_layer.write_seq + n
    }

    /// What happens before a payload of `n` fragments is encrypted: the outgoing key may be due to
    /// be replaced, which TLS 1.3 can do later and earlier versions cannot do at all.
    pub open spec fn before_fragments(self, n: nat) -> (Self, Result<(), EncryptError>) {
        if self.limit_within(n) && !self.is_tls13() {
            (self.with_close_notify(), Err(EncryptError::EncryptExhausted))
        } else {
            let this = CommonView {
                refresh_traffic_keys_pending: self.refresh_traffic_keys_pending
                    || self.limit_within(n),
                ..self
            };
            if self.record_layer.write_seq + n > SEQ_HARD_LIMIT {
                (this, Err(EncryptError::EncryptExhausted))
            } else {
                (this, Ok(()))
            }
        }
    }

    /// How many bytes it takes to write out all records that are waiting and `more` bytes.
    pub open spec fn required_size(self, more: nat) -> nat {
        total_len(self.sendable_tls) + more
    }

    /// Writing application data into a buffer of `room` bytes: what becomes of the state, and the
    /// bytes that are written.
    pub open spec fn writing(self, payload: Seq<u8>, room: nat) -> (Self, Result<
        Seq<u8>,
        EncryptError,
    >) {
        if payload.len() == 0 {
            (self, Ok(Seq::empty()))
        } else {
            let n = fragment_count(payload.len());
            match self.before_fragments(n) {
                (this, Err(e)) => (this, Err(e)),
                (this, Ok(())) => {
                    let this = this.with_key_update_written();
                    let required = this.required_size(encrypted_size(payload.len()));
                    if required > room {
                        (
                            this,
                            Err(
                                EncryptError::InsufficientSize(
                                    InsufficientSizeError { required_size: clamped(required) },
                                ),
                            ),
                        )
                    } else {
                        (
                            CommonView {
                                sendable_tls: Seq::empty(),
                                record_layer: after_records(this.record_layer, n),
                                ..this
                            },
                            Ok(
                                flat(this.sendable_tls) + records_of(
                                    this.record_layer,
                                    payload,
                                    n,
                                ),
                            ),
                        )
                    }
                },
            }
        }
    }

    /// Writing a close_notify alert into a buffer of `room` bytes: what becomes of the state, and
    /// the bytes that are written.
    pub open spec fn closing(self, room: nat) -> (Self, Result<Seq<u8>, EncryptError>) {
        let msg = alert_message(AlertLevel::Warning, AlertDescription::CloseNotify);
        let this = self.with_key_update_written();
        let required = this.required_size(msg.payload.len() + RECORD_OVERHEAD as nat);
        if self.has_sent_close_notify {
            (self, Ok(Seq::empty()))
        } else if self.record_layer.exhausted() {
            (self, Err(EncryptError::EncryptExhausted))
        } else if required > room {
            (
                this,
                Err(
                    EncryptError::InsufficientSize(
                        InsufficientSizeError { required_size: clamped(required) },
                    ),
                ),
            )
        } else {
            (
                CommonView {
                    has_sent_close_notify: true,
                    sendable_tls: Seq::empty(),
                    record_layer: this.record_layer.after_encrypt(),
                    ..this
                },
                Ok(flat(this.sendable_tls) + this.record_layer.encrypted(msg)),
            )
        }
    }

    /// A connection on which nothing has happened.
    pub open spec fn initial(side: Side) -> Self {
        CommonView {
            side,
            negotiated_version: None,
            record_layer: RecordLayerView::initial(),
            may_send_application_data: false,
            may_receive_application_data: false,
            has_sent_close_notify: false,
            has_received_close_notify: false,
            sent_fatal_alert: false,
            aligned_handshake: true,
            refresh_traffic_keys_pending: false,
            received_plaintext: Seq::empty(),
            sendable_tls: Seq::empty(),
            queued_key_update_message: None,
        }
    }
}

/// Alerts do not touch the incoming direction, nor what the connection may do.
pub proof fn lemma_fatal_alert(common: CommonView, description: AlertDescription)
    ensures
        ({
            let after = common.with_fatal_alert(description);
            &&& after.record_layer.decrypter == common.record_layer.decrypter
            &&& (after.record_layer.encrypter is Some) == (
            common.record_layer.encrypter is Some)
            &&& after.record_layer.read_seq == common.record_layer.read_seq
            &&& after.received_plaintext == common.received_plaintext
            &&& after.has_received_close_notify == common.has_received_close_notify
            &&& after.has_sent_close_notify == common.has_sent_close_notify
            &&& after.may_receive_application_data == common.may_receive_application_data
            &&& after.may_send_application_data == common.may_send_application_data
        }),
{
    reveal(CommonView::with_fatal_alert);
}

/// What clients and servers share.
pub struct CommonState {
    pub side: Side,
    pub negotiated_version: Option<ProtocolVersion>,
    pub record_layer: RecordLayer,
    pub may_send_application_data: bool,
    pub may_receive_application_data: bool,
    pub has_sent_close_notify: bool,
    pub has_received_close_notify: bool,
    pub sent_fatal_alert: bool,
    pub aligned_handshake: bool,
    pub refresh_traffic_keys_pending: bool,
    pub received_plaintext: ChunkVecBuffer,
    pub sendable_tls: ChunkVecBuffer,
    pub queued_key_update_message: Option<Vec<u8>>,
}

impl View for CommonState {
    type V = CommonView;

    open spec fn view(&self) -> CommonView {
        CommonView {
            side: self.side,
            negotiated_version: self.negotiated_version,
            record_layer: self.record_layer@,
            may_send_application_data: self.may_send_application_data,
            may_receive_application_data: self.may_receive_application_data,
            has_sent_close_notify: self.has_sent_close_notify,
            has_received_close_notify: self.has_received_close_notify,
            sent_fatal_alert: self.sent_fatal_alert,
            aligned_handshake: self.aligned_handshake,
            refresh_traffic_keys_pending: self.refresh_traffic_keys_pending,
            received_plaintext: self.received_plaintext@,
            sendable_tls: self.sendable_tls@,
            queued_key_update_message: match self.queued_key_update_message {
                Some(message) => Some(message@),
                None => None,
            },
        }
    }
}

/// Does writing into `out` match what was to be written? What is written lies at the front, and
/// where nothing could be written the buffer is left as it was.
pub open spec fn written_as(
    r: Result<usize, EncryptError>,
    expected: Result<Seq<u8>, EncryptError>,
    before: Seq<u8>,
    after: Seq<u8>,
) -> bool {
    match (r, expected) {
        (Ok(n), Ok(bytes)) => {
            &&& n == bytes.len()
            &&& n <= before.len()
            &&& after == bytes + before.skip(n as int)
        },
        (Err(e), Err(f)) => e == f && after == before,
        _ => false,
    }
}

pub proof fn lemma_after_records(layer: RecordLayerView, n: nat)
    requires
        layer.encrypter is Some,
        layer.write_seq + n <= u64::MAX,
    ensures
        after_records(layer, n).encrypter is Some,
        after_records(layer, n).encrypter->0.key == layer.encrypter->0.key,
        after_records(layer, n).decrypter == layer.decrypter,
        after_records(layer, n).read_seq == layer.read_seq,
        after_records(layer, n).write_seq == layer.write_seq + n,
    decreases n,
{
    if n > 0 {
        lemma_after_records(layer, (n - 1) as nat);
    }
}

/// The next record that is made of `msg` opens to it again, and is longer than it by what a record
/// adds.
pub open spec fn record_opens(layer: RecordLayerView, msg: PlainMessageView) -> bool {
    let bytes = layer.encrypted(msg);
    &&& bytes.len() == msg.payload.len() + RECORD_OVERHEAD
    &&& opened(layer.encrypter->0.key, layer.write_seq, bytes.skip(HEADER_LEN as int)) == Some(
        inner_plaintext(msg),
    )
}

/// The alert that closes a connection.
pub open spec fn close_notify_message() -> PlainMessageView {
    alert_message(AlertLevel::Warning, AlertDescription::CloseNotify)
}

/// The message that a handshake message is sent as.
pub open spec fn handshake_message(payload: Seq<u8>) -> PlainMessageView {
    PlainMessageView { typ: ContentType::Handshake, version: ProtocolVersion::TLSv1_3, payload }
}

/// The first `n` records of a payload open to the fragments again, each with its own sequence
/// number.
pub open spec fn records_open(layer: RecordLayerView, payload: Seq<u8>, n: nat) -> bool {
    forall|i: nat|
        i < n ==> {
            let msg = data_message(#[trigger] fragment(payload, i));
            let bytes = after_records(layer, i).encrypted(msg);
            &&& bytes.len() == msg.payload.len() + RECORD_OVERHEAD
            &&& opened(
                layer.encrypter->0.key,
                (layer.write_seq + i) as u64,
                bytes.skip(HEADER_LEN as int),
            ) == Some(inner_plaintext(msg))
        }
}

/// Encrypts `payload` into `out`, from `pos` on; says where the records end.
#[verifier::rlimit(40)]
fn write_fragments(layer: &mut RecordLayer, payload: &[u8], out: &mut [u8], pos: usize) -> (r: usize)
    requires
        old(layer).wf(),
        old(layer)@.encrypter is Some,
        payload@.len() > 0,
        old(layer)@.write_seq + fragment_count(payload@.len()) <= SEQ_HARD_LIMIT,
        pos + encrypted_size(payload@.len()) <= old(out)@.len(),
    ensures
        final(layer).wf(),
        final(layer)@ == after_records(old(layer)@, fragment_count(payload@.len())),
        r == pos + encrypted_size(payload@.len()),
        records_of(old(layer)@, payload@, fragment_count(payload@.len())).len() == encrypted_size(
            payload@.len(),
        ),
        records_open(old(layer)@, payload@, fragment_count(payload@.len())),
        final(out)@ == old(out)@.take(pos as int) + records_of(
            old(layer)@,
            payload@,
            fragment_count(payload@.len()),
        ) + old(out)@.skip(r as int),
{
    let len: usize = payload.len();
    let n: usize = (len - 1) / MAX_FRAGMENT_LEN + 1;
    let ghost count = fragment_count(payload@.len());
    assert(n == count);
    let room: usize = out.len();
    let ghost start_layer = layer@;
    let ghost before = out@;
    let ghost size = encrypted_size(payload@.len());
    assert(size == len + n * RECORD_OVERHEAD);
    let mut written: usize = pos;
    let mut i: usize = 0;
    assert(out@ =~= before.take(pos as int) + records_of(start_layer, payload@, 0) + before.skip(
        written as int,
    ));
    while i < n
        invariant
            i <= n,
            n == count,
            count == fragment_count(payload@.len()),
            len == payload@.len(),
            len > 0,
            room == before.len(),
            size == len + n * RECORD_OVERHEAD,
            pos + size <= room,
            layer.wf(),
            start_layer.encrypter is Some,
            start_layer.write_seq + n <= SEQ_HARD_LIMIT,
            layer@ == after_records(start_layer, i as nat),
            records_of(start_layer, payload@, i as nat).len() == written - pos,
            written - pos == (if i < n {
                i * MAX_FRAGMENT_LEN
            } else {
                len as int
            }) + i * RECORD_OVERHEAD,
            records_open(start_layer, payload@, i as nat),
            out@ == before.take(pos as int) + records_of(start_layer, payload@, i as nat)
                + before.skip(written as int),
        decreases n - i,
    {
        let start: usize = i * MAX_FRAGMENT_LEN;
        let end: usize = if len - start > MAX_FRAGMENT_LEN {
            start + MAX_FRAGMENT_LEN
        } else {
            len
        };
        let piece = vstd::slice::slice_subrange(payload, start, end);
        let ghost expected = data_message(fragment(payload@, i as nat));
        assert(piece@ =~= expected.payload);
        let msg = OutboundPlainMessage {
            typ: ContentType::ApplicationData,
            version: ProtocolVersion::TLSv1_2,
            payload: OutboundChunks::Single(piece),
        };
        assert(msg@ == expected);
        proof {
            lemma_after_records(start_layer, i as nat);
        }
        let bytes = layer.encrypt_outgoing(msg);
        proof {
            assert((i + 1) * RECORD_OVERHEAD <= n * RECORD_OVERHEAD);
            assert(written + bytes@.len() <= room);
            assert(records_of(start_layer, payload@, (i + 1) as nat) == records_of(
                start_layer,
                payload@,
                i as nat,
            ) + bytes@);
        }
        copy_at(out, written, bytes.as_slice());
        assert(out@ =~= before.take(pos as int) + records_of(start_layer, payload@, (i + 1) as nat)
            + before.skip(written + bytes@.len()));
        written += bytes.len();
        i += 1;
    }
    written
}

impl CommonState {
    /// Application data is only exchanged under a key, and the parts are well formed.
    pub open spec fn wf(&self) -> bool {
        &&& self.record_layer.wf()
        &&& self.received_plaintext.wf()
        &&& self.sendable_tls.wf()
        &&& self.may_send_application_data ==> self.record_layer@.encrypter is Some
        &&& self.may_receive_application_data ==> self.record_layer@.decrypter is Some
    }

    /// A connection on which nothing has happened.
    pub fn new(side: Side) -> (r: Self)
        ensures
            r.wf(),
            r@ == CommonView::initial(side),
    {
        Self {
            side,
            negotiated_version: None,
            record_layer: RecordLayer::new(),
            may_send_application_data: false,
            may_receive_application_data: false,
            has_sent_close_notify: false,
            has_received_close_notify: false,
            sent_fatal_alert: false,
            aligned_handshake: true,
            refresh_traffic_keys_pending: false,
            received_plaintext: ChunkVecBuffer::new(),
            sendable_tls: ChunkVecBuffer::new(),
            queued_key_update_message: None,
        }
    }

    /// Was TLS 1.3 negotiated?
    pub fn is_tls13(&self) -> (r: bool)
        ensures
            r == self@.is_tls13(),
    {
        match self.negotiated_version {
            Some(ProtocolVersion::TLSv1_3) => true,
            _ => false,
        }
    }

    /// A key update that is waiting joins the records to be sent.
    fn perhaps_write_key_update(&mut self)
        requires
            old(self).wf(),
        ensures
            final(self).wf(),
            final(self)@ == old(self)@.with_key_update_written(),
    {
        match self.queued_key_update_message.take() {
            Some(message) => {
                self.sendable_tls.append(message);
            },
            None => {},
        }
    }

    /// A record joins the records to be sent, behind a key update that is waiting.
    fn queue_tls_message(&mut self, bytes: Vec<u8>)
        requires
            old(self).wf(),
        ensures
            final(self).wf(),
            final(self)@ == old(self)@.with_record(bytes@),
    {
        self.perhaps_write_key_update();
        self.sendable_tls.append(bytes);
    }

    /// Encrypts a message; its record joins the records to be sent.
    fn queue_encrypted(&mut self, msg: OutboundPlainMessage<'_>)
        requires
            old(self).wf(),
            old(self)@.record_layer.encrypter is Some,
            !old(self)@.record_layer.exhausted(),
            msg@.payload.len() <= MAX_FRAGMENT_LEN,
        ensures
            final(self).wf(),
            final(self)@ == old(self)@.with_encrypted(msg@),
            record_opens(old(self)@.record_layer, msg@),
    {
        let bytes = self.record_layer.encrypt_outgoing(msg);
        self.queue_tls_message(bytes);
    }

    /// Sends an alert.
    fn send_alert(&mut self, level: AlertLevel, description: AlertDescription)
        requires
            old(self).wf(),
        ensures
            final(self).wf(),
            final(self)@ == old(self)@.with_alert(level, description),
    {
        let payload: [u8; 2] = [level.to_byte(), description.to_byte()];
        let ghost expected = alert_message(level, description);
        assert(payload@ =~= expected.payload);
        if !self.record_layer.is_encrypting() {
            let m = OutboundOpaqueMessage::new(
                ContentType::Alert,
                ProtocolVersion::TLSv1_2,
                vstd::slice::slice_to_vec(vstd::array::array_as_slice(&payload)),
            );
            self.queue_tls_message(m.encode());
        } else if self.record_layer.write_seq < SEQ_HARD_LIMIT {
            let msg = OutboundPlainMessage {
                typ: ContentType::Alert,
                version: ProtocolVersion::TLSv1_2,
                payload: OutboundChunks::Single(vstd::array::array_as_slice(&payload)),
            };
            assert(msg@ == expected);
            self.queue_encrypted(msg);
        }
    }

    /// Sends a fatal alert, and hands the error back that it is sent for.
    pub fn send_fatal_alert(&mut self, description: AlertDescription, err: Error) -> (r: Error)
        requires
            old(self).wf(),
        ensures
            final(self).wf(),
            final(self)@ == old(self)@.with_fatal_alert(description),
            r == err,
    {
        proof {
            reveal(CommonView::with_fatal_alert);
        }
        self.sent_fatal_alert = true;
        self.send_alert(AlertLevel::Fatal, description);
        err
    }

    /// Sends a close_notify alert, unless one was sent before.
    pub fn send_close_notify(&mut self)
        requires
            old(self).wf(),
        ensures
            final(self).wf(),
            final(self)@ == old(self)@.with_close_notify(),
    {
        if !self.has_sent_close_notify {
            self.has_sent_close_notify = true;
            self.send_alert(AlertLevel::Warning, AlertDescription::CloseNotify);
        }
    }

    /// Sends a handshake message that fits into one record, on an encrypted connection.
    pub fn send_handshake_message(&mut self, payload: &[u8])
        requires
            old(self).wf(),
            old(self)@.record_layer.encrypter is Some,
            payload@.len() <= MAX_FRAGMENT_LEN,
        ensures
            final(self).wf(),
            final(self)@ == old(self)@.with_handshake_message(payload@),
            old(self)@.is_tls13() && !old(self)@.record_layer.exhausted() ==> record_opens(
                old(self)@.record_layer,
                handshake_message(payload@),
            ),
    {
        let msg = OutboundPlainMessage {
            typ: ContentType::Handshake,
            version: ProtocolVersion::TLSv1_3,
            payload: OutboundChunks::Single(payload),
        };
        match self.record_layer.pre_encrypt_action(0) {
            PreEncryptAction::Nothing => {},
            PreEncryptAction::RefreshOrClose => {
                if self.is_tls13() {
                    self.refresh_traffic_keys_pending = true;
                } else {
                    self.send_close_notify();
                    return;
                }
            },
            PreEncryptAction::Refuse => {
                return;
            },
        }
        self.queue_encrypted(msg);
    }

    /// Makes sure that `n` more records can be encrypted.
    fn check_fragments(&mut self, n: u64) -> (r: Result<(), EncryptError>)
        requires
            old(self).wf(),
        ensures
            final(self).wf(),
            (final(self)@, r) == old(self)@.before_fragments(n as nat),
    {
        let seq: u64 = self.record_layer.write_seq;
        let max: u64 = self.record_layer.write_seq_max;
        if seq <= max && max - seq < n {
            if self.is_tls13() {
                self.refresh_traffic_keys_pending = true;
            } else {
                self.send_close_notify();
                return Err(EncryptError::EncryptExhausted);
            }
        }
        if seq > SEQ_HARD_LIMIT || n > SEQ_HARD_LIMIT - seq {
            if n == 0 {
                assert(seq > SEQ_HARD_LIMIT);
            }
            return Err(EncryptError::EncryptExhausted);
        }
        Ok(())
    }

    /// Makes sure that the records that are waiting and `more` bytes fit into `room` bytes.
    fn check_required_size(&self, more: u128, room: usize) -> (r: Result<(), EncryptError>)
        requires
            0 < more <= 0xffff_ffff_ffff_ffff_ffff_ffff,
        ensures
            match r {
                Ok(()) => self@.required_size(more as nat) <= room,
                Err(e) => {
                    &&& self@.required_size(more as nat) > room
                    &&& e == EncryptError::InsufficientSize(
                        InsufficientSizeError {
                            required_size: clamped(self@.required_size(more as nat)),
                        },
                    )
                },
            },
    {
        let required: u128 = self.sendable_tls.len() as u128 + more;
        if required > room as u128 {
            let required_size: usize = if required > usize::MAX as u128 {
                usize::MAX
            } else {
                required as usize
            };
            return Err(EncryptError::InsufficientSize(InsufficientSizeError { required_size }));
        }
        Ok(())
    }

    /// Writes the records that are waiting into `outgoing_tls`, and `payload` encrypted behind
    /// them; says where the records end.
    fn write_ready(&mut self, payload: &[u8], outgoing_tls: &mut [u8]) -> (r: usize)
        requires
            old(self).wf(),
            old(self)@.record_layer.encrypter is Some,
            payload@.len() > 0,
            old(self)@.record_layer.write_seq + fragment_count(payload@.len()) <= SEQ_HARD_LIMIT,
            old(self)@.required_size(encrypted_size(payload@.len())) <= old(outgoing_tls)@.len(),
        ensures
            final(self).wf(),
            final(self)@ == (CommonView {
                sendable_tls: Seq::empty(),
                record_layer: after_records(
                    old(self)@.record_layer,
                    fragment_count(payload@.len()),
                ),
                ..old(self)@
            }),
            records_open(
                old(self)@.record_layer,
                payload@,
                fragment_count(payload@.len()),
            ),
            ({
                let bytes = flat(old(self)@.sendable_tls) + records_of(
                    old(self)@.record_layer,
                    payload@,
                    fragment_count(payload@.len()),
                );
                &&& r == bytes.len()
                &&& r <= old(outgoing_tls)@.len()
                &&& final(outgoing_tls)@ == bytes + old(outgoing_tls)@.skip(r as int)
            }),
    {
        let ghost ready = self@;
        let ghost before = outgoing_tls@;
        let written: usize = self.sendable_tls.drain_to(outgoing_tls);
        proof {
            crate::msgs::buffers::lemma_flat_len(ready.sendable_tls);
            lemma_after_records(ready.record_layer, fragment_count(payload@.len()));
        }
        let total: usize = write_fragments(
            &mut self.record_layer,
            payload,
            outgoing_tls,
            written,
        );
        assert(outgoing_tls@ =~= (flat(ready.sendable_tls) + records_of(
            ready.record_layer,
            payload@,
            fragment_count(payload@.len()),
        )) + before.skip(total as int));
        total
    }

    /// Encrypts `payload` into `outgoing_tls`, behind the records that are waiting.
    ///
    /// Nothing is written where it does not all fit, or where no sequence numbers are left.
    pub fn write_plaintext(&mut self, payload: &[u8], outgoing_tls: &mut [u8]) -> (r: Result<
        usize,
        EncryptError,
    >)
        requires
            old(self).wf(),
            old(self)@.record_layer.encrypter is Some,
        ensures
            final(self).wf(),
            final(self)@ == old(self)@.writing(payload@, old(outgoing_tls)@.len()).0,
            written_as(
                r,
                old(self)@.writing(payload@, old(outgoing_tls)@.len()).1,
                old(outgoing_tls)@,
                final(outgoing_tls)@,
            ),
            r is Ok ==> records_open(
                old(self)@.record_layer,
                payload@,
                fragment_count(payload@.len()),
            ),
    {
        if payload.len() == 0 {
            assert(outgoing_tls@ =~= Seq::<u8>::empty() + outgoing_tls@.skip(0));
            return Ok(0);
        }
        let len: usize = payload.len();
        let n: usize = (len - 1) / MAX_FRAGMENT_LEN + 1;
        assert(n == fragment_count(payload@.len()));
        match self.check_fragments(n as u64) {
            Ok(_) => {},
            Err(e) => {
                return Err(e);
            },
        }
        self.perhaps_write_key_update();
        let size: u128 = len as u128 + (n as u128) * (RECORD_OVERHEAD as u128);
        match self.check_required_size(size, outgoing_tls.len()) {
            Ok(_) => {},
            Err(e) => {
                return Err(e);
            },
        }
        Ok(self.write_ready(payload, outgoing_tls))
    }

    /// Encrypts a close_notify alert into `outgoing_tls`, behind the records that are waiting.
    ///
    /// A second call writes nothing.
    pub fn eager_send_close_notify(&mut self, outgoing_tls: &mut [u8]) -> (r: Result<
        usize,
        EncryptError,
    >)
        requires
            old(self).wf(),
            old(self)@.record_layer.encrypter is Some,
        ensures
            final(self).wf(),
            final(self)@ == old(self)@.closing(old(outgoing_tls)@.len()).0,
            written_as(
                r,
                old(self)@.closing(old(outgoing_tls)@.len()).1,
                old(outgoing_tls)@,
                final(outgoing_tls)@,
            ),
            r is Ok && !old(self)@.has_sent_close_notify ==> record_opens(
                old(self)@.record_layer,
                close_notify_message(),
            ),
    {
        if self.has_sent_close_notify {
            assert(outgoing_tls@ =~= Seq::<u8>::empty() + outgoing_tls@.skip(0));
            return Ok(0);
        }
        if self.record_layer.write_seq >= SEQ_HARD_LIMIT {
            return Err(EncryptError::EncryptExhausted);
        }
        self.perhaps_write_key_update();
        let payload: [u8; 2] = [
            AlertLevel::Warning.to_byte(),
            AlertDescription::CloseNotify.to_byte(),
        ];
        let ghost expected = alert_message(AlertLevel::Warning, AlertDescription::CloseNotify);
        assert(payload@ =~= expected.payload);
        let size: usize = self.record_layer.encrypted_len(2);
        match self.check_required_size(size as u128, outgoing_tls.len()) {
            Ok(_) => {},
            Err(e) => {
                return Err(e);
            },
        }
        let ghost ready = self@;
        let ghost before = outgoing_tls@;
        self.has_sent_close_notify = true;
        let written: usize = self.sendable_tls.drain_to(outgoing_tls);
        proof {
            crate::msgs::buffers::lemma_flat_len(ready.sendable_tls);
        }
        let msg = OutboundPlainMessage {
            typ: ContentType::Alert,
            version: ProtocolVersion::TLSv1_2,
            payload: OutboundChunks::Single(vstd::array::array_as_slice(&payload)),
        };
        assert(msg@ == expected);
        let bytes = self.record_layer.encrypt_outgoing(msg);
        copy_at(outgoing_tls, written, bytes.as_slice());
        assert(outgoing_tls@ =~= (flat(ready.sendable_tls) + ready.record_layer.encrypted(expected))
            + before.skip(written + bytes@.len()));
        Ok(written + bytes.len())
    }
}

} // verus!
