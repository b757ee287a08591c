//! From records to messages, and from messages to the protocol state.

use vstd::prelude::*;

use crate::conn::common_state::{CommonState, CommonView};
use crate::conn::state::{is_valid_ccs, parse, parsed, Message, MessageView, SideData, State};
use crate::enums::{AlertDescription, AlertLevel, ContentType, ProtocolVersion};
use crate::error::{Error, PeerMisbehaved};
use crate::msgs::buffers::BufferProgress;
use crate::msgs::deframer::{framed, wire_len, DeframerIterImmut, Framed};
use crate::msgs::handshake_buffer::{
    aligned, message_ready, overflow_error, HandshakeBuffer, HandshakeBufferView,
};
use crate::msgs::message::{
    InboundOpaqueMessage, InboundOpaqueMessageImmut, InboundPlainMessage, PlainMessageView,
    HEADER_LEN,
};

verus! {

/// What becomes of the state when a record could not be opened: the peer is told why, where that
/// is its business.
pub open spec fn failed_deframe(common: CommonView, e: Error) -> CommonView {
    match e {
        Error::InvalidMessage(_) => common.with_fatal_alert(AlertDescription::DecodeError),
        Error::PeerSentOversizedRecord => common.with_fatal_alert(
            AlertDescription::RecordOverflow,
        ),
        Error::DecryptError => common.with_fatal_alert(AlertDescription::BadRecordMac),
        _ => common,
    }
}

/// May this record be in the clear though incoming records are encrypted?
///
/// Change cipher spec records always are. So is an alert of a peer that could not set up its keys.
/// Neither may come in the middle of a handshake message.
pub open spec fn plaintext_allowed(
    common: CommonView,
    record: PlainMessageView,
    hs_active: bool,
) -> bool {
    &&& !hs_active
    &&& match record.typ {
        ContentType::ChangeCipherSpec => true,
        ContentType::Alert => common.is_tls13() && !common.record_layer.has_decrypted
            && record.payload.len() <= 2,
        _ => false,
    }
}

/// The message in a record. `room` is how much room there is for its plaintext; without it, the
/// record is opened in place.
#[verifier::opaque]
pub open spec fn taken(
    common: CommonView,
    record: PlainMessageView,
    hs_active: bool,
    room: Option<nat>,
) -> (Result<PlainMessageView, Error>, CommonView) {
    if common.record_layer.decrypter is None || plaintext_allowed(common, record, hs_active) {
        (Ok(record), common)
    } else {
        let opened = match room {
            Some(room) => common.record_layer.incoming_to(record.payload, room),
            None => common.record_layer.incoming(record.payload),
        };
        match opened {
            Ok(m) => (
                Ok(m),
                CommonView { record_layer: common.record_layer.after_decrypt(), ..common },
            ),
            Err(e) => (Err(e), failed_deframe(common, e)),
        }
    }
}

/// What taking the message out of a record leaves in the buffer `out`: records in the clear do not
/// touch it.
pub open spec fn left_by_record(
    common: CommonView,
    record: PlainMessageView,
    hs_active: bool,
    out: Seq<u8>,
) -> Seq<u8> {
    if common.record_layer.decrypter is None || plaintext_allowed(common, record, hs_active) {
        out
    } else {
        common.record_layer.incoming_left(record.payload, out)
    }
}

/// What taking the message out of a record makes of its payload where the record is opened in
/// place: records in the clear stay as they are.
pub open spec fn payload_left(
    common: CommonView,
    record: PlainMessageView,
    hs_active: bool,
) -> Seq<u8> {
    if common.record_layer.decrypter is None || plaintext_allowed(common, record, hs_active) {
        record.payload
    } else {
        common.record_layer.incoming_after(record.payload)
    }
}

/// What is found in a stream of records.
pub enum Found {
    /// No complete message.
    Nothing,
    /// The next message.
    Message(PlainMessageView),
    /// Something that ends the connection.
    Failed(Error),
}

/// What is found in a stream of records, and what is left behind.
pub struct Deframed {
    pub found: Found,
    pub common: CommonView,
    pub hs: HandshakeBufferView,
    /// How many bytes of the stream were used up.
    pub consumed: nat,
    /// How many of them belong to the message itself, where it came in a record of its own.
    pub last: nat,
}

/// The error of a record that came in the middle of a handshake message.
pub open spec fn interleaved_error() -> Error {
    Error::PeerMisbehaved(PeerMisbehaved::MessageInterleavedWithHandshakeMessage)
}

/// What the first record of a stream comes to: there is something to report, or it was a handshake
/// record that was gathered.
pub enum FirstRecord {
    Done(Deframed),
    Gathered { common: CommonView, hs: HandshakeBufferView, consumed: nat },
}

/// Takes the first record of `input`, while no handshake message is complete.
#[verifier::opaque]
pub open spec fn first_record(
    common: CommonView,
    hs: HandshakeBufferView,
    input: Seq<u8>,
    room: Option<nat>,
) -> FirstRecord {
    let none = Deframed { found: Found::Nothing, common, hs, consumed: 0, last: 0 };
    match framed(input) {
        Framed::Incomplete => FirstRecord::Done(none),
        Framed::Invalid(e) => FirstRecord::Done(
            Deframed {
                found: Found::Failed(Error::InvalidMessage(e)),
                common: failed_deframe(common, Error::InvalidMessage(e)),
                ..none
            },
        ),
        Framed::Record(record) => match taken(common, record, hs.pending.len() > 0, room) {
            (Err(e), common) => FirstRecord::Done(
                Deframed { found: Found::Failed(e), common, ..none },
            ),
            (Ok(m), common) => {
                let n = wire_len(record);
                if m.typ == ContentType::Handshake {
                    let appended = hs.appended(m.payload, m.version);
                    if hs.fits(m.payload.len()) {
                        FirstRecord::Gathered { common, hs: appended, consumed: n }
                    } else {
                        FirstRecord::Done(
                            Deframed {
                                found: Found::Failed(overflow_error()),
                                common,
                                hs: appended,
                                consumed: n,
                                last: 0,
                            },
                        )
                    }
                } else if hs.pending.len() > 0 {
                    FirstRecord::Done(
                        Deframed {
                            found: Found::Failed(interleaved_error()),
                            common: common.with_fatal_alert(AlertDescription::UnexpectedMessage),
                            ..none
                        },
                    )
                } else {
                    FirstRecord::Done(
                        Deframed { found: Found::Message(m), common, hs, consumed: n, last: n },
                    )
                }
            },
        },
    }
}

/// What the first record of `input` leaves in the buffer `out`, while no handshake message is
/// complete.
pub open spec fn left_by_first_record(
    common: CommonView,
    hs: HandshakeBufferView,
    input: Seq<u8>,
    out: Seq<u8>,
) -> Seq<u8> {
    match framed(input) {
        Framed::Record(record) => left_by_record(common, record, hs.pending.len() > 0, out),
        _ => out,
    }
}

/// What becomes of `input` where its first record is opened in place, while no handshake message
/// is complete: all but the payload of that record stays as it is.
pub open spec fn first_record_left(
    common: CommonView,
    hs: HandshakeBufferView,
    input: Seq<u8>,
) -> Seq<u8> {
    match framed(input) {
        Framed::Record(record) => input.take(HEADER_LEN as int) + payload_left(
            common,
            record,
            hs.pending.len() > 0,
        ) + input.skip(wire_len(record) as int),
        _ => input,
    }
}

/// Looks for the next message: first among the handshake messages that are complete, and else in
/// the records of `input`, of which handshake records are gathered until a message is complete.
#[verifier::opaque]
pub open spec fn deframed(
    common: CommonView,
    hs: HandshakeBufferView,
    input: Seq<u8>,
    room: Option<nat>,
) -> Deframed
    decreases input.len(),
{
    if message_ready(hs.pending) {
        Deframed {
            found: Found::Message(hs.front()),
            common: CommonView {
                aligned_handshake: aligned(hs.advanced().pending),
                ..common
            },
            hs: hs.advanced(),
            consumed: 0,
            last: 0,
        }
    } else {
        match first_record(common, hs, input, room) {
            FirstRecord::Done(d) => d,
            FirstRecord::Gathered { common: c, hs: h, consumed } => {
                proof {
                    lemma_first_record(common, hs, input, room);
                }
                let rest = deframed(c, h, input.skip(consumed as int), room);
                Deframed { consumed: consumed + rest.consumed, ..rest }
            },
        }
    }
}

/// What looking for the next message leaves in the buffer `out`, into which records are opened.
#[verifier::opaque]
pub open spec fn left_by_deframing(
    common: CommonView,
    hs: HandshakeBufferView,
    input: Seq<u8>,
    out: Seq<u8>,
) -> Seq<u8>
    decreases input.len(),
{
    if message_ready(hs.pending) {
        out
    } else {
        let left = left_by_first_record(common, hs, input, out);
        match first_record(common, hs, input, Some(out.len())) {
            FirstRecord::Done(_) => left,
            FirstRecord::Gathered { common: c, hs: h, consumed } => {
                proof {
                    lemma_first_record(common, hs, input, Some(out.len()));
                }
                left_by_deframing(c, h, input.skip(consumed as int), left)
            },
        }
    }
}

/// What looking for the next message makes of `input`, whose records are opened in place: those
/// that were taken are opened, and what follows them stays as it is.
#[verifier::opaque]
pub open spec fn input_left(
    common: CommonView,
    hs: HandshakeBufferView,
    input: Seq<u8>,
) -> Seq<u8>
    decreases input.len(),
{
    if message_ready(hs.pending) {
        input
    } else {
        let left = first_record_left(common, hs, input);
        match first_record(common, hs, input, None) {
            FirstRecord::Done(_) => left,
            FirstRecord::Gathered { common: c, hs: h, consumed } => {
                proof {
                    lemma_first_record(common, hs, input, None);
                }
                left.take(consumed as int) + input_left(c, h, input.skip(consumed as int))
            },
        }
    }
}

/// The first record is opened in place without touching what follows it. What is incomplete is not
/// touched at all.
pub proof fn lemma_first_record_left(
    common: CommonView,
    hs: HandshakeBufferView,
    input: Seq<u8>,
)
    ensures
        first_record_left(common, hs, input).len() == input.len(),
        match first_record(common, hs, input, None) {
            FirstRecord::Done(d) => {
                &&& d.consumed <= input.len()
                &&& !(d.found is Failed) ==> first_record_left(common, hs, input).skip(
                    d.consumed as int,
                ) == input.skip(d.consumed as int)
            },
            FirstRecord::Gathered { consumed, .. } => {
                &&& 0 < consumed <= input.len()
                &&& first_record_left(common, hs, input).skip(consumed as int) == input.skip(
                    consumed as int,
                )
            },
        },
{
    reveal(first_record);
    let left = first_record_left(common, hs, input);
    if let Framed::Record(record) = framed(input) {
        let n = wire_len(record) as int;
        assert(left.skip(n) =~= input.skip(n));
    }
}

/// Looking for a message keeps the length of the input, and unless it fails leaves what follows the
/// bytes it has used up as it is.
pub proof fn lemma_input_left(common: CommonView, hs: HandshakeBufferView, input: Seq<u8>)
    ensures
        input_left(common, hs, input).len() == input.len(),
        ({
            let d = deframed(common, hs, input, None);
            &&& d.consumed <= input.len()
            &&& !(d.found is Failed) ==> input_left(common, hs, input).skip(d.consumed as int)
                == input.skip(d.consumed as int)
        }),
    decreases input.len(),
{
    reveal_with_fuel(deframed, 1);
    reveal_with_fuel(input_left, 1);
    if !message_ready(hs.pending) {
        lemma_first_record(common, hs, input, None);
        lemma_first_record_left(common, hs, input);
        if let FirstRecord::Gathered { common: c, hs: h, consumed } = first_record(
            common,
            hs,
            input,
            None,
        ) {
            let rest = input.skip(consumed as int);
            lemma_input_left(c, h, rest);
            let d = deframed(c, h, rest, None);
            if !(d.found is Failed) {
                let n = (consumed + d.consumed) as int;
                assert(input.skip(n) =~= rest.skip(d.consumed as int));
                assert(input_left(common, hs, input).skip(n) =~= input_left(c, h, rest).skip(
                    d.consumed as int,
                ));
            }
        }
    }
}

/// A record uses up no more than there is, and a message or a handshake record is not empty.
pub proof fn lemma_first_record(
    common: CommonView,
    hs: HandshakeBufferView,
    input: Seq<u8>,
    room: Option<nat>,
)
    ensures
        match first_record(common, hs, input, room) {
            FirstRecord::Done(d) => {
                &&& d.consumed <= input.len()
                &&& d.last <= d.consumed
                &&& d.found is Message <==> d.last > 0
            },
            FirstRecord::Gathered { consumed, .. } => 0 < consumed <= input.len(),
        },
{
    reveal(first_record);
}

/// No more is used up than there is; and a message uses up either bytes of the stream or bytes
/// that were gathered before.
pub proof fn lemma_deframed(
    common: CommonView,
    hs: HandshakeBufferView,
    input: Seq<u8>,
    room: Option<nat>,
)
    ensures
        ({
            let d = deframed(common, hs, input, room);
            &&& d.consumed <= input.len()
            &&& d.last <= d.consumed
            &&& d.found is Message ==> d.consumed > 0 || (d.hs.pending.len() < hs.pending.len())
        }),
    decreases input.len(),
{
    reveal_with_fuel(deframed, 1);
    if !message_ready(hs.pending) {
        lemma_first_record(common, hs, input, room);
        if let FirstRecord::Gathered { common: c, hs: h, consumed } = first_record(
            common,
            hs,
            input,
            room,
        ) {
            lemma_deframed(c, h, input.skip(consumed as int), room);
        }
    }
}

/// Does looking for a message leave these parts alone?
pub open spec fn untouched(before: CommonView, after: CommonView) -> bool {
    &&& after.received_plaintext == before.received_plaintext
    &&& after.has_received_close_notify == before.has_received_close_notify
    &&& after.has_sent_close_notify == before.has_sent_close_notify
    &&& after.may_receive_application_data == before.may_receive_application_data
    &&& after.may_send_application_data == before.may_send_application_data
    &&& after.record_layer.decrypter == before.record_layer.decrypter
}

/// Looking for a message does not by itself close the connection or take data in.
pub proof fn lemma_deframed_untouched(
    common: CommonView,
    hs: HandshakeBufferView,
    input: Seq<u8>,
    room: Option<nat>,
)
    ensures
        untouched(common, deframed(common, hs, input, room).common),
    decreases input.len(),
{
    reveal_with_fuel(deframed, 1);
    if !message_ready(hs.pending) {
        lemma_first_record(common, hs, input, room);
        lemma_first_record_untouched(common, hs, input, room);
        if let FirstRecord::Gathered { common: c, hs: h, consumed } = first_record(
            common,
            hs,
            input,
            room,
        ) {
            lemma_deframed_untouched(c, h, input.skip(consumed as int), room);
        }
    }
}

proof fn lemma_failed_untouched(common: CommonView, e: Error)
    ensures
        untouched(common, failed_deframe(common, e)),
{
    crate::conn::common_state::lemma_fatal_alert(common, AlertDescription::DecodeError);
    crate::conn::common_state::lemma_fatal_alert(common, AlertDescription::RecordOverflow);
    crate::conn::common_state::lemma_fatal_alert(common, AlertDescription::BadRecordMac);
}

proof fn lemma_first_record_untouched(
    common: CommonView,
    hs: HandshakeBufferView,
    input: Seq<u8>,
    room: Option<nat>,
)
    ensures
        match first_record(common, hs, input, room) {
            FirstRecord::Done(d) => untouched(common, d.common),
            FirstRecord::Gathered { common: c, .. } => untouched(common, c),
        },
{
    reveal(first_record);
    reveal(taken);
    match framed(input) {
        Framed::Incomplete => {},
        Framed::Invalid(e) => {
            lemma_failed_untouched(common, Error::InvalidMessage(e));
        },
        Framed::Record(record) => {
            let (r, c) = taken(common, record, hs.pending.len() > 0, room);
            if let Err(e) = r {
                lemma_failed_untouched(common, e);
            }
            crate::conn::common_state::lemma_fatal_alert(c, AlertDescription::UnexpectedMessage);
        },
    }
}

/// A message that does not lie in the buffer it came in.
#[derive(Debug)]
pub struct OwnedMessage {
    pub typ: ContentType,
    pub version: ProtocolVersion,
    pub payload: Vec<u8>,
}

impl View for OwnedMessage {
    type V = PlainMessageView;

    open spec fn view(&self) -> PlainMessageView {
        PlainMessageView { typ: self.typ, version: self.version, payload: self.payload@ }
    }
}

impl OwnedMessage {
    /// This message, borrowed.
    pub fn borrow(&self) -> (r: InboundPlainMessage<'_>)
        ensures
            r@ == self@,
    {
        InboundPlainMessage {
            typ: self.typ,
            version: self.version,
            payload: self.payload.as_slice(),
        }
    }
}

/// Tells the peer why a record could not be opened, where that is its business.
fn handle_deframe_error(common: &mut CommonState, e: Error) -> (r: Error)
    requires
        old(common).wf(),
    ensures
        final(common).wf(),
        final(common)@ == failed_deframe(old(common)@, e),
        r == e,
{
    match e {
        Error::InvalidMessage(_) => common.send_fatal_alert(AlertDescription::DecodeError, e),
        Error::PeerSentOversizedRecord => common.send_fatal_alert(
            AlertDescription::RecordOverflow,
            e,
        ),
        Error::DecryptError => common.send_fatal_alert(AlertDescription::BadRecordMac, e),
        _ => e,
    }
}

/// May this record be in the clear though incoming records are encrypted?
fn is_plaintext_allowed(
    common: &CommonState,
    record: &InboundOpaqueMessageImmut<'_>,
    hs_active: bool,
) -> (r: bool)
    ensures
        r == plaintext_allowed(common@, record@, hs_active),
{
    !hs_active && match record.typ {
        ContentType::ChangeCipherSpec => true,
        ContentType::Alert => common.is_tls13() && !common.record_layer.has_decrypted
            && record.payload.len() <= 2,
        _ => false,
    }
}

/// Takes the message out of a record. Where it was encrypted it is opened into `out`, and its
/// length is given; else its payload is that of the record.
fn take_record_to(
    common: &mut CommonState,
    record: &InboundOpaqueMessageImmut<'_>,
    hs_active: bool,
    out: &mut [u8],
) -> (r: Result<(ContentType, ProtocolVersion, Option<usize>), Error>)
    requires
        old(common).wf(),
    ensures
        final(common).wf(),
        final(out)@.len() == old(out)@.len(),
        final(out)@ == left_by_record(old(common)@, record@, hs_active, old(out)@),
        ({
            let (expected, after) = taken(
                old(common)@,
                record@,
                hs_active,
                Some(old(out)@.len()),
            );
            &&& final(common)@ == after
            &&& (after.record_layer.decrypter is Some) == (
            old(common)@.record_layer.decrypter is Some)
            &&& match (r, expected) {
                (Ok((typ, version, None)), Ok(m)) => {
                    &&& m == record@
                    &&& typ == m.typ && version == m.version
                    &&& old(common)@.record_layer.decrypter is Some ==> typ
                        != ContentType::ApplicationData
                },
                (Ok((typ, version, Some(n))), Ok(m)) => {
                    &&& n <= final(out)@.len()
                    &&& m == (PlainMessageView {
                        typ,
                        version,
                        payload: final(out)@.take(n as int),
                    })
                },
                (Err(e), Err(f)) => e == f,
                _ => false,
            }
        }),
{
    proof {
        reveal(taken);
    }
    if !common.record_layer.is_decrypting() || is_plaintext_allowed(common, record, hs_active) {
        return Ok((record.typ, record.version, None));
    }
    match common.record_layer.decrypt_incoming_to(record, out) {
        Err(e) => {
            proof {
                lemma_failed_deframe(common@, e);
            }
            Err(handle_deframe_error(common, e))
        },
        Ok(m) => Ok((m.typ, m.version, Some(m.payload.len()))),
    }
}

proof fn lemma_failed_deframe(common: CommonView, e: Error)
    ensures
        failed_deframe(common, e).record_layer.decrypter == common.record_layer.decrypter,
{
    crate::conn::common_state::lemma_fatal_alert(common, AlertDescription::DecodeError);
    crate::conn::common_state::lemma_fatal_alert(common, AlertDescription::RecordOverflow);
    crate::conn::common_state::lemma_fatal_alert(common, AlertDescription::BadRecordMac);
}

/// Refuses a record that came in the middle of a handshake message.
fn refuse_interleaved(common: &mut CommonState) -> (r: Error)
    requires
        old(common).wf(),
    ensures
        final(common).wf(),
        final(common)@ == old(common)@.with_fatal_alert(AlertDescription::UnexpectedMessage),
        r == interleaved_error(),
{
    common.send_fatal_alert(
        AlertDescription::UnexpectedMessage,
        Error::PeerMisbehaved(PeerMisbehaved::MessageInterleavedWithHandshakeMessage),
    )
}

/// Where the message of a record lies.
#[derive(Clone, Copy, Debug)]
enum Place {
    /// In the caller's buffer, between these bytes of it.
    Incoming(usize, usize),
    /// At the front of the buffer for plaintext, up to this byte of it.
    Opened(usize),
}

/// The bytes at a place.
spec fn bytes_at(place: Place, incoming: Seq<u8>, out: Seq<u8>) -> Seq<u8> {
    match place {
        Place::Incoming(start, end) => incoming.subrange(start as int, end as int),
        Place::Opened(len) => out.take(len as int),
    }
}

/// What the first record of a stream comes to.
enum RecordStep {
    Nothing,
    Gathered,
    Message { typ: ContentType, version: ProtocolVersion, place: Place },
}

/// Takes the first record of `incoming`, behind what was processed of it, while no handshake
/// message is complete.
fn record_step_to(
    common: &mut CommonState,
    incoming: &[u8],
    out: &mut [u8],
    progress: &mut BufferProgress,
    hs: &mut HandshakeBuffer,
) -> (r: Result<RecordStep, Error>)
    requires
        old(common).wf(),
        old(hs).wf(),
        old(progress).processed <= incoming@.len(),
    ensures
        final(common).wf(),
        final(hs).wf(),
        final(out)@.len() == old(out)@.len(),
        final(out)@ == left_by_first_record(
            old(common)@,
            old(hs)@,
            incoming@.skip(old(progress).processed as int),
            old(out)@,
        ),
        final(progress).discard == old(progress).discard,
        (final(common)@.record_layer.decrypter is Some) == (
        old(common)@.record_layer.decrypter is Some),
        match first_record(
            old(common)@,
            old(hs)@,
            incoming@.skip(old(progress).processed as int),
            Some(old(out)@.len()),
        ) {
            FirstRecord::Gathered { common: c, hs: h, consumed } => {
                &&& r matches Ok(RecordStep::Gathered)
                &&& final(common)@ == c
                &&& final(hs)@ == h
                &&& final(progress).processed == old(progress).processed + consumed
            },
            FirstRecord::Done(d) => {
                &&& final(common)@ == d.common
                &&& final(hs)@ == d.hs
                &&& final(progress).processed == old(progress).processed + d.consumed
                &&& match d.found {
                    Found::Nothing => r matches Ok(RecordStep::Nothing),
                    Found::Failed(e) => r matches Err(f) && e == f,
                    Found::Message(m) => {
                        &&& r matches Ok(RecordStep::Message { typ, version, place })
                        &&& match place {
                            Place::Incoming(start, end) => start <= end <= incoming@.len(),
                            Place::Opened(len) => len <= final(out)@.len(),
                        }
                        &&& m == (PlainMessageView {
                            typ,
                            version,
                            payload: bytes_at(place, incoming@, final(out)@),
                        })
                        &&& typ == ContentType::ApplicationData
                            && old(common)@.record_layer.decrypter is Some ==> place is Opened
                    },
                }
            },
        },
{
    proof {
        reveal(first_record);
    }
    let hs_active = hs.is_active();
    let start: usize = progress.processed;
    let rest = vstd::slice::slice_subrange(incoming, start, incoming.len());
    assert(rest@ =~= incoming@.skip(start as int));
    let mut iter = DeframerIterImmut::new(rest);
    let record = match iter.next() {
        None => {
            return Ok(RecordStep::Nothing);
        },
        Some(Err(e)) => {
            proof {
                lemma_failed_deframe(common@, e);
            }
            return Err(handle_deframe_error(common, e));
        },
        Some(Ok(record)) => record,
    };
    let n: usize = iter.bytes_consumed();
    let (typ, version, opened) = match take_record_to(common, &record, hs_active, out) {
        Err(e) => {
            return Err(e);
        },
        Ok(taken) => taken,
    };
    let place = match opened {
        Some(len) => Place::Opened(len),
        None => Place::Incoming(start + HEADER_LEN, start + n),
    };
    assert(record.payload@ =~= incoming@.subrange(start + HEADER_LEN, start + n));
    if typ == ContentType::Handshake {
        progress.add_processed(n);
        let payload = match place {
            Place::Opened(len) => vstd::slice::slice_subrange(out, 0, len),
            Place::Incoming(..) => record.payload,
        };
        assert(payload@ =~= bytes_at(place, incoming@, out@));
        match hs.append(payload, version) {
            Ok(_) => Ok(RecordStep::Gathered),
            Err(e) => Err(e),
        }
    } else if hs_active {
        proof {
            crate::conn::common_state::lemma_fatal_alert(
                common@,
                AlertDescription::UnexpectedMessage,
            );
        }
        Err(refuse_interleaved(common))
    } else {
        progress.add_processed(n);
        Ok(RecordStep::Message { typ, version, place })
    }
}

/// Looks for the next message in `incoming`, behind what was processed of it; records are opened
/// into `out`.
///
/// A message lies in the handshake buffer, in `incoming` or at the front of `out`; application
/// data that was encrypted lies at the front of `out`.
#[verifier::rlimit(40)]
pub fn deframe_to<'b>(
    common: &mut CommonState,
    incoming: &'b [u8],
    out: &'b mut [u8],
    progress: &mut BufferProgress,
    hs: &'b mut HandshakeBuffer,
) -> (r: Result<Option<InboundPlainMessage<'b>>, Error>)
    requires
        old(common).wf(),
        old(hs).wf(),
        old(progress).processed <= incoming@.len(),
    ensures
        final(common).wf(),
        final(hs).wf(),
        final(out)@.len() == old(out)@.len(),
        final(out)@ == left_by_deframing(
            old(common)@,
            old(hs)@,
            incoming@.skip(old(progress).processed as int),
            old(out)@,
        ),
        final(progress).discard == old(progress).discard,
        (final(common)@.record_layer.decrypter is Some) == (
        old(common)@.record_layer.decrypter is Some),
        ({
            let d = deframed(
                old(common)@,
                old(hs)@,
                incoming@.skip(old(progress).processed as int),
                Some(old(out)@.len()),
            );
            &&& final(common)@ == d.common
            &&& final(hs)@ == d.hs
            &&& final(progress).processed == old(progress).processed + d.consumed
            &&& match d.found {
                Found::Nothing => r matches Ok(None),
                Found::Failed(e) => r matches Err(f) && e == f,
                Found::Message(v) => {
                    &&& r matches Ok(Some(m))
                    &&& m@ == v
                    &&& v.typ == ContentType::ApplicationData
                        && old(common)@.record_layer.decrypter is Some ==> {
                        &&& v.payload.len() <= final(out)@.len()
                        &&& v.payload == final(out)@.take(v.payload.len() as int)
                    }
                },
            }
        }),
{
    let ghost start = progress.processed;
    let ghost input = incoming@.skip(start as int);
    let ghost room = Some(out@.len());
    let ghost all = deframed(common@, hs@, input, room);
    let ghost left = left_by_deframing(common@, hs@, input, out@);
    let ghost encrypted = common@.record_layer.decrypter is Some;
    assert(input.skip(0) =~= input);
    loop
        invariant
            common.wf(),
            hs.wf(),
            start == old(progress).processed,
            start <= progress.processed <= incoming@.len(),
            input == incoming@.skip(start as int),
            all == deframed(old(common)@, old(hs)@, input, room),
            encrypted == (old(common)@.record_layer.decrypter is Some),
            progress.discard == old(progress).discard,
            room == Some(out@.len()),
            (common@.record_layer.decrypter is Some) == encrypted,
            all == (Deframed {
                consumed: (progress.processed - start) as nat + deframed(
                    common@,
                    hs@,
                    input.skip(progress.processed - start),
                    room,
                ).consumed,
                ..deframed(common@, hs@, input.skip(progress.processed - start), room)
            }),
            out@.len() == old(out)@.len(),
            left == left_by_deframing(old(common)@, old(hs)@, input, old(out)@),
            left == left_by_deframing(
                common@,
                hs@,
                input.skip(progress.processed - start),
                out@,
            ),
        decreases incoming@.len() - progress.processed,
    {
        let ghost rest = input.skip(progress.processed - start);
        let ghost pos = progress.processed;
        proof {
            reveal_with_fuel(deframed, 1);
            reveal_with_fuel(left_by_deframing, 1);
            assert(rest =~= incoming@.skip(progress.processed as int));
        }
        if hs.has_message_ready() {
            // Once a message is complete, the rest is aligned exactly where all of it is.
            common.aligned_handshake = hs.is_aligned();
            return Ok(hs.next_message());
        }
        proof {
            lemma_first_record(common@, hs@, rest, room);
        }
        match record_step_to(common, incoming, out, progress, hs) {
            Err(e) => {
                return Err(e);
            },
            Ok(RecordStep::Nothing) => {
                return Ok(None);
            },
            Ok(RecordStep::Message { typ, version, place }) => {
                let opened: &'b [u8] = out;
                let payload: &'b [u8] = match place {
                    Place::Opened(len) => vstd::slice::slice_subrange(opened, 0, len),
                    Place::Incoming(from, to) => vstd::slice::slice_subrange(incoming, from, to),
                };
                assert(payload@ =~= bytes_at(place, incoming@, opened@));
                return Ok(Some(InboundPlainMessage { typ, version, payload }));
            },
            Ok(RecordStep::Gathered) => {
                proof {
                    let n = progress.processed - pos;
                    assert(rest.skip(n) =~= input.skip(progress.processed - start));
                }
            },
        }
    }
}

/// Takes the message out of a record, which is opened where it lies where it was encrypted.
fn take_record(
    common: &mut CommonState,
    typ: ContentType,
    version: ProtocolVersion,
    payload: &mut [u8],
    hs_active: bool,
) -> (r: Result<OwnedMessage, Error>)
    requires
        old(common).wf(),
    ensures
        final(common).wf(),
        ({
            let record = PlainMessageView { typ, version, payload: old(payload)@ };
            let (expected, after) = taken(old(common)@, record, hs_active, None);
            &&& final(common)@ == after
            &&& final(payload)@ == payload_left(old(common)@, record, hs_active)
            &&& match (r, expected) {
                (Ok(m), Ok(v)) => m@ == v,
                (Err(e), Err(f)) => e == f,
                _ => false,
            }
        }),
{
    proof {
        reveal(taken);
    }
    let record = InboundOpaqueMessageImmut::new(typ, version, payload);
    if !common.record_layer.is_decrypting() || is_plaintext_allowed(common, &record, hs_active) {
        return Ok(
            OwnedMessage { typ, version, payload: vstd::slice::slice_to_vec(record.payload) },
        );
    }
    match common.record_layer.decrypt_incoming(InboundOpaqueMessage::new(typ, version, payload)) {
        Err(e) => Err(handle_deframe_error(common, e)),
        Ok(m) => Ok(
            OwnedMessage {
                typ: m.typ,
                version: m.version,
                payload: vstd::slice::slice_to_vec(m.payload),
            },
        ),
    }
}

/// Gathers the handshake messages of a buffer whose bytes stay with the caller until a message is
/// complete.
pub struct HandshakeDeframer {
    pub buffer: HandshakeBuffer,
    /// How many bytes at the front of the caller's buffer were processed and not yet released.
    pub outer_discard: usize,
}

impl HandshakeDeframer {
    /// An empty deframer.
    pub fn new() -> (r: Self)
        ensures
            r.buffer.wf(),
            r.buffer@ == HandshakeBufferView::empty(
                crate::msgs::handshake_buffer::DEFAULT_HS_BUFFER_SIZE as nat,
            ),
            r.outer_discard == 0,
    {
        Self { buffer: HandshakeBuffer::new(), outer_discard: 0 }
    }

    /// Where processing goes on in the caller's buffer.
    pub fn progress(&self) -> (r: BufferProgress)
        ensures
            r.processed == self.outer_discard,
            r.discard == 0,
    {
        BufferProgress::new(self.outer_discard)
    }
}

/// How many bytes of the caller's buffer are released with what was found, of `held` bytes that
/// were processed: a message in a record of its own releases that record, and the last handshake
/// message that is there releases all.
pub open spec fn released(d: Deframed, held: nat) -> nat {
    match d.found {
        Found::Message(m) => if d.last > 0 {
            d.last
        } else if d.hs.pending.len() == 0 {
            held
        } else {
            0
        },
        _ => 0,
    }
}

/// What the first record of a stream comes to: a message comes with the length of its record.
enum OwnedStep {
    Nothing,
    Gathered,
    Message(OwnedMessage, usize),
}

/// Takes the first record of `buffer`, behind what was processed of it, while no handshake message
/// is complete. The record is opened where it lies.
fn record_step(
    common: &mut CommonState,
    buffer: &mut [u8],
    progress: &mut BufferProgress,
    hs: &mut HandshakeDeframer,
) -> (r: Result<OwnedStep, Error>)
    requires
        old(common).wf(),
        old(hs).buffer.wf(),
        old(progress).processed <= old(buffer)@.len(),
        old(progress).processed == old(hs).outer_discard,
    ensures
        final(common).wf(),
        final(hs).buffer.wf(),
        final(buffer)@ == old(buffer)@.take(old(progress).processed as int) + first_record_left(
            old(common)@,
            old(hs).buffer@,
            old(buffer)@.skip(old(progress).processed as int),
        ),
        final(progress).discard == old(progress).discard,
        match first_record(
            old(common)@,
            old(hs).buffer@,
            old(buffer)@.skip(old(progress).processed as int),
            None,
        ) {
            FirstRecord::Gathered { common: c, hs: h, consumed } => {
                &&& r matches Ok(OwnedStep::Gathered)
                &&& final(common)@ == c
                &&& final(hs).buffer@ == h
                &&& final(progress).processed == old(progress).processed + consumed
                &&& final(hs).outer_discard == final(progress).processed
            },
            FirstRecord::Done(d) => {
                &&& final(common)@ == d.common
                &&& final(hs).buffer@ == d.hs
                &&& final(progress).processed == old(progress).processed + d.consumed
                &&& final(hs).outer_discard == final(progress).processed - d.last
                &&& match d.found {
                    Found::Nothing => r matches Ok(OwnedStep::Nothing),
                    Found::Failed(e) => r matches Err(f) && e == f,
                    Found::Message(v) => {
                        &&& r matches Ok(OwnedStep::Message(m, n))
                        &&& m@ == v
                        &&& n == d.last
                    },
                }
            },
        },
{
    proof {
        reveal(first_record);
    }
    let hs_active = hs.buffer.is_active();
    let start: usize = progress.processed;
    let ghost before = buffer@;
    let ghost input = before.skip(start as int);
    let rest = vstd::slice::slice_subrange(buffer, start, buffer.len());
    assert(rest@ =~= input);
    assert(before =~= before.take(start as int) + input);
    let mut iter = DeframerIterImmut::new(rest);
    let (typ, version) = match iter.next() {
        None => {
            return Ok(OwnedStep::Nothing);
        },
        Some(Err(e)) => {
            return Err(handle_deframe_error(common, e));
        },
        Some(Ok(record)) => (record.typ, record.version),
    };
    let n: usize = iter.bytes_consumed();
    let (_, unprocessed) = buffer.split_at_mut(start);
    assert(unprocessed@ =~= input);
    let (record, _) = unprocessed.split_at_mut(n);
    let (_, payload) = record.split_at_mut(HEADER_LEN);
    assert(payload@ =~= input.subrange(HEADER_LEN as int, n as int));
    let m = match take_record(common, typ, version, payload, hs_active) {
        Err(e) => {
            return Err(e);
        },
        Ok(m) => m,
    };
    if m.typ == ContentType::Handshake {
        progress.add_processed(n);
        hs.outer_discard = progress.processed();
        match hs.buffer.append(m.payload.as_slice(), m.version) {
            Ok(_) => Ok(OwnedStep::Gathered),
            Err(e) => Err(e),
        }
    } else if hs_active {
        Err(refuse_interleaved(common))
    } else {
        progress.add_processed(n);
        Ok(OwnedStep::Message(m, n))
    }
}

/// Looks for the next message in `buffer`, behind what was processed of it; records are opened
/// where they lie.
pub fn deframe(
    common: &mut CommonState,
    hs: &mut HandshakeDeframer,
    buffer: &mut [u8],
    progress: &mut BufferProgress,
) -> (r: Result<Option<OwnedMessage>, Error>)
    requires
        old(common).wf(),
        old(hs).buffer.wf(),
        old(progress).processed <= old(buffer)@.len(),
        old(progress).processed == old(hs).outer_discard,
        old(progress).discard == 0,
    ensures
        final(common).wf(),
        final(hs).buffer.wf(),
        final(buffer)@ == old(buffer)@.take(old(progress).processed as int) + input_left(
            old(common)@,
            old(hs).buffer@,
            old(buffer)@.skip(old(progress).processed as int),
        ),
        ({
            let d = deframed(
                old(common)@,
                old(hs).buffer@,
                old(buffer)@.skip(old(progress).processed as int),
                None,
            );
            let held = old(progress).processed as nat + d.consumed;
            &&& final(common)@ == d.common
            &&& final(hs).buffer@ == d.hs
            &&& held <= old(buffer)@.len()
            &&& released(d, held) <= held
            &&& final(progress).processed == held
            &&& final(progress).discard == released(d, held)
            &&& final(hs).outer_discard == held - released(d, held)
            &&& match d.found {
                Found::Nothing => r matches Ok(None),
                Found::Failed(e) => r matches Err(f) && e == f,
                Found::Message(v) => r matches Ok(Some(m)) && m@ == v,
            }
        }),
{
    let ghost start = progress.processed;
    let ghost before = buffer@;
    let ghost input = before.skip(start as int);
    let ghost all = deframed(common@, hs.buffer@, input, None);
    let ghost left = before.take(start as int) + input_left(common@, hs.buffer@, input);
    assert(input.skip(0) =~= input);
    loop
        invariant
            common.wf(),
            hs.buffer.wf(),
            start == old(progress).processed,
            start <= progress.processed <= before.len(),
            before == old(buffer)@,
            input == before.skip(start as int),
            buffer@.len() == before.len(),
            buffer@.skip(progress.processed as int) == before.skip(progress.processed as int),
            left == before.take(start as int) + input_left(old(common)@, old(hs).buffer@, input),
            left == buffer@.take(progress.processed as int) + input_left(
                common@,
                hs.buffer@,
                input.skip(progress.processed - start),
            ),
            all == deframed(old(common)@, old(hs).buffer@, input, None),
            progress.discard == 0,
            progress.processed == hs.outer_discard,
            all == (Deframed {
                consumed: (progress.processed - start) as nat + deframed(
                    common@,
                    hs.buffer@,
                    input.skip(progress.processed - start),
                    None,
                ).consumed,
                ..deframed(common@, hs.buffer@, input.skip(progress.processed - start), None)
            }),
        decreases before.len() - progress.processed,
    {
        let ghost rest = input.skip(progress.processed - start);
        let ghost pos = progress.processed;
        let ghost now = buffer@;
        proof {
            reveal_with_fuel(deframed, 1);
            reveal_with_fuel(input_left, 1);
            assert(rest =~= before.skip(pos as int));
            assert(now =~= now.take(pos as int) + rest);
        }
        if hs.buffer.has_message_ready() {
            common.aligned_handshake = hs.buffer.is_aligned();
            let message = match hs.buffer.next_message() {
                Some(m) => Some(
                    OwnedMessage {
                        typ: m.typ,
                        version: m.version,
                        payload: vstd::slice::slice_to_vec(m.payload),
                    },
                ),
                None => None,
            };
            if !hs.buffer.is_active() {
                progress.add_discard(hs.outer_discard);
                hs.outer_discard = 0;
            }
            return Ok(message);
        }
        proof {
            lemma_first_record(common@, hs.buffer@, rest, None);
            lemma_first_record_left(common@, hs.buffer@, rest);
        }
        let ghost opened = first_record_left(common@, hs.buffer@, rest);
        match record_step(common, buffer, progress, hs) {
            Err(e) => {
                return Err(e);
            },
            Ok(OwnedStep::Nothing) => {
                return Ok(None);
            },
            Ok(OwnedStep::Message(m, n)) => {
                progress.add_discard(n);
                return Ok(Some(m));
            },
            Ok(OwnedStep::Gathered) => {
                proof {
                    let n = progress.processed - pos;
                    assert(rest.skip(n) =~= input.skip(progress.processed - start));
                    assert(buffer@.skip(progress.processed as int) =~= opened.skip(n));
                    assert(before.skip(progress.processed as int) =~= rest.skip(n));
                    assert(buffer@.take(progress.processed as int) =~= now.take(pos as int)
                        + opened.take(n));
                    assert(left =~= buffer@.take(progress.processed as int) + input_left(
                        common@,
                        hs.buffer@,
                        rest.skip(n),
                    ));
                }
            },
        }
    }
}

impl CommonView {
    /// What an alert of the peer does.
    ///
    /// A close_notify alert ends what the peer sends, once application data may come at all.
    /// TLS 1.3 knows no other warnings but user_canceled; all other alerts end the connection.
    pub open spec fn alerted(self, level: AlertLevel, description: AlertDescription) -> (
        Self,
        Result<(), Error>,
    ) {
        let err = Error::AlertReceived(description);
        if level is Unknown {
            (self.with_fatal_alert(AlertDescription::IllegalParameter), Err(err))
        } else if self.may_receive_application_data && description
            == AlertDescription::CloseNotify {
            (CommonView { has_received_close_notify: true, ..self }, Ok(()))
        } else if level == AlertLevel::Warning {
            if self.is_tls13() && description != AlertDescription::UserCanceled {
                (self.with_fatal_alert(AlertDescription::DecodeError), Err(err))
            } else {
                (self, Ok(()))
            }
        } else {
            (self, Err(err))
        }
    }
}

/// Takes an alert of the peer.
fn process_alert(
    common: &mut CommonState,
    level: AlertLevel,
    description: AlertDescription,
) -> (r: Result<(), Error>)
    requires
        old(common).wf(),
    ensures
        final(common).wf(),
        (final(common)@, r) == old(common)@.alerted(level, description),
{
    let err = Error::AlertReceived(description);
    if let AlertLevel::Unknown(_) = level {
        return Err(common.send_fatal_alert(AlertDescription::IllegalParameter, err));
    }
    if common.may_receive_application_data && description == AlertDescription::CloseNotify {
        common.has_received_close_notify = true;
        return Ok(());
    }
    if level == AlertLevel::Warning {
        if common.is_tls13() && description != AlertDescription::UserCanceled {
            return Err(common.send_fatal_alert(AlertDescription::DecodeError, err));
        }
        return Ok(());
    }
    Err(err)
}

/// Is this the error of a message that has no place where it came?
pub open spec fn is_inappropriate(e: Error) -> bool {
    e is InappropriateMessage || e is InappropriateHandshakeMessage
}

/// What a message does: the next state, or the error with which the connection ends.
///
/// Until application data may come, TLS 1.3 drops change cipher spec messages. Alerts are not the
/// state's business. A message that has no place where it came is answered with an alert.
#[verifier::opaque]
pub open spec fn processed<Data: SideData, S: State<Data>>(
    model: S::Model,
    common: CommonView,
    early_data: Seq<Seq<u8>>,
    m: PlainMessageView,
) -> (Result<S::Model, Error>, CommonView, Seq<Seq<u8>>) {
    if m.typ == ContentType::ChangeCipherSpec && !common.may_receive_application_data
        && common.is_tls13() {
        if m.payload == seq![1u8] {
            (Ok(model), common, early_data)
        } else {
            (
                Err(Error::PeerMisbehaved(PeerMisbehaved::IllegalMiddleboxChangeCipherSpec)),
                common.with_fatal_alert(AlertDescription::UnexpectedMessage),
                early_data,
            )
        }
    } else {
        match parsed(m) {
            Err(e) => (
                Err(Error::InvalidMessage(e)),
                common.with_fatal_alert(AlertDescription::DecodeError),
                early_data,
            ),
            Ok(MessageView::Alert { level, description }) => match common.alerted(
                level,
                description,
            ) {
                (common, Ok(())) => (Ok(model), common, early_data),
                (common, Err(e)) => (Err(e), common, early_data),
            },
            Ok(msg) => match S::handled(model, common, early_data, msg) {
                (Err(e), common, early_data) => if is_inappropriate(e) {
                    (
                        Err(e),
                        common.with_fatal_alert(AlertDescription::UnexpectedMessage),
                        early_data,
                    )
                } else {
                    (Err(e), common, early_data)
                },
                ok => ok,
            },
        }
    }
}

/// Takes a message.
pub fn process_msg<Data: SideData, S: State<Data>>(
    common: &mut CommonState,
    data: &mut Data,
    msg: InboundPlainMessage<'_>,
    state: S,
) -> (r: Result<S, Error>)
    requires
        old(common).wf(),
        old(data).wf(),
        state.wf(),
    ensures
        final(common).wf(),
        final(data).wf(),
        ({
            let expected = processed::<Data, S>(
                state.model(),
                old(common)@,
                old(data).early_data(),
                msg@,
            );
            &&& final(common)@ == expected.1
            &&& final(data).early_data() == expected.2
            &&& match (r, expected.0) {
                (Ok(next), Ok(model)) => next.wf() && next.model() == model,
                (Err(e), Err(f)) => e == f,
                _ => false,
            }
        }),
{
    proof {
        reveal(processed);
    }
    if msg.typ == ContentType::ChangeCipherSpec && !common.may_receive_application_data
        && common.is_tls13() {
        if !is_valid_ccs(msg.payload) {
            return Err(
                common.send_fatal_alert(
                    AlertDescription::UnexpectedMessage,
                    Error::PeerMisbehaved(PeerMisbehaved::IllegalMiddleboxChangeCipherSpec),
                ),
            );
        }
        return Ok(state);
    }
    let message = match parse(&msg) {
        Ok(message) => message,
        Err(e) => {
            return Err(
                common.send_fatal_alert(AlertDescription::DecodeError, Error::InvalidMessage(e)),
            );
        },
    };
    if let Message::Alert { level, description } = message {
        return match process_alert(common, level, description) {
            Ok(_) => Ok(state),
            Err(e) => Err(e),
        };
    }
    match state.handle(common, data, message) {
        Ok(next) => Ok(next),
        Err(e) => {
            let inappropriate = match e {
                Error::InappropriateMessage { .. } => true,
                Error::InappropriateHandshakeMessage { .. } => true,
                _ => false,
            };
            if inappropriate {
                Err(common.send_fatal_alert(AlertDescription::UnexpectedMessage, e))
            } else {
                Err(e)
            }
        },
    }
}

} // verus!
