//! The unbuffered connection API.
//!
//! The caller owns the buffers: it hands in the bytes it received, removes as many of them as it
//! is told, and gives room for the bytes that are to be sent.

use vstd::prelude::*;

use crate::conn::common_state::CommonState;
use crate::conn::engine::{
    deframe, deframe_to, input_left, left_by_deframing, process_msg, HandshakeDeframer,
};
use crate::conn::model::{
    fed_common, fed_fast, left_by_call, left_by_common, left_by_fast, lemma_left_by_common,
    lemma_run_common, lemma_run_fast, lemma_step_common, lemma_step_fast, lemma_step_left,
    run_common, run_fast, step_common, step_fast, took_message, Advance,
    ConnectionView, CoreView, Fed, Outcome, Run,
};
use crate::conn::state::{SideData, State};
use crate::conn::traffic::TrafficState;
use crate::enums::ContentType;
use crate::error::Error;
use crate::msgs::buffers::{BufferProgress, DeframerSliceBuffer};
use crate::msgs::handshake_buffer::{
    HandshakeBuffer, HandshakeBufferView, DEFAULT_HS_BUFFER_SIZE,
};
use crate::msgs::message::InboundPlainMessage;

verus! {

/// The parts of a connection that do not depend on how records are handed in.
pub struct ConnectionCore<Data, S> {
    pub state: Result<S, Error>,
    pub data: Data,
    pub common_state: CommonState,
    pub hs_deframer: HandshakeDeframer,
}

/// An unbuffered connection, of a client or a server.
pub struct UnbufferedConnectionCommon<Data, S = TrafficState> {
    pub core: ConnectionCore<Data, S>,
    pub wants_write: bool,
    pub emitted_peer_closed_state: bool,
    pub hs_buffer_fast: HandshakeBuffer,
}

impl<Data: SideData, S: State<Data>> View for ConnectionCore<Data, S> {
    type V = CoreView<S::Model>;

    open spec fn view(&self) -> CoreView<S::Model> {
        CoreView {
            state: match self.state {
                Ok(state) => Ok(state.model()),
                Err(e) => Err(e),
            },
            common: self.common_state@,
            early_data: self.data.early_data(),
        }
    }
}

impl<Data: SideData, S: State<Data>> View for UnbufferedConnectionCommon<Data, S> {
    type V = ConnectionView<S::Model>;

    open spec fn view(&self) -> ConnectionView<S::Model> {
        ConnectionView {
            core: self.core@,
            hs: self.core.hs_deframer.buffer@,
            outer_discard: self.core.hs_deframer.outer_discard as nat,
            hs_fast: self.hs_buffer_fast@,
            wants_write: self.wants_write,
            emitted_peer_closed_state: self.emitted_peer_closed_state,
        }
    }
}

impl<Data: SideData, S: State<Data>> UnbufferedConnectionCommon<Data, S> {
    /// All parts are well formed.
    pub open spec fn wf(&self) -> bool {
        &&& self.core.wf()
        &&& self.hs_buffer_fast.wf()
    }
}

impl<Data: SideData, S: State<Data>> UnbufferedConnectionCommon<Data, S> {
    /// A connection that starts in `state`.
    pub fn new(state: S, data: Data, common_state: CommonState) -> (r: Self)
        requires
            state.wf(),
            data.wf(),
            common_state.wf(),
        ensures
            r.wf(),
            r@ == (ConnectionView {
                core: CoreView {
                    state: Ok(state.model()),
                    common: common_state@,
                    early_data: data.early_data(),
                },
                hs: HandshakeBufferView::empty(DEFAULT_HS_BUFFER_SIZE as nat),
                outer_discard: 0,
                hs_fast: HandshakeBufferView::empty(DEFAULT_HS_BUFFER_SIZE as nat),
                wants_write: false,
                emitted_peer_closed_state: false,
            }),
    {
        UnbufferedConnectionCommon {
            core: ConnectionCore {
                state: Ok(state),
                data,
                common_state,
                hs_deframer: HandshakeDeframer::new(),
            },
            wants_write: false,
            emitted_peer_closed_state: false,
            hs_buffer_fast: HandshakeBuffer::new(),
        }
    }
}

/// The current status of a connection.
#[must_use]
pub struct UnbufferedStatus<'c, 'i, Data, S = TrafficState> {
    /// Number of bytes to discard.
    ///
    /// After the `state` field of this object has been handled, `discard` bytes must be removed
    /// from the *front* of the `incoming_tls` buffer that was passed to the
    /// [`UnbufferedConnectionCommon::process_tls_records`] call that returned this object.
    ///
    /// This discard operation MUST happen *before*
    /// [`UnbufferedConnectionCommon::process_tls_records`] is called again.
    pub discard: usize,
    /// The current state of the handshake process.
    ///
    /// This value MUST be handled prior to calling
    /// [`UnbufferedConnectionCommon::process_tls_records`] again. See the documentation on the
    /// variants of [`ConnectionState`] for more details.
    pub state: Result<ConnectionState<'c, 'i, Data, S>, Error>,
}

/// The state of the [`UnbufferedConnectionCommon`] object.
#[non_exhaustive]
pub enum ConnectionState<'c, 'i, Data, S = TrafficState> {
    /// One, or more, application data records are available.
    ///
    /// See [`ReadTraffic`] for more details on how to use the enclosed object to access the
    /// received data.
    ReadTraffic(ReadTraffic<'c, 'i, Data, S>),
    /// Application data has been decrypted directly to the output buffer.
    ///
    /// Use [`FastReadLen`] to get the length of available data. This is returned by
    /// [`UnbufferedConnectionCommon::process_tls_records_fast`].
    FastReadLen(FastReadLen),
    /// Connection has been cleanly closed by the peer.
    ///
    /// This state is encountered at most once by each connection: it is "edge" triggered, rather
    /// than "level" triggered.
    ///
    /// It delimits the data received from the peer, meaning you can be sure you have received all
    /// the data the peer sent.
    ///
    /// No further application data will be received from the peer, so no further `ReadTraffic`
    /// states will be produced.
    ///
    /// However, it is possible to _send_ further application data via `WriteTraffic` states, or
    /// close the connection cleanly by calling [`WriteTraffic::queue_close_notify()`].
    PeerClosed,
    /// Connection has been cleanly closed by both us and the peer.
    ///
    /// This is a terminal state. No other states will be produced for this connection.
    Closed,
    /// One, or more, early (RTT-0) data records are available.
    ReadEarlyData(ReadEarlyData<'c, 'i, Data, S>),
    /// A Handshake record is ready for encoding.
    ///
    /// Call [`EncodeTlsData::encode`] on the enclosed object, providing an `outgoing_tls` buffer
    /// to store the encoding.
    EncodeTlsData(EncodeTlsData<'c, Data, S>),
    /// Previously encoded handshake records need to be transmitted.
    ///
    /// Transmit the contents of the `outgoing_tls` buffer that was passed to previous
    /// [`EncodeTlsData::encode`] calls to the peer.
    ///
    /// After transmitting the contents, call [`TransmitTlsData::done`] on the enclosed object. The
    /// transmitted contents MUST not be sent to the peer more than once so they SHOULD be
    /// discarded at this point.
    ///
    /// At some stages of the handshake process, it's possible to send application-data alongside
    /// handshake records. Call [`TransmitTlsData::may_encrypt_app_data`] on the enclosed object to
    /// probe if that's allowed.
    TransmitTlsData(TransmitTlsData<'c, Data, S>),
    /// More TLS data is needed to continue with the handshake.
    ///
    /// Request more data from the peer and append the contents to the `incoming_tls` buffer that
    /// was passed to [`UnbufferedConnectionCommon::process_tls_records`].
    BlockedHandshake,
    /// The handshake process has been completed.
    ///
    /// [`WriteTraffic::encrypt`] can be called on the enclosed object to encrypt application data
    /// into an `outgoing_tls` buffer. Similarly, [`WriteTraffic::queue_close_notify`] can be used
    /// to encrypt a close_notify alert message into a buffer to signal the peer that the
    /// connection is being closed. Data written into `outgoing_tls` by either method MAY be
    /// transmitted to the peer during this state.
    ///
    /// Once this state has been reached, data MAY be requested from the peer and appended to an
    /// `incoming_tls` buffer that will be passed to a future
    /// [`UnbufferedConnectionCommon::process_tls_records`] invocation. When enough data has been
    /// appended to `incoming_tls`, [`UnbufferedConnectionCommon::process_tls_records`] will yield
    /// the [`ConnectionState::ReadTraffic`] state.
    WriteTraffic(WriteTraffic<'c, Data, S>),
}

/// Length of application data available in the output buffer from
/// [`UnbufferedConnectionCommon::process_tls_records_fast`].
#[derive(Debug, Clone, Copy)]
pub struct FastReadLen(pub usize);

/// Application data is available.
pub struct ReadTraffic<'c, 'i, Data, S = TrafficState> {
    pub conn: &'c mut UnbufferedConnectionCommon<Data, S>,
    /// The caller's buffer.
    pub incoming_tls: &'i mut [u8],
    /// The chunk that `next_record` has taken last.
    pub chunk: Option<Vec<u8>>,
}

/// Early application-data is available.
pub struct ReadEarlyData<'c, 'i, Data, S = TrafficState> {
    pub conn: &'c mut UnbufferedConnectionCommon<Data, S>,
    /// The caller's buffer.
    pub incoming_tls: &'i mut [u8],
    /// The chunk that `next_record` has taken last.
    pub chunk: Option<Vec<u8>>,
}

/// A decrypted application-data record.
pub struct AppDataRecord<'i> {
    /// Number of additional bytes to discard.
    ///
    /// This number MUST be added to the value of [`UnbufferedStatus::discard`] *prior* to the
    /// discard operation. See [`UnbufferedStatus::discard`] for more details.
    pub discard: usize,
    /// The payload of the app-data record.
    pub payload: &'i [u8],
}

/// Allows encrypting app-data.
pub struct WriteTraffic<'c, Data, S = TrafficState> {
    pub conn: &'c mut UnbufferedConnectionCommon<Data, S>,
}

/// A handshake record must be encoded.
pub struct EncodeTlsData<'c, Data, S = TrafficState> {
    pub conn: &'c mut UnbufferedConnectionCommon<Data, S>,
    /// The record, until it was encoded.
    pub chunk: Option<Vec<u8>>,
}

/// Previously encoded TLS data must be transmitted.
pub struct TransmitTlsData<'c, Data, S = TrafficState> {
    pub conn: &'c mut UnbufferedConnectionCommon<Data, S>,
}

/// Does the status tell the caller what processing records came to? `plain` is the caller's buffer
/// for plaintext, and `incoming` its buffer of records, as they are then. A handle holds the
/// connection as it has become.
pub open spec fn tells<Data: SideData, S: State<Data>>(
    status: UnbufferedStatus<'_, '_, Data, S>,
    run: Run<S::Model>,
    plain: Seq<u8>,
    incoming: Seq<u8>,
) -> bool {
    &&& status.discard == run.discard
    &&& status.discard <= incoming.len()
    &&& match run.outcome {
        Outcome::Failed(e) => status.state matches Err(f) && e == f,
        Outcome::ReadTraffic => {
            &&& status.state matches Ok(ConnectionState::ReadTraffic(read))
            &&& read.conn.wf()
            &&& read.conn@ == run.conn
            &&& read.conn@.core.common.received_plaintext.len() > 0
            &&& read.chunk is None
            &&& read.incoming_tls@ == incoming
        },
        Outcome::FastReadLen(payload) => {
            &&& status.state matches Ok(ConnectionState::FastReadLen(len))
            &&& len.0 == payload.len()
            &&& len.0 <= plain.len()
            &&& plain.take(len.0 as int) == payload
        },
        Outcome::PeerClosed => status.state matches Ok(ConnectionState::PeerClosed),
        Outcome::Closed => status.state matches Ok(ConnectionState::Closed),
        Outcome::ReadEarlyData => {
            &&& status.state matches Ok(ConnectionState::ReadEarlyData(read))
            &&& read.conn.wf()
            &&& read.conn@ == run.conn
            &&& read.conn@.core.early_data.len() > 0
            &&& read.chunk is None
            &&& read.incoming_tls@ == incoming
        },
        Outcome::EncodeTlsData(chunk) => {
            &&& status.state matches Ok(ConnectionState::EncodeTlsData(encode))
            &&& encode.chunk matches Some(c)
            &&& c@ == chunk
            &&& encode.conn.wf()
            &&& encode.conn@ == run.conn
        },
        Outcome::TransmitTlsData => {
            &&& status.state matches Ok(ConnectionState::TransmitTlsData(transmit))
            &&& transmit.conn.wf()
            &&& transmit.conn@ == run.conn
        },
        Outcome::BlockedHandshake => status.state matches Ok(ConnectionState::BlockedHandshake),
        Outcome::WriteTraffic => {
            &&& status.state matches Ok(ConnectionState::WriteTraffic(write))
            &&& write.conn.wf()
            &&& write.conn@ == run.conn
            &&& write.conn@.core.common.may_send_application_data
        },
    }
}

/// What a loop over records ends with.
enum Step {
    Failed(Error),
    ReadTraffic,
    FastReadLen(usize),
    PeerClosed,
    Closed,
    ReadEarlyData,
    EncodeTlsData(Vec<u8>),
    TransmitTlsData,
    BlockedHandshake,
    WriteTraffic,
}

/// A message that was found on the fast path: application data of some length, or a message that
/// the protocol state has taken.
enum FastMessage {
    Data(usize),
    Taken,
}

/// Does the step end with this outcome? `out` is the caller's buffer for plaintext.
spec fn ends_with(step: Step, outcome: Outcome, out: Seq<u8>) -> bool {
    match (step, outcome) {
        (Step::Failed(e), Outcome::Failed(f)) => e == f,
        (Step::ReadTraffic, Outcome::ReadTraffic) => true,
        (Step::FastReadLen(n), Outcome::FastReadLen(payload)) => {
            &&& n == payload.len()
            &&& n <= out.len()
            &&& out.take(n as int) == payload
        },
        (Step::PeerClosed, Outcome::PeerClosed) => true,
        (Step::Closed, Outcome::Closed) => true,
        (Step::ReadEarlyData, Outcome::ReadEarlyData) => true,
        (Step::EncodeTlsData(chunk), Outcome::EncodeTlsData(v)) => chunk@ == v,
        (Step::TransmitTlsData, Outcome::TransmitTlsData) => true,
        (Step::BlockedHandshake, Outcome::BlockedHandshake) => true,
        (Step::WriteTraffic, Outcome::WriteTraffic) => true,
        _ => false,
    }
}

impl<Data: SideData, S: State<Data>> UnbufferedConnectionCommon<Data, S> {
    /// What a connection comes to that finds no message.
    fn idle_step(&mut self) -> (r: Step)
        requires
            old(self).wf(),
        ensures
            final(self).wf(),
            final(self)@ == old(self)@.idle().1,
            ends_with(r, old(self)@.idle().0, Seq::empty()),
            !(r is FastReadLen),
    {
        if self.wants_write {
            Step::TransmitTlsData
        } else if self.core.common_state.has_received_close_notify
            && !self.emitted_peer_closed_state {
            self.emitted_peer_closed_state = true;
            Step::PeerClosed
        } else if self.core.common_state.has_received_close_notify
            && self.core.common_state.has_sent_close_notify {
            Step::Closed
        } else if self.core.common_state.may_send_application_data {
            Step::WriteTraffic
        } else {
            Step::BlockedHandshake
        }
    }

    /// Takes the first record that is waiting.
    fn pop_sendable(&mut self) -> (r: Option<Vec<u8>>)
        requires
            old(self).wf(),
        ensures
            final(self).wf(),
            match r {
                Some(chunk) => {
                    &&& old(self)@.core.common.sendable_tls.len() > 0
                    &&& old(self)@.encoding() == (Outcome::EncodeTlsData(chunk@), final(self)@)
                },
                None => {
                    &&& old(self)@.core.common.sendable_tls.len() == 0
                    &&& final(self)@ == old(self)@
                },
            },
    {
        let ghost before = self@;
        let r = self.core.common_state.sendable_tls.pop();
        assert(r is Some ==> self@ == before.encoding().1);
        assert(r is None ==> self@ == before);
        r
    }

    /// Looks for the next message; records are opened into `outgoing_tls`.
    fn feed_fast(
        &mut self,
        incoming_tls: &[u8],
        outgoing_tls: &mut [u8],
        progress: &mut BufferProgress,
    ) -> (r: Result<Option<FastMessage>, Error>)
        requires
            old(self).wf(),
            old(progress).processed <= incoming_tls@.len(),
        ensures
            final(self).wf(),
            final(outgoing_tls)@.len() == old(outgoing_tls)@.len(),
            final(outgoing_tls)@ == left_by_deframing(
                old(self)@.core.common,
                old(self)@.hs_fast,
                incoming_tls@.skip(old(progress).processed as int),
                old(outgoing_tls)@,
            ),
            ({
                let (fed, conn, n) = fed_fast::<Data, S>(
                    old(self)@,
                    incoming_tls@.skip(old(progress).processed as int),
                    old(outgoing_tls)@.len(),
                );
                &&& final(self)@ == conn
                &&& final(progress).processed == old(progress).processed + n
                &&& match (r, fed) {
                    (Err(e), Fed::Failed(f)) => e == f,
                    (Ok(None), Fed::Nothing) => true,
                    (Ok(Some(FastMessage::Data(len))), Fed::Data(payload)) => {
                        &&& len == payload.len()
                        &&& len <= final(outgoing_tls)@.len()
                        &&& final(outgoing_tls)@.take(len as int) == payload
                    },
                    (Ok(Some(FastMessage::Taken)), Fed::Taken) => true,
                    _ => false,
                }
            }),
    {
        proof {
            reveal(fed_fast);
        }
        let output = deframe_to(
            &mut self.core.common_state,
            incoming_tls,
            outgoing_tls,
            progress,
            &mut self.hs_buffer_fast,
        );
        let msg = match output {
            Err(e) => {
                return Err(e);
            },
            Ok(None) => {
                return Ok(None);
            },
            Ok(Some(msg)) => msg,
        };
        if msg.typ == ContentType::ApplicationData
            && self.core.common_state.may_receive_application_data {
            return Ok(Some(FastMessage::Data(msg.payload.len())));
        }
        match self.core.take_message(msg) {
            Ok(_) => Ok(Some(FastMessage::Taken)),
            Err(e) => Err(e),
        }
    }

    /// One step of processing records: there is something to tell the caller, or there may be
    /// more to process.
    fn fast_step(
        &mut self,
        incoming_tls: &[u8],
        outgoing_tls: &mut [u8],
        progress: &mut BufferProgress,
    ) -> (r: Option<Step>)
        requires
            old(self).wf(),
            old(progress).processed <= incoming_tls@.len(),
        ensures
            final(self).wf(),
            final(outgoing_tls)@.len() == old(outgoing_tls)@.len(),
            final(outgoing_tls)@ == (if old(self)@.core.common.sendable_tls.len() > 0 || old(
                self)@.core.common.has_received_close_notify {
                old(outgoing_tls)@
            } else {
                left_by_deframing(
                    old(self)@.core.common,
                    old(self)@.hs_fast,
                    incoming_tls@.skip(old(progress).processed as int),
                    old(outgoing_tls)@,
                )
            }),
            match step_fast::<Data, S>(
                old(self)@,
                incoming_tls@.skip(old(progress).processed as int),
                old(outgoing_tls)@.len(),
                old(progress).processed as nat,
            ) {
                Advance::Done(run) => {
                    &&& r matches Some(step)
                    &&& ends_with(step, run.outcome, final(outgoing_tls)@)
                    &&& final(self)@ == run.conn
                    &&& final(progress).processed == run.discard
                },
                Advance::More { conn, consumed, .. } => {
                    &&& r is None
                    &&& final(self)@ == conn
                    &&& final(progress).processed == old(progress).processed + consumed
                },
            },
    {
        if let Some(chunk) = self.pop_sendable() {
            return Some(Step::EncodeTlsData(chunk));
        }
        if self.core.common_state.has_received_close_notify {
            return Some(self.idle_step());
        }
        match self.feed_fast(incoming_tls, outgoing_tls, progress) {
            Err(e) => Some(Step::Failed(e)),
            Ok(None) => Some(self.idle_step()),
            Ok(Some(FastMessage::Data(len))) => Some(Step::FastReadLen(len)),
            Ok(Some(FastMessage::Taken)) => None,
        }
    }

    /// What there is to tell the caller before the input is looked at, if anything.
    fn waiting_step(&mut self) -> (r: Option<Step>)
        requires
            old(self).wf(),
        ensures
            final(self).wf(),
            match r {
                Some(step) => {
                    &&& !old(self)@.reads()
                    &&& !(step is FastReadLen)
                    &&& forall|rest: Seq<u8>, base: nat|
                        #[trigger] step_common::<Data, S>(old(self)@, rest, base) matches Advance::Done(
                            run,
                        ) && ends_with(step, run.outcome, Seq::empty()) && run.conn == final(self)@
                            && run.discard == base
                },
                None => old(self)@.reads() && final(self)@ == old(self)@,
            },
    {
        if self.core.data.early_data_available() {
            return Some(Step::ReadEarlyData);
        }
        if !self.core.common_state.received_plaintext.is_empty() {
            return Some(Step::ReadTraffic);
        }
        if let Some(chunk) = self.pop_sendable() {
            return Some(Step::EncodeTlsData(chunk));
        }
        if self.core.common_state.has_received_close_notify {
            return Some(self.idle_step());
        }
        None
    }

    /// Looks for the next message in `incoming_tls`, behind what the caller will remove.
    fn feed_common(
        &mut self,
        incoming_tls: &mut [u8],
        buffer: &mut DeframerSliceBuffer,
        progress: &mut BufferProgress,
    ) -> (r: Result<bool, Error>)
        requires
            old(self).wf(),
            old(buffer).wf(),
            old(buffer).len == old(incoming_tls)@.len(),
            old(progress).processed == old(self)@.outer_discard,
            old(progress).discard == 0,
            old(buffer).discard + old(self)@.outer_discard <= old(incoming_tls)@.len(),
        ensures
            final(self).wf(),
            final(buffer).wf(),
            final(buffer).len == old(buffer).len,
            final(incoming_tls)@ == old(incoming_tls)@.take(
                old(buffer).discard + old(self)@.outer_discard,
            ) + input_left(
                old(self)@.core.common,
                old(self)@.hs,
                old(incoming_tls)@.skip(old(buffer).discard + old(self)@.outer_discard),
            ),
            ({
                let (fed, conn, n, free) = fed_common::<Data, S>(
                    old(self)@,
                    old(incoming_tls)@.skip(old(buffer).discard + old(self)@.outer_discard),
                );
                &&& final(self)@ == conn
                &&& final(buffer).discard == old(buffer).discard + free
                &&& final(progress).processed == conn.outer_discard
                &&& final(progress).discard == 0
                &&& match (r, fed) {
                    (Err(e), Fed::Failed(f)) => e == f,
                    (Ok(found), Fed::Nothing) => !found,
                    (Ok(found), Fed::Taken) => found,
                    _ => false,
                }
            }),
    {
        proof {
            reveal(fed_common);
        }
        let ghost before = incoming_tls@;
        let ghost done = buffer.discard as int;
        let ghost rest = before.skip(done + self@.outer_discard);
        let (_, filled) = incoming_tls.split_at_mut(buffer.pending_discard());
        assert(filled@.skip(progress.processed as int) =~= rest);
        assert(before.take(done + self@.outer_discard) =~= before.take(done) + filled@.take(
            self@.outer_discard as int,
        ));
        let output = deframe(
            &mut self.core.common_state,
            &mut self.core.hs_deframer,
            filled,
            progress,
        );
        buffer.queue_discard(progress.take_discard());
        let msg = match output {
            Err(e) => {
                return Err(e);
            },
            Ok(None) => {
                return Ok(false);
            },
            Ok(Some(msg)) => msg,
        };
        match self.core.take_message(msg.borrow()) {
            Ok(_) => Ok(true),
            Err(e) => Err(e),
        }
    }

    /// One step of processing records: there is something to tell the caller, or there may be
    /// more to process.
    fn common_step(
        &mut self,
        incoming_tls: &mut [u8],
        buffer: &mut DeframerSliceBuffer,
        progress: &mut BufferProgress,
    ) -> (r: Option<Step>)
        requires
            old(self).wf(),
            old(buffer).wf(),
            old(buffer).len == old(incoming_tls)@.len(),
            old(progress).processed == old(self)@.outer_discard,
            old(progress).discard == 0,
            old(buffer).discard + old(self)@.outer_discard <= old(incoming_tls)@.len(),
        ensures
            final(self).wf(),
            final(buffer).wf(),
            final(buffer).len == old(buffer).len,
            final(progress).processed == final(self)@.outer_discard,
            final(progress).discard == 0,
            final(incoming_tls)@ == (if old(self)@.reads() {
                old(incoming_tls)@.take(old(buffer).discard + old(self)@.outer_discard)
                    + input_left(
                    old(self)@.core.common,
                    old(self)@.hs,
                    old(incoming_tls)@.skip(old(buffer).discard + old(self)@.outer_discard),
                )
            } else {
                old(incoming_tls)@
            }),
            match step_common::<Data, S>(
                old(self)@,
                old(incoming_tls)@.skip(old(buffer).discard + old(self)@.outer_discard),
                old(buffer).discard as nat,
            ) {
                Advance::Done(run) => {
                    &&& r matches Some(step)
                    &&& ends_with(step, run.outcome, Seq::empty())
                    &&& !(step is FastReadLen)
                    &&& final(self)@ == run.conn
                    &&& final(buffer).discard == run.discard
                },
                Advance::More { conn, released, .. } => {
                    &&& r is None
                    &&& final(self)@ == conn
                    &&& final(buffer).discard == old(buffer).discard + released
                },
            },
    {
        if let Some(step) = self.waiting_step() {
            return Some(step);
        }
        match self.feed_common(incoming_tls, buffer, progress) {
            Err(e) => Some(Step::Failed(e)),
            Ok(true) => None,
            Ok(false) => Some(self.idle_step()),
        }
    }
}

impl<Data: SideData, S: State<Data>> UnbufferedConnectionCommon<Data, S> {
    /// Processes records until there is something to tell the caller; says how many bytes were
    /// processed.
    fn run_fast_steps(&mut self, incoming_tls: &[u8], outgoing_tls: &mut [u8]) -> (r: (usize, Step))
        requires
            old(self).wf(),
        ensures
            final(self).wf(),
            final(outgoing_tls)@.len() == old(outgoing_tls)@.len(),
            final(outgoing_tls)@ == left_by_fast::<Data, S>(
                old(self)@,
                incoming_tls@,
                old(outgoing_tls)@,
            ),
            ({
                let run = run_fast::<Data, S>(
                    old(self)@,
                    incoming_tls@,
                    old(outgoing_tls)@.len(),
                    0,
                );
                &&& final(self)@ == run.conn
                &&& r.0 == run.discard
                &&& r.0 <= incoming_tls@.len()
                &&& ends_with(r.1, run.outcome, final(outgoing_tls)@)
            }),
    {
        let mut progress = BufferProgress::new(0);
        let ghost room = outgoing_tls@.len();
        let ghost run = run_fast::<Data, S>(self@, incoming_tls@, room, 0);
        let ghost left = left_by_fast::<Data, S>(self@, incoming_tls@, outgoing_tls@);
        assert(incoming_tls@.skip(0) =~= incoming_tls@);
        loop
            invariant
                self.wf(),
                progress.processed <= incoming_tls@.len(),
                room == outgoing_tls@.len(),
                room == old(outgoing_tls)@.len(),
                left == left_by_fast::<Data, S>(old(self)@, incoming_tls@, old(outgoing_tls)@),
                left == left_by_fast::<Data, S>(
                    self@,
                    incoming_tls@.skip(progress.processed as int),
                    outgoing_tls@,
                ),
                run == run_fast::<Data, S>(old(self)@, incoming_tls@, room, 0),
                run == run_fast::<Data, S>(
                    self@,
                    incoming_tls@.skip(progress.processed as int),
                    room,
                    progress.processed as nat,
                ),
            decreases incoming_tls@.len() - progress.processed, self@.hs_fast.pending.len(),
        {
            let ghost rest = incoming_tls@.skip(progress.processed as int);
            let ghost pos = progress.processed as nat;
            let ghost before = self@;
            proof {
                lemma_step_fast::<Data, S>(before, rest, room, pos);
            }
            if let Some(step) = self.fast_step(incoming_tls, outgoing_tls, &mut progress) {
                return (progress.processed(), step);
            }
            proof {
                let consumed = progress.processed - pos;
                assert(rest.skip(consumed) =~= incoming_tls@.skip(progress.processed as int));
            }
        }
    }

    /// Processes records until there is something to tell the caller; says how many bytes are to
    /// be removed.
    fn run_common_steps(&mut self, incoming_tls: &mut [u8]) -> (r: (usize, Step))
        requires
            old(self).wf(),
            old(self)@.reads() ==> old(self)@.outer_discard <= old(incoming_tls)@.len(),
        ensures
            final(self).wf(),
            final(incoming_tls)@ == left_by_call::<Data, S>(old(self)@, old(incoming_tls)@),
            ({
                let run = run_common::<Data, S>(
                    old(self)@,
                    old(incoming_tls)@.skip(old(self)@.outer_discard as int),
                    0,
                );
                &&& final(self)@ == run.conn
                &&& r.0 == run.discard
                &&& r.0 <= old(incoming_tls)@.len()
                &&& old(self)@.outer_discard <= old(incoming_tls)@.len() ==> r.0
                    + run.conn.outer_discard <= old(incoming_tls)@.len()
                &&& ends_with(r.1, run.outcome, Seq::empty())
                &&& !(r.1 is FastReadLen)
            }),
    {
        let ghost original = incoming_tls@;
        if let Some(step) = self.waiting_step() {
            proof {
                let rest = original.skip(old(self)@.outer_discard as int);
                assert(step_common::<Data, S>(old(self)@, rest, 0) is Done);
                lemma_step_common::<Data, S>(old(self)@, rest, 0);
            }
            return (0, step);
        }
        let mut buffer = DeframerSliceBuffer::new(incoming_tls);
        let mut progress = self.core.hs_deframer.progress();
        let ghost run = run_common::<Data, S>(
            self@,
            original.skip(self@.outer_discard as int),
            0,
        );
        let ghost left = left_by_call::<Data, S>(self@, original);
        loop
            invariant
                self.wf(),
                original == old(incoming_tls)@,
                incoming_tls@.len() == original.len(),
                incoming_tls@.skip(buffer.discard + self@.outer_discard) == original.skip(
                    buffer.discard + self@.outer_discard,
                ),
                left == left_by_call::<Data, S>(old(self)@, original),
                left == incoming_tls@.take(buffer.discard + self@.outer_discard) + left_by_common::<
                    Data,
                    S,
                >(self@, original.skip(buffer.discard + self@.outer_discard)),
                buffer.wf(),
                buffer.len == original.len(),
                progress.processed == self@.outer_discard,
                progress.discard == 0,
                buffer.discard + self@.outer_discard <= original.len(),
                run == run_common::<Data, S>(
                    old(self)@,
                    original.skip(old(self)@.outer_discard as int),
                    0,
                ),
                run == run_common::<Data, S>(
                    self@,
                    original.skip(buffer.discard + self@.outer_discard),
                    buffer.discard as nat,
                ),
            decreases
                original.len() - buffer.discard - self@.outer_discard,
                self@.hs.pending.len(),
        {
            let ghost pos = buffer.discard + self@.outer_discard;
            let ghost rest = original.skip(pos);
            let ghost before = self@;
            let ghost now = incoming_tls@;
            let ghost opened = input_left(before.core.common, before.hs, rest);
            proof {
                lemma_step_left::<Data, S>(before, rest, buffer.discard as nat);
                assert(now =~= now.take(pos) + rest);
                lemma_step_common::<Data, S>(before, rest, buffer.discard as nat);
            }
            if let Some(step) = self.common_step(incoming_tls, &mut buffer, &mut progress) {
                return (buffer.pending_discard(), step);
            }
            proof {
                let next = buffer.discard + self@.outer_discard;
                let consumed = next - pos;
                assert(incoming_tls@.skip(next) =~= opened.skip(consumed));
                assert(original.skip(next) =~= rest.skip(consumed));
                assert(incoming_tls@.take(next) =~= now.take(pos) + opened.take(consumed));
                assert(left =~= incoming_tls@.take(next) + left_by_common::<Data, S>(
                    self@,
                    rest.skip(consumed),
                ));
                assert(rest.skip(consumed) =~= original.skip(
                    buffer.discard + self@.outer_discard,
                ));
            }
        }
    }
}

impl<Data: SideData, S: State<Data>> UnbufferedConnectionCommon<Data, S> {
    /// Process TLS records with zero-copy decryption.
    ///
    /// This is the fast path API:
    /// - `incoming_tls`: immutable input buffer containing encrypted TLS records
    /// - `outgoing_tls`: mutable output buffer for decrypted data
    ///
    /// Returns `FastReadLen(len)` for ApplicationData, indicating `len` bytes of decrypted data
    /// are available in `outgoing_tls`.
    pub fn process_tls_records_fast<'c>(
        &'c mut self,
        incoming_tls: &[u8],
        outgoing_tls: &mut [u8],
    ) -> (r: UnbufferedStatus<'c, 'c, Data, S>)
        requires
            old(self).wf(),
        ensures
            final(outgoing_tls)@.len() == old(outgoing_tls)@.len(),
            final(outgoing_tls)@ == left_by_fast::<Data, S>(
                old(self)@,
                incoming_tls@,
                old(outgoing_tls)@,
            ),
            ({
                let run = run_fast::<Data, S>(
                    old(self)@,
                    incoming_tls@,
                    old(outgoing_tls)@.len(),
                    0,
                );
                &&& tells(r, run, final(outgoing_tls)@, incoming_tls@)
                &&& match r.state {
                    Ok(ConnectionState::EncodeTlsData(h)) => *final(self) == *final(h.conn),
                    Ok(ConnectionState::TransmitTlsData(h)) => *final(self) == *final(h.conn),
                    Ok(ConnectionState::WriteTraffic(h)) => *final(self) == *final(h.conn),
                    Ok(ConnectionState::ReadTraffic(_)) => false,
                    Ok(ConnectionState::ReadEarlyData(_)) => false,
                    _ => final(self).wf() && final(self)@ == run.conn,
                }
            }),
    {
        proof {
            lemma_run_fast::<Data, S>(self@, incoming_tls@, outgoing_tls@.len(), 0);
        }
        let (discard, step) = self.run_fast_steps(incoming_tls, outgoing_tls);
        let state = match step {
            Step::Failed(e) => Err(e),
            Step::FastReadLen(len) => Ok(ConnectionState::FastReadLen(FastReadLen(len))),
            Step::EncodeTlsData(chunk) => Ok(
                ConnectionState::EncodeTlsData(EncodeTlsData { conn: self, chunk: Some(chunk) }),
            ),
            Step::TransmitTlsData => Ok(
                ConnectionState::TransmitTlsData(TransmitTlsData { conn: self }),
            ),
            Step::WriteTraffic => Ok(ConnectionState::WriteTraffic(WriteTraffic { conn: self })),
            Step::PeerClosed => Ok(ConnectionState::PeerClosed),
            Step::Closed => Ok(ConnectionState::Closed),
            _ => Ok(ConnectionState::BlockedHandshake),
        };
        UnbufferedStatus { discard, state }
    }
}

impl<Data: SideData, S: State<Data>> UnbufferedConnectionCommon<Data, S> {
    /// Processes the TLS records in `incoming_tls` buffer until a new [`UnbufferedStatus`] is
    /// reached.
    ///
    /// Records are opened where they lie: those that were taken hold what was found in them, and
    /// what follows them is left as it was.
    ///
    /// The bytes of an incomplete handshake message that an earlier call has seen have to be at
    /// the front of the buffer still.
    pub fn process_tls_records<'c, 'i>(
        &'c mut self,
        incoming_tls: &'i mut [u8],
    ) -> (r: UnbufferedStatus<'c, 'i, Data, S>)
        requires
            old(self).wf(),
            old(self)@.reads() ==> old(self)@.outer_discard <= old(incoming_tls)@.len(),
        ensures
            ({
                let run = run_common::<Data, S>(
                    old(self)@,
                    old(incoming_tls)@.skip(old(self)@.outer_discard as int),
                    0,
                );
                let left = left_by_call::<Data, S>(old(self)@, old(incoming_tls)@);
                &&& left.len() == old(incoming_tls)@.len()
                &&& old(self)@.outer_discard <= old(incoming_tls)@.len() ==> r.discard
                    + run.conn.outer_discard <= old(incoming_tls)@.len()
                &&& tells(r, run, Seq::empty(), left)
                &&& match r.state {
                    Ok(ConnectionState::ReadTraffic(read)) => {
                        &&& *final(self) == *final(read.conn)
                        &&& final(incoming_tls)@ == final(read.incoming_tls)@
                    },
                    Ok(ConnectionState::ReadEarlyData(read)) => {
                        &&& *final(self) == *final(read.conn)
                        &&& final(incoming_tls)@ == final(read.incoming_tls)@
                    },
                    Ok(ConnectionState::EncodeTlsData(h)) => {
                        &&& *final(self) == *final(h.conn)
                        &&& final(incoming_tls)@ == left
                    },
                    Ok(ConnectionState::TransmitTlsData(h)) => {
                        &&& *final(self) == *final(h.conn)
                        &&& final(incoming_tls)@ == left
                    },
                    Ok(ConnectionState::WriteTraffic(h)) => {
                        &&& *final(self) == *final(h.conn)
                        &&& final(incoming_tls)@ == left
                    },
                    Ok(ConnectionState::FastReadLen(_)) => false,
                    _ => {
                        &&& final(self).wf()
                        &&& final(self)@ == run.conn
                        &&& final(incoming_tls)@ == left
                    },
                }
            }),
    {
        proof {
            lemma_run_common::<Data, S>(
                self@,
                incoming_tls@.skip(self@.outer_discard as int),
                0,
            );
            lemma_left_by_common::<Data, S>(
                self@,
                incoming_tls@.skip(self@.outer_discard as int),
            );
        }
        let (discard, step) = self.run_common_steps(incoming_tls);
        let state = match step {
            Step::Failed(e) => Err(e),
            Step::ReadTraffic => Ok(
                ConnectionState::ReadTraffic(
                    ReadTraffic { conn: self, incoming_tls, chunk: None },
                ),
            ),
            Step::ReadEarlyData => Ok(
                ConnectionState::ReadEarlyData(
                    ReadEarlyData { conn: self, incoming_tls, chunk: None },
                ),
            ),
            Step::EncodeTlsData(chunk) => Ok(
                ConnectionState::EncodeTlsData(EncodeTlsData { conn: self, chunk: Some(chunk) }),
            ),
            Step::TransmitTlsData => Ok(
                ConnectionState::TransmitTlsData(TransmitTlsData { conn: self }),
            ),
            Step::WriteTraffic => Ok(ConnectionState::WriteTraffic(WriteTraffic { conn: self })),
            Step::PeerClosed => Ok(ConnectionState::PeerClosed),
            Step::Closed => Ok(ConnectionState::Closed),
            _ => Ok(ConnectionState::BlockedHandshake),
        };
        UnbufferedStatus { discard, state }
    }
}

impl<Data: SideData, S: State<Data>> ConnectionCore<Data, S> {
    /// All parts are well formed.
    pub open spec fn wf(&self) -> bool {
        &&& self.state matches Ok(state) ==> state.wf()
        &&& self.data.wf()
        &&& self.common_state.wf()
        &&& self.hs_deframer.buffer.wf()
    }

    /// Hands a message to the protocol state. A connection that has ended stays ended.
    fn take_message(&mut self, msg: InboundPlainMessage<'_>) -> (r: Result<(), Error>)
        requires
            old(self).wf(),
        ensures
            final(self).wf(),
            final(self).hs_deframer == old(self).hs_deframer,
            (r, final(self)@) == took_message::<Data, S>(old(self)@, msg@),
    {
        let mut state: Result<S, Error> = Err(Error::HandshakeNotComplete);
        std::mem::swap(&mut self.state, &mut state);
        let state = match state {
            Ok(state) => state,
            Err(e) => {
                self.state = Err(e);
                return Err(e);
            },
        };
        match process_msg(&mut self.common_state, &mut self.data, msg, state) {
            Ok(new) => {
                self.state = Ok(new);
                Ok(())
            },
            Err(e) => {
                self.state = Err(e);
                Err(e)
            },
        }
    }
}

} // verus!
