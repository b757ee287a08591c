//! What a connection is, and what processing records does to it.

use vstd::prelude::*;

use crate::conn::common_state::CommonView;
use crate::conn::engine::{
    deframed, input_left, left_by_deframing, lemma_deframed, lemma_input_left, processed,
    released, Found,
};
use crate::conn::state::{SideData, State};
use crate::enums::ContentType;
use crate::error::Error;
use crate::msgs::handshake_buffer::HandshakeBufferView;
use crate::msgs::message::PlainMessageView;

verus! {

/// The parts of a connection that messages act on.
pub struct CoreView<M> {
    /// The protocol state, or the error with which the connection has ended.
    pub state: Result<M, Error>,
    pub common: CommonView,
    /// Early data that the caller has not taken yet.
    pub early_data: Seq<Seq<u8>>,
}

/// What a connection is.
pub struct ConnectionView<M> {
    pub core: CoreView<M>,
    /// The handshake bytes that `process_tls_records` has gathered.
    pub hs: HandshakeBufferView,
    /// How many bytes of the caller's buffer `process_tls_records` has processed already.
    pub outer_discard: nat,
    /// The handshake bytes that `process_tls_records_fast` has gathered.
    pub hs_fast: HandshakeBufferView,
    /// Were records encoded that the caller has not transmitted yet?
    pub wants_write: bool,
    /// Was the caller told that the peer has closed its side?
    pub emitted_peer_closed_state: bool,
}

/// What processing records comes to.
pub enum Outcome {
    Failed(Error),
    ReadTraffic,
    /// Application data lies at the front of the caller's buffer.
    FastReadLen(Seq<u8>),
    PeerClosed,
    Closed,
    ReadEarlyData,
    EncodeTlsData(Seq<u8>),
    TransmitTlsData,
    BlockedHandshake,
    WriteTraffic,
}

/// What processing records comes to, what becomes of the connection, and how many bytes the
/// caller is to remove.
pub struct Run<M> {
    pub outcome: Outcome,
    pub discard: nat,
    pub conn: ConnectionView<M>,
}

impl<M> ConnectionView<M> {
    /// The connection after the first record that is waiting was taken.
    pub open spec fn encoding(self) -> (Outcome, Self) {
        (
            Outcome::EncodeTlsData(self.core.common.sendable_tls[0]),
            ConnectionView {
                core: CoreView {
                    common: CommonView {
                        sendable_tls: self.core.common.sendable_tls.skip(1),
                        ..self.core.common
                    },
                    ..self.core
                },
                ..self
            },
        )
    }

    /// Does `process_tls_records` look at its input? Early data and application data that were
    /// received go first, then records that are waiting. After the peer's close_notify nothing
    /// more is read.
    pub open spec fn reads(self) -> bool {
        &&& self.core.early_data.len() == 0
        &&& self.core.common.received_plaintext.len() == 0
        &&& self.core.common.sendable_tls.len() == 0
        &&& !self.core.common.has_received_close_notify
    }

    /// What a connection comes to that finds no message: what was encoded is to be transmitted
    /// first. That the peer has closed its side is told once. When both sides have closed there
    /// is nothing left to do; else application data can be sent, if the handshake has got so far.
    pub open spec fn idle(self) -> (Outcome, Self) {
        let common = self.core.common;
        if self.wants_write {
            (Outcome::TransmitTlsData, self)
        } else if common.has_received_close_notify && !self.emitted_peer_closed_state {
            (Outcome::PeerClosed, ConnectionView { emitted_peer_closed_state: true, ..self })
        } else if common.has_received_close_notify && common.has_sent_close_notify {
            (Outcome::Closed, self)
        } else if common.may_send_application_data {
            (Outcome::WriteTraffic, self)
        } else {
            (Outcome::BlockedHandshake, self)
        }
    }
}

impl<M> Run<M> {
    /// An outcome at which the caller is to remove `discard` bytes.
    pub open spec fn at(end: (Outcome, ConnectionView<M>), discard: nat) -> Self {
        Run { outcome: end.0, discard, conn: end.1 }
    }
}

/// What one step of processing records comes to: there is something to tell the caller, or there
/// is more to process behind the next `consumed` bytes.
pub enum Advance<M> {
    Done(Run<M>),
    More { conn: ConnectionView<M>, consumed: nat, released: nat },
}

/// What a message does to a connection: it goes to the protocol state. A connection that has ended
/// stays ended.
pub open spec fn took_message<Data: SideData, S: State<Data>>(
    core: CoreView<S::Model>,
    m: PlainMessageView,
) -> (Result<(), Error>, CoreView<S::Model>) {
    match core.state {
        Err(e) => (Err(e), core),
        Ok(model) => match processed::<Data, S>(model, core.common, core.early_data, m) {
            (Err(e), common, early_data) => (
                Err(e),
                CoreView { state: Err(e), common, early_data },
            ),
            (Ok(model), common, early_data) => (
                Ok(()),
                CoreView { state: Ok(model), common, early_data },
            ),
        },
    }
}

/// What looking for the next message comes to.
pub enum Fed {
    /// There is no complete message.
    Nothing,
    /// There is application data for the caller.
    Data(Seq<u8>),
    /// There was a message, and the protocol state has taken it.
    Taken,
    /// The connection has ended.
    Failed(Error),
}

/// Looks for the next message in `rest`, with `room` bytes for plaintext: application data is for
/// the caller, all other messages are for the protocol state. Gives what becomes of the connection
/// and how many bytes were used up.
#[verifier::opaque]
pub open spec fn fed_fast<Data: SideData, S: State<Data>>(
    conn: ConnectionView<S::Model>,
    rest: Seq<u8>,
    room: nat,
) -> (Fed, ConnectionView<S::Model>, nat) {
    let d = deframed(conn.core.common, conn.hs_fast, rest, Some(room));
    let core = CoreView { common: d.common, ..conn.core };
    let conn = ConnectionView { core, hs_fast: d.hs, ..conn };
    match d.found {
        Found::Failed(e) => (Fed::Failed(e), conn, d.consumed),
        Found::Nothing => (Fed::Nothing, conn, d.consumed),
        Found::Message(m) => if m.typ == ContentType::ApplicationData
            && d.common.may_receive_application_data {
            (Fed::Data(m.payload), conn, d.consumed)
        } else {
            match took_message::<Data, S>(core, m) {
                (Err(e), core) => (Fed::Failed(e), ConnectionView { core, ..conn }, d.consumed),
                (Ok(()), core) => (Fed::Taken, ConnectionView { core, ..conn }, d.consumed),
            }
        },
    }
}

/// One step of `process_tls_records_fast`, when `pos` bytes are processed and `rest` is what
/// follows them, with `room` bytes for plaintext.
///
/// Records that are waiting go first. After the peer's close_notify nothing more is read.
pub open spec fn step_fast<Data: SideData, S: State<Data>>(
    conn: ConnectionView<S::Model>,
    rest: Seq<u8>,
    room: nat,
    pos: nat,
) -> Advance<S::Model> {
    if conn.core.common.sendable_tls.len() > 0 {
        Advance::Done(Run::at(conn.encoding(), pos))
    } else if conn.core.common.has_received_close_notify {
        Advance::Done(Run::at(conn.idle(), pos))
    } else {
        let (fed, conn, n) = fed_fast::<Data, S>(conn, rest, room);
        match fed {
            Fed::Nothing => Advance::Done(Run::at(conn.idle(), pos + n)),
            Fed::Data(payload) => Advance::Done(
                Run::at((Outcome::FastReadLen(payload), conn), pos + n),
            ),
            Fed::Failed(e) => Advance::Done(Run::at((Outcome::Failed(e), conn), pos + n)),
            Fed::Taken => Advance::More { conn, consumed: n, released: n },
        }
    }
}

/// What `process_tls_records_fast` comes to, when `pos` bytes are processed and `rest` is what
/// follows them, with `room` bytes for plaintext: it goes on as long as there is more to process.
pub open spec fn run_fast<Data: SideData, S: State<Data>>(
    conn: ConnectionView<S::Model>,
    rest: Seq<u8>,
    room: nat,
    pos: nat,
) -> Run<S::Model>
    decreases rest.len(), conn.hs_fast.pending.len(),
{
    match step_fast::<Data, S>(conn, rest, room, pos) {
        Advance::Done(run) => run,
        Advance::More { conn: next, consumed, released } => {
            proof {
                lemma_step_fast::<Data, S>(conn, rest, room, pos);
            }
            run_fast::<Data, S>(next, rest.skip(consumed as int), room, pos + consumed)
        },
    }
}

/// What `process_tls_records_fast` leaves in the buffer `out`, into which records are opened, when
/// `rest` is what follows the bytes that were processed. It is left alone as long as nothing is
/// read.
pub open spec fn left_by_fast<Data: SideData, S: State<Data>>(
    conn: ConnectionView<S::Model>,
    rest: Seq<u8>,
    out: Seq<u8>,
) -> Seq<u8>
    decreases rest.len(), conn.hs_fast.pending.len(),
{
    if conn.core.common.sendable_tls.len() > 0 || conn.core.common.has_received_close_notify {
        out
    } else {
        let left = left_by_deframing(conn.core.common, conn.hs_fast, rest, out);
        match step_fast::<Data, S>(conn, rest, out.len(), 0) {
            Advance::Done(_) => left,
            Advance::More { conn: next, consumed, released } => {
                proof {
                    lemma_step_fast::<Data, S>(conn, rest, out.len(), 0);
                }
                left_by_fast::<Data, S>(next, rest.skip(consumed as int), left)
            },
        }
    }
}

/// A step that goes on has used up bytes of the input, or else handshake bytes that were gathered
/// before.
pub proof fn lemma_step_fast<Data: SideData, S: State<Data>>(
    conn: ConnectionView<S::Model>,
    rest: Seq<u8>,
    room: nat,
    pos: nat,
)
    ensures
        step_fast::<Data, S>(conn, rest, room, pos) matches Advance::More {
            conn: next,
            consumed,
            released,
        } ==> consumed <= rest.len() && (consumed > 0 || next.hs_fast.pending.len()
            < conn.hs_fast.pending.len()),
        step_fast::<Data, S>(conn, rest, room, pos) matches Advance::Done(run) ==> pos
            <= run.discard <= pos + rest.len(),
{
    reveal(fed_fast);
    lemma_deframed(conn.core.common, conn.hs_fast, rest, Some(room));
}

/// Looks for the next message in `rest`; all messages are for the protocol state. Gives what
/// becomes of the connection, how many bytes were used up, and how many are released.
///
/// The bytes of an incomplete handshake message are not released.
#[verifier::opaque]
pub open spec fn fed_common<Data: SideData, S: State<Data>>(
    conn: ConnectionView<S::Model>,
    rest: Seq<u8>,
) -> (Fed, ConnectionView<S::Model>, nat, nat) {
    let d = deframed(conn.core.common, conn.hs, rest, None);
    let held = conn.outer_discard + d.consumed;
    let free = released(d, held);
    let core = CoreView { common: d.common, ..conn.core };
    let conn = ConnectionView {
        core,
        hs: d.hs,
        outer_discard: (held - free) as nat,
        ..conn
    };
    match d.found {
        Found::Failed(e) => (Fed::Failed(e), conn, d.consumed, free),
        Found::Nothing => (Fed::Nothing, conn, d.consumed, free),
        Found::Message(m) => match took_message::<Data, S>(core, m) {
            (Err(e), core) => (
                Fed::Failed(e),
                ConnectionView { core, ..conn },
                d.consumed,
                free,
            ),
            (Ok(()), core) => (Fed::Taken, ConnectionView { core, ..conn }, d.consumed, free),
        },
    }
}

/// One step of `process_tls_records`, when `base` bytes are to be removed already and `rest` is
/// what follows the bytes that were processed.
///
/// Early data and application data that were received go first, then records that are waiting.
/// After the peer's close_notify nothing more is read.
pub open spec fn step_common<Data: SideData, S: State<Data>>(
    conn: ConnectionView<S::Model>,
    rest: Seq<u8>,
    base: nat,
) -> Advance<S::Model> {
    if conn.core.early_data.len() > 0 {
        Advance::Done(Run::at((Outcome::ReadEarlyData, conn), base))
    } else if conn.core.common.received_plaintext.len() > 0 {
        Advance::Done(Run::at((Outcome::ReadTraffic, conn), base))
    } else if conn.core.common.sendable_tls.len() > 0 {
        Advance::Done(Run::at(conn.encoding(), base))
    } else if conn.core.common.has_received_close_notify {
        Advance::Done(Run::at(conn.idle(), base))
    } else {
        let (fed, conn, n, free) = fed_common::<Data, S>(conn, rest);
        match fed {
            Fed::Failed(e) => Advance::Done(Run::at((Outcome::Failed(e), conn), base + free)),
            Fed::Taken => Advance::More { conn, consumed: n, released: free },
            _ => Advance::Done(Run::at(conn.idle(), base + free)),
        }
    }
}

/// What `process_tls_records` comes to, when `base` bytes are to be removed already and `rest` is
/// what follows the bytes that were processed: it goes on as long as there is more to process.
pub open spec fn run_common<Data: SideData, S: State<Data>>(
    conn: ConnectionView<S::Model>,
    rest: Seq<u8>,
    base: nat,
) -> Run<S::Model>
    decreases rest.len(), conn.hs.pending.len(),
{
    match step_common::<Data, S>(conn, rest, base) {
        Advance::Done(run) => run,
        Advance::More { conn: next, consumed, released } => {
            proof {
                lemma_step_common::<Data, S>(conn, rest, base);
            }
            run_common::<Data, S>(next, rest.skip(consumed as int), base + released)
        },
    }
}

/// A step that goes on has used up bytes of the input, or else handshake bytes that were gathered
/// before. No more is removed than was processed.
pub proof fn lemma_step_common<Data: SideData, S: State<Data>>(
    conn: ConnectionView<S::Model>,
    rest: Seq<u8>,
    base: nat,
)
    ensures
        step_common::<Data, S>(conn, rest, base) matches Advance::More {
            conn: next,
            consumed,
            released,
        } ==> {
            &&& consumed <= rest.len()
            &&& consumed > 0 || next.hs.pending.len() < conn.hs.pending.len()
            &&& released + next.outer_discard == conn.outer_discard + consumed
        },
        step_common::<Data, S>(conn, rest, base) matches Advance::Done(run) ==> {
            &&& base <= run.discard
            &&& run.discard + run.conn.outer_discard <= base + conn.outer_discard + rest.len()
        },
{
    reveal(fed_common);
    lemma_deframed(conn.core.common, conn.hs, rest, None);
}

/// What `process_tls_records` makes of `rest`, which is what follows the bytes that were processed:
/// the records that it takes are opened in place. Nothing changes as long as nothing is read.
pub open spec fn left_by_common<Data: SideData, S: State<Data>>(
    conn: ConnectionView<S::Model>,
    rest: Seq<u8>,
) -> Seq<u8>
    decreases rest.len(), conn.hs.pending.len(),
{
    if !conn.reads() {
        rest
    } else {
        let left = input_left(conn.core.common, conn.hs, rest);
        match step_common::<Data, S>(conn, rest, 0) {
            Advance::Done(_) => left,
            Advance::More { conn: next, consumed, released } => {
                proof {
                    lemma_step_common::<Data, S>(conn, rest, 0);
                }
                left.take(consumed as int) + left_by_common::<Data, S>(
                    next,
                    rest.skip(consumed as int),
                )
            },
        }
    }
}

/// What `process_tls_records` makes of the caller's buffer: what an earlier call has processed
/// stays as it is.
pub open spec fn left_by_call<Data: SideData, S: State<Data>>(
    conn: ConnectionView<S::Model>,
    incoming: Seq<u8>,
) -> Seq<u8> {
    if conn.reads() {
        incoming.take(conn.outer_discard as int) + left_by_common::<Data, S>(
            conn,
            incoming.skip(conn.outer_discard as int),
        )
    } else {
        incoming
    }
}

/// A step that goes on leaves what follows the bytes it has used up as it was. What a step comes
/// to does not depend on how many bytes are to be removed already.
pub proof fn lemma_step_left<Data: SideData, S: State<Data>>(
    conn: ConnectionView<S::Model>,
    rest: Seq<u8>,
    base: nat,
)
    ensures
        input_left(conn.core.common, conn.hs, rest).len() == rest.len(),
        match step_common::<Data, S>(conn, rest, base) {
            Advance::More { conn: next, consumed, released } => {
                &&& conn.reads()
                &&& step_common::<Data, S>(conn, rest, 0) == (Advance::More {
                    conn: next,
                    consumed,
                    released,
                })
                &&& consumed <= rest.len()
                &&& input_left(conn.core.common, conn.hs, rest).skip(consumed as int) == rest.skip(
                    consumed as int,
                )
            },
            Advance::Done(_) => step_common::<Data, S>(conn, rest, 0) is Done,
        },
{
    reveal(fed_common);
    lemma_input_left(conn.core.common, conn.hs, rest);
}

/// Opening records in place keeps the length of the input.
pub proof fn lemma_left_by_common<Data: SideData, S: State<Data>>(
    conn: ConnectionView<S::Model>,
    rest: Seq<u8>,
)
    ensures
        left_by_common::<Data, S>(conn, rest).len() == rest.len(),
    decreases rest.len(), conn.hs.pending.len(),
{
    lemma_step_left::<Data, S>(conn, rest, 0);
    lemma_step_common::<Data, S>(conn, rest, 0);
    if let Advance::More { conn: next, consumed, released } = step_common::<Data, S>(
        conn,
        rest,
        0,
    ) {
        lemma_left_by_common::<Data, S>(next, rest.skip(consumed as int));
    }
}

/// The fast path hands data out itself: it never comes to data that is kept for the caller. Where
/// it comes to writing, application data may be sent.
pub proof fn lemma_run_fast<Data: SideData, S: State<Data>>(
    conn: ConnectionView<S::Model>,
    rest: Seq<u8>,
    room: nat,
    pos: nat,
)
    ensures
        ({
            let run = run_fast::<Data, S>(conn, rest, room, pos);
            &&& !(run.outcome is ReadTraffic)
            &&& !(run.outcome is ReadEarlyData)
            &&& run.outcome is WriteTraffic ==> run.conn.core.common.may_send_application_data
        }),
    decreases rest.len(), conn.hs_fast.pending.len(),
{
    lemma_step_fast::<Data, S>(conn, rest, room, pos);
    if let Advance::More { conn: next, consumed, released } = step_fast::<Data, S>(
        conn,
        rest,
        room,
        pos,
    ) {
        lemma_run_fast::<Data, S>(next, rest.skip(consumed as int), room, pos + consumed);
    }
}

/// Where processing comes to writing, application data may be sent; where it comes to data that
/// was received, there is some; and a connection is closed where both sides have closed it.
pub proof fn lemma_run_common<Data: SideData, S: State<Data>>(
    conn: ConnectionView<S::Model>,
    rest: Seq<u8>,
    base: nat,
)
    ensures
        ({
            let run = run_common::<Data, S>(conn, rest, base);
            &&& !(run.outcome is FastReadLen)
            &&& run.outcome is WriteTraffic ==> run.conn.core.common.may_send_application_data
            &&& run.outcome is ReadEarlyData ==> run.conn.core.early_data.len() > 0
            &&& run.outcome is ReadTraffic ==> run.conn.core.common.received_plaintext.len() > 0
            &&& run.outcome is Closed ==> run.conn.core.common.has_received_close_notify
                && run.conn.core.common.has_sent_close_notify
        }),
    decreases rest.len(), conn.hs.pending.len(),
{
    lemma_step_common::<Data, S>(conn, rest, base);
    if let Advance::More { conn: next, consumed, released } = step_common::<Data, S>(
        conn,
        rest,
        base,
    ) {
        lemma_run_common::<Data, S>(next, rest.skip(consumed as int), base + released);
    }
}

} // verus!
