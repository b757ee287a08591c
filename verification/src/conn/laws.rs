//! What holds of a connection over several calls.

use vstd::prelude::*;

use crate::conn::common_state::{
    after_records, close_notify_message, data_message, encrypted_size, fragment, fragment_count,
    lemma_after_records, record_opens, records_of, records_open, CommonView, EncryptError,
    InsufficientSizeError, RECORD_OVERHEAD,
};
use crate::conn::engine::{
    deframed, first_record, input_left, interleaved_error, left_by_deframing,
    left_by_first_record, lemma_deframed_untouched, lemma_first_record, lemma_input_left,
    payload_left, plaintext_allowed, processed, released, taken, Deframed, FirstRecord, Found,
};
use crate::conn::model::{
    fed_common, fed_fast, left_by_call, left_by_common, left_by_fast, lemma_left_by_common,
    lemma_run_common, lemma_step_common, lemma_step_fast, lemma_step_left, run_common, run_fast,
    step_common, step_fast, Advance, ConnectionView, CoreView, Outcome, Run,
};
use crate::conn::record_layer::{RecordLayerView, SEQ_HARD_LIMIT};
use crate::conn::state::{ClientConnectionData, SideData, State};
use crate::conn::traffic::{
    established, key_update, key_update_request, TrafficModel, TrafficState,
};
use crate::conn::unbuffered::UnbufferedConnectionCommon;
use crate::crypto::aead::TAG_LEN;
use crate::crypto::cipher::unpadded;
use crate::crypto::key_schedule::{next_secret, traffic_key};
use crate::crypto::suites::Tls13CipherSuite;
use crate::crypto::tls13::{
    buffer_after, inner_plaintext, law_decrypt_to_undoes_encrypt, opened, KeyView,
};
use crate::enums::{ContentType, ProtocolVersion, Side};
use crate::error::{Error, PeerMisbehaved};
use crate::msgs::buffers::clamped;
use crate::msgs::deframer::{
    framed, law_encoded_record_is_found, law_prefix_of_record_is_incomplete, wire_len, Framed,
};
use crate::msgs::handshake_buffer::{message_ready, HandshakeBufferView};
use crate::msgs::message::{PlainMessageView, HEADER_LEN, MAX_FRAGMENT_LEN};

verus! {

/// That the peer has closed its side is told at most once: the call that tells it notes so, and no
/// call that follows tells it again, on the fast path.
pub proof fn law_fast_peer_closed_at_most_once<Data: SideData, S: State<Data>>(
    conn: ConnectionView<S::Model>,
    rest: Seq<u8>,
    room: nat,
    pos: nat,
)
    ensures
        ({
            let run = run_fast::<Data, S>(conn, rest, room, pos);
            &&& run.outcome is PeerClosed ==> run.conn.emitted_peer_closed_state
            &&& conn.emitted_peer_closed_state ==> {
                &&& !(run.outcome is PeerClosed)
                &&& run.conn.emitted_peer_closed_state
            }
        }),
    decreases rest.len(), conn.hs_fast.pending.len(),
{
    reveal(fed_fast);
    lemma_step_fast::<Data, S>(conn, rest, room, pos);
    if let Advance::More { conn: next, consumed, released } = step_fast::<Data, S>(
        conn,
        rest,
        room,
        pos,
    ) {
        law_fast_peer_closed_at_most_once::<Data, S>(
            next,
            rest.skip(consumed as int),
            room,
            pos + consumed,
        );
    }
}

/// That the peer has closed its side is told at most once: the call that tells it notes so, and no
/// call that follows tells it again.
pub proof fn law_peer_closed_at_most_once<Data: SideData, S: State<Data>>(
    conn: ConnectionView<S::Model>,
    rest: Seq<u8>,
    base: nat,
)
    ensures
        ({
            let run = run_common::<Data, S>(conn, rest, base);
            &&& run.outcome is PeerClosed ==> run.conn.emitted_peer_closed_state
            &&& conn.emitted_peer_closed_state ==> {
                &&& !(run.outcome is PeerClosed)
                &&& run.conn.emitted_peer_closed_state
            }
        }),
    decreases rest.len(), conn.hs.pending.len(),
{
    reveal(fed_common);
    lemma_step_common::<Data, S>(conn, rest, base);
    if let Advance::More { conn: next, consumed, released } = step_common::<Data, S>(
        conn,
        rest,
        base,
    ) {
        law_peer_closed_at_most_once::<Data, S>(
            next,
            rest.skip(consumed as int),
            base + released,
        );
    }
}

/// After the peer's close_notify nothing more is read: whatever follows it is left where it is,
/// and makes no difference.
pub proof fn law_input_after_close_notify_is_ignored<Data: SideData, S: State<Data>>(
    conn: ConnectionView<S::Model>,
    rest: Seq<u8>,
    room: nat,
    pos: nat,
)
    requires
        conn.core.common.has_received_close_notify,
    ensures
        run_fast::<Data, S>(conn, rest, room, pos) == run_fast::<Data, S>(
            conn,
            Seq::empty(),
            0,
            pos,
        ),
        run_fast::<Data, S>(conn, rest, room, pos).discard == pos,
        run_common::<Data, S>(conn, rest, pos) == run_common::<Data, S>(conn, Seq::empty(), pos),
        run_common::<Data, S>(conn, rest, pos).discard == pos,
{
}

/// When the peer's closing was told, all data that the peer has sent was handed out: no more data
/// comes, neither early nor other, whatever is handed in.
pub proof fn law_no_data_after_peer_closed<Data: SideData, S: State<Data>>(
    conn: ConnectionView<S::Model>,
    rest: Seq<u8>,
    base: nat,
    later: Seq<u8>,
    room: nat,
)
    requires
        run_common::<Data, S>(conn, rest, base).outcome is PeerClosed,
    ensures
        ({
            let closed = run_common::<Data, S>(conn, rest, base).conn;
            &&& closed.core.common.has_received_close_notify
            &&& !(run_common::<Data, S>(closed, later, 0).outcome is ReadTraffic)
            &&& !(run_common::<Data, S>(closed, later, 0).outcome is ReadEarlyData)
            &&& !(run_fast::<Data, S>(closed, later, room, 0).outcome is FastReadLen)
        }),
    decreases rest.len(), conn.hs.pending.len(),
{
    reveal(fed_common);
    lemma_step_common::<Data, S>(conn, rest, base);
    match step_common::<Data, S>(conn, rest, base) {
        Advance::More { conn: next, consumed, released } => {
            law_no_data_after_peer_closed::<Data, S>(
                next,
                rest.skip(consumed as int),
                base + released,
                later,
                room,
            );
        },
        Advance::Done(run) => {
            lemma_deframed_untouched(conn.core.common, conn.hs, rest, None);
        },
    }
}

/// When the peer's closing was told on the fast path, no more data comes there, whatever is handed
/// in.
pub proof fn law_fast_no_data_after_peer_closed<Data: SideData, S: State<Data>>(
    conn: ConnectionView<S::Model>,
    rest: Seq<u8>,
    room: nat,
    pos: nat,
    later: Seq<u8>,
    later_room: nat,
)
    requires
        run_fast::<Data, S>(conn, rest, room, pos).outcome is PeerClosed,
    ensures
        ({
            let closed = run_fast::<Data, S>(conn, rest, room, pos).conn;
            &&& closed.core.common.has_received_close_notify
            &&& !(run_fast::<Data, S>(closed, later, later_room, 0).outcome is FastReadLen)
        }),
    decreases rest.len(), conn.hs_fast.pending.len(),
{
    reveal(fed_fast);
    lemma_step_fast::<Data, S>(conn, rest, room, pos);
    match step_fast::<Data, S>(conn, rest, room, pos) {
        Advance::More { conn: next, consumed, released } => {
            law_fast_no_data_after_peer_closed::<Data, S>(
                next,
                rest.skip(consumed as int),
                room,
                pos + consumed,
                later,
                later_room,
            );
        },
        Advance::Done(run) => {
            lemma_deframed_untouched(conn.core.common, conn.hs_fast, rest, Some(room));
        },
    }
}

/// A connection is closed only where both sides have closed it, and stays closed: whatever is
/// handed in later, and on which path, it comes to the same, and the connection does not change.
/// What is handed in is not even looked at.
pub proof fn law_closed_is_terminal<Data: SideData, S: State<Data>>(
    conn: ConnectionView<S::Model>,
    rest: Seq<u8>,
    base: nat,
    later: Seq<u8>,
    room: nat,
)
    requires
        run_common::<Data, S>(conn, rest, base).outcome is Closed,
    ensures
        ({
            let closed = run_common::<Data, S>(conn, rest, base).conn;
            let end = Run { outcome: Outcome::Closed, discard: 0, conn: closed };
            &&& closed.core.common.has_received_close_notify
            &&& closed.core.common.has_sent_close_notify
            &&& !closed.reads()
            &&& run_common::<Data, S>(closed, later, 0) == end
            &&& run_fast::<Data, S>(closed, later, room, 0) == end
        }),
    decreases rest.len(), conn.hs.pending.len(),
{
    reveal(fed_common);
    lemma_step_common::<Data, S>(conn, rest, base);
    match step_common::<Data, S>(conn, rest, base) {
        Advance::More { conn: next, consumed, released } => {
            law_closed_is_terminal::<Data, S>(
                next,
                rest.skip(consumed as int),
                base + released,
                later,
                room,
            );
        },
        Advance::Done(run) => {
            lemma_deframed_untouched(conn.core.common, conn.hs, rest, None);
        },
    }
}

/// A connection is closed only where both sides have closed it, and stays closed, on the fast path.
pub proof fn law_fast_closed_is_terminal<Data: SideData, S: State<Data>>(
    conn: ConnectionView<S::Model>,
    rest: Seq<u8>,
    room: nat,
    pos: nat,
    later: Seq<u8>,
    later_room: nat,
)
    requires
        run_fast::<Data, S>(conn, rest, room, pos).outcome is Closed,
    ensures
        ({
            let closed = run_fast::<Data, S>(conn, rest, room, pos).conn;
            let end = Run { outcome: Outcome::Closed, discard: 0, conn: closed };
            &&& closed.core.common.has_received_close_notify
            &&& closed.core.common.has_sent_close_notify
            &&& run_fast::<Data, S>(closed, later, later_room, 0) == end
        }),
    decreases rest.len(), conn.hs_fast.pending.len(),
{
    reveal(fed_fast);
    lemma_step_fast::<Data, S>(conn, rest, room, pos);
    match step_fast::<Data, S>(conn, rest, room, pos) {
        Advance::More { conn: next, consumed, released } => {
            law_fast_closed_is_terminal::<Data, S>(
                next,
                rest.skip(consumed as int),
                room,
                pos + consumed,
                later,
                later_room,
            );
        },
        Advance::Done(run) => {
            lemma_deframed_untouched(conn.core.common, conn.hs_fast, rest, Some(room));
        },
    }
}

/// A connection that has ended with an error stays ended with that error, on both paths.
pub proof fn law_ended_stays_ended<Data: SideData, S: State<Data>>(
    conn: ConnectionView<S::Model>,
    rest: Seq<u8>,
    room: nat,
    pos: nat,
    e: Error,
)
    requires
        conn.core.state == Err::<S::Model, Error>(e),
    ensures
        run_fast::<Data, S>(conn, rest, room, pos).conn.core.state == Err::<S::Model, Error>(e),
        run_common::<Data, S>(conn, rest, pos).conn.core.state == Err::<S::Model, Error>(e),
{
    reveal(fed_fast);
    reveal(fed_common);
}

/// A connection that has ended with an error gives that error for every message that comes, and
/// takes the message away with it: on the fast path for every message but application data, which
/// is for the caller.
pub proof fn law_ended_refuses_messages<Data: SideData, S: State<Data>>(
    conn: ConnectionView<S::Model>,
    rest: Seq<u8>,
    room: nat,
    base: nat,
    e: Error,
)
    requires
        conn.core.state == Err::<S::Model, Error>(e),
    ensures
        ({
            let d = deframed(conn.core.common, conn.hs, rest, None);
            let run = run_common::<Data, S>(conn, rest, base);
            conn.reads() && d.found is Message ==> {
                &&& run.outcome == Outcome::Failed(e)
                &&& run.discard == base + released(d, conn.outer_discard + d.consumed)
                &&& run.conn.core.state == Err::<S::Model, Error>(e)
            }
        }),
        ({
            let d = deframed(conn.core.common, conn.hs_fast, rest, Some(room));
            let run = run_fast::<Data, S>(conn, rest, room, base);
            conn.core.common.sendable_tls.len() == 0
                && !conn.core.common.has_received_close_notify && (d.found matches Found::Message(m)
                && !(m.typ == ContentType::ApplicationData
                && d.common.may_receive_application_data)) ==> {
                &&& run.outcome == Outcome::Failed(e)
                &&& run.discard == base + d.consumed
                &&& run.conn.core.state == Err::<S::Model, Error>(e)
            }
        }),
{
    reveal(fed_fast);
    reveal(fed_common);
}

/// There is nothing to transmit until something was encoded: after the caller has said that the
/// records were transmitted, no call asks for that again.
pub proof fn law_nothing_to_transmit_until_encoded<Data: SideData, S: State<Data>>(
    conn: ConnectionView<S::Model>,
    rest: Seq<u8>,
    base: nat,
)
    requires
        !conn.wants_write,
    ensures
        ({
            let run = run_common::<Data, S>(conn, rest, base);
            !(run.outcome is TransmitTlsData) && !run.conn.wants_write
        }),
    decreases rest.len(), conn.hs.pending.len(),
{
    reveal(fed_common);
    lemma_step_common::<Data, S>(conn, rest, base);
    if let Advance::More { conn: next, consumed, released } = step_common::<Data, S>(
        conn,
        rest,
        base,
    ) {
        law_nothing_to_transmit_until_encoded::<Data, S>(
            next,
            rest.skip(consumed as int),
            base + released,
        );
    }
}

/// There is nothing to transmit until something was encoded, on the fast path.
pub proof fn law_fast_nothing_to_transmit_until_encoded<Data: SideData, S: State<Data>>(
    conn: ConnectionView<S::Model>,
    rest: Seq<u8>,
    room: nat,
    pos: nat,
)
    requires
        !conn.wants_write,
    ensures
        ({
            let run = run_fast::<Data, S>(conn, rest, room, pos);
            !(run.outcome is TransmitTlsData) && !run.conn.wants_write
        }),
    decreases rest.len(), conn.hs_fast.pending.len(),
{
    reveal(fed_fast);
    lemma_step_fast::<Data, S>(conn, rest, room, pos);
    if let Advance::More { conn: next, consumed, released } = step_fast::<Data, S>(
        conn,
        rest,
        room,
        pos,
    ) {
        law_fast_nothing_to_transmit_until_encoded::<Data, S>(
            next,
            rest.skip(consumed as int),
            room,
            pos + consumed,
        );
    }
}

/// `process_tls_records` never comes to early data for a client, nor to data in a buffer for
/// plaintext, which it has not got. Where application data was received, it comes to that.
pub proof fn law_clients_read_application_data<S: State<ClientConnectionData>>(
    client: UnbufferedConnectionCommon<ClientConnectionData, S>,
    before: ConnectionView<S::Model>,
    rest: Seq<u8>,
    base: nat,
)
    requires
        client@ == run_common::<ClientConnectionData, S>(before, rest, base).conn,
    ensures
        ({
            let run = run_common::<ClientConnectionData, S>(before, rest, base);
            &&& !(run.outcome is ReadEarlyData)
            &&& !(run.outcome is FastReadLen)
            &&& client@.core.common.received_plaintext.len() > 0 ==> run_common::<
                ClientConnectionData,
                S,
            >(client@, rest, base).outcome is ReadTraffic
        }),
{
    lemma_run_common::<ClientConnectionData, S>(before, rest, base);
}

/// Opening a record into a buffer touches only the room for its plaintext.
pub proof fn law_opening_touches_only_the_plaintext(
    key: KeyView,
    seq: u64,
    payload: Seq<u8>,
    out: Seq<u8>,
    i: int,
)
    requires
        0 <= i < out.len(),
        i >= payload.len() - TAG_LEN,
    ensures
        buffer_after(key, seq, payload, out).len() == out.len(),
        buffer_after(key, seq, payload, out)[i] == out[i],
{
}

/// The buffer for plaintext is left alone where nothing is read: because records are waiting,
/// because the peer has closed its side, or because there is no complete record.
pub proof fn law_fast_leaves_the_buffer_alone<Data: SideData, S: State<Data>>(
    conn: ConnectionView<S::Model>,
    rest: Seq<u8>,
    out: Seq<u8>,
)
    requires
        conn.core.common.sendable_tls.len() > 0 || conn.core.common.has_received_close_notify || (
        !message_ready(conn.hs_fast.pending) && !(framed(rest) is Record)),
    ensures
        left_by_fast::<Data, S>(conn, rest, out) == out,
{
    reveal(fed_fast);
    reveal_with_fuel(deframed, 1);
    reveal_with_fuel(left_by_deframing, 1);
    reveal(first_record);
}

/// No byte of the buffer for plaintext is touched that lies behind the length of the input.
pub proof fn law_fast_touches_no_more_than_the_input<Data: SideData, S: State<Data>>(
    conn: ConnectionView<S::Model>,
    rest: Seq<u8>,
    out: Seq<u8>,
)
    ensures
        left_by_fast::<Data, S>(conn, rest, out).len() == out.len(),
        forall|i: int|
            rest.len() <= i < out.len() ==> left_by_fast::<Data, S>(conn, rest, out)[i] == out[i],
    decreases rest.len(), conn.hs_fast.pending.len(),
{
    lemma_deframing_touches(conn.core.common, conn.hs_fast, rest, out);
    lemma_step_fast::<Data, S>(conn, rest, out.len(), 0);
    if let Advance::More { conn: next, consumed, released } = step_fast::<Data, S>(
        conn,
        rest,
        out.len(),
        0,
    ) {
        law_fast_touches_no_more_than_the_input::<Data, S>(
            next,
            rest.skip(consumed as int),
            left_by_deframing(conn.core.common, conn.hs_fast, rest, out),
        );
    }
}

/// Opening records in place leaves alone what `process_tls_records` has not taken: unless it fails,
/// the bytes behind those it has processed are what they were.
pub proof fn law_in_place_leaves_the_rest_alone<Data: SideData, S: State<Data>>(
    conn: ConnectionView<S::Model>,
    rest: Seq<u8>,
    base: nat,
)
    requires
        !(run_common::<Data, S>(conn, rest, base).outcome is Failed),
    ensures
        ({
            let run = run_common::<Data, S>(conn, rest, base);
            let n = run.discard + run.conn.outer_discard - base - conn.outer_discard;
            &&& 0 <= n <= rest.len()
            &&& left_by_common::<Data, S>(conn, rest).skip(n) == rest.skip(n)
        }),
    decreases rest.len(), conn.hs.pending.len(),
{
    lemma_step_common::<Data, S>(conn, rest, base);
    lemma_step_left::<Data, S>(conn, rest, base);
    match step_common::<Data, S>(conn, rest, base) {
        Advance::More { conn: next, consumed, released } => {
            let behind = rest.skip(consumed as int);
            law_in_place_leaves_the_rest_alone::<Data, S>(next, behind, base + released);
            lemma_left_by_common::<Data, S>(next, behind);
            let run = run_common::<Data, S>(conn, rest, base);
            let n = run.discard + run.conn.outer_discard - base - conn.outer_discard;
            assert(left_by_common::<Data, S>(conn, rest).skip(n) =~= left_by_common::<Data, S>(
                next,
                behind,
            ).skip(n - consumed));
            assert(rest.skip(n) =~= behind.skip(n - consumed));
        },
        Advance::Done(_) => {
            reveal(fed_common);
            lemma_input_left(conn.core.common, conn.hs, rest);
        },
    }
}

proof fn lemma_deframing_touches(
    common: CommonView,
    hs: HandshakeBufferView,
    input: Seq<u8>,
    out: Seq<u8>,
)
    ensures
        left_by_deframing(common, hs, input, out).len() == out.len(),
        forall|i: int|
            input.len() <= i < out.len() ==> left_by_deframing(common, hs, input, out)[i] == out[i],
    decreases input.len(),
{
    reveal_with_fuel(left_by_deframing, 1);
    if !message_ready(hs.pending) {
        lemma_first_record(common, hs, input, Some(out.len()));
        if let FirstRecord::Gathered { common: c, hs: h, consumed } = first_record(
            common,
            hs,
            input,
            Some(out.len()),
        ) {
            let left = left_by_first_record(common, hs, input, out);
            let rest = input.skip(consumed as int);
            lemma_deframing_touches(c, h, rest, left);
            assert forall|i: int| input.len() <= i < out.len() implies left_by_deframing(
                common,
                hs,
                input,
                out,
            )[i] == out[i] by {
                assert(rest.len() <= i < left.len());
                assert(left[i] == out[i]);
            }
        }
    }
}

/// A close_notify alert is sent once: after it was written, writing it again changes nothing and
/// writes nothing.
pub proof fn law_close_notify_is_idempotent(common: CommonView, room: nat, later_room: nat)
    requires
        common.closing(room).1 is Ok,
    ensures
        common.closing(room).0.has_sent_close_notify,
        common.closing(room).0.closing(later_room) == (
            common.closing(room).0,
            Ok::<Seq<u8>, EncryptError>(Seq::empty()),
        ),
{
}

/// A buffer that has the size that was asked for is large enough: writing that was refused for want
/// of room is not refused for want of room again.
pub proof fn law_required_size_is_enough(common: CommonView, payload: Seq<u8>, room: nat)
    requires
        common.writing(payload, room).1 matches Err(EncryptError::InsufficientSize(e))
            && e.required_size < usize::MAX,
    ensures
        ({
            let (after, r) = common.writing(payload, room);
            let size = r->Err_0->InsufficientSize_0.required_size as nat;
            &&& size > room
            &&& after.writing(payload, size).1 is Ok
        }),
{
}

/// A buffer that has the size that was asked for is large enough for a close_notify alert, too.
pub proof fn law_required_size_is_enough_to_close(common: CommonView, room: nat)
    requires
        common.closing(room).1 matches Err(EncryptError::InsufficientSize(e)) && e.required_size
            < usize::MAX,
    ensures
        ({
            let (after, r) = common.closing(room);
            let size = r->Err_0->InsufficientSize_0.required_size as nat;
            &&& size > room
            &&& after.closing(size).1 is Ok
        }),
{
}

/// The size that is asked for is the size that is written: where writing is not refused, what is
/// written has the length that a smaller buffer would have been refused with.
pub proof fn law_required_size_is_what_is_written(common: CommonView, payload: Seq<u8>, room: nat)
    requires
        payload.len() > 0,
        records_open(common.record_layer, payload, fragment_count(payload.len())),
        common.writing(payload, room).1 is Ok,
    ensures
        ({
            let bytes = common.writing(payload, room).1->Ok_0;
            &&& bytes.len() == common.with_key_update_written().required_size(
                encrypted_size(payload.len()),
            )
            &&& forall|less: nat|
                less < bytes.len() ==> (#[trigger] common.writing(payload, less)).1 == Err::<
                    Seq<u8>,
                    EncryptError,
                >(
                    EncryptError::InsufficientSize(
                        InsufficientSizeError { required_size: clamped(bytes.len()) },
                    ),
                )
        }),
{
    let n = fragment_count(payload.len());
    lemma_records_len(common.record_layer, payload, n);
    crate::msgs::buffers::lemma_flat_len(common.with_key_update_written().sendable_tls);
}

proof fn lemma_records_len(layer: RecordLayerView, payload: Seq<u8>, n: nat)
    requires
        n <= fragment_count(payload.len()),
        records_open(layer, payload, fragment_count(payload.len())),
    ensures
        records_of(layer, payload, n).len() == (if n < fragment_count(payload.len()) {
            n * MAX_FRAGMENT_LEN
        } else {
            payload.len() as int
        }) + n * RECORD_OVERHEAD,
    decreases n,
{
    if n > 0 {
        let i = (n - 1) as nat;
        lemma_records_len(layer, payload, i);
        assert(fragment(payload, i).len() == (if n < fragment_count(payload.len()) {
            MAX_FRAGMENT_LEN as int
        } else {
            payload.len() - i * MAX_FRAGMENT_LEN
        }));
    }
}

/// The size that is asked for is the size that is written, for a close_notify alert, too.
pub proof fn law_required_size_is_what_closing_writes(common: CommonView, room: nat)
    requires
        !common.has_sent_close_notify,
        record_opens(common.record_layer, close_notify_message()),
        common.closing(room).1 is Ok,
    ensures
        ({
            let bytes = common.closing(room).1->Ok_0;
            forall|less: nat|
                less < bytes.len() ==> (#[trigger] common.closing(less)).1 == Err::<
                    Seq<u8>,
                    EncryptError,
                >(
                    EncryptError::InsufficientSize(
                        InsufficientSizeError { required_size: clamped(bytes.len()) },
                    ),
                )
        }),
{
    crate::msgs::buffers::lemma_flat_len(common.with_key_update_written().sendable_tls);
}

/// A trial that fails leaves no trace. One that succeeds is remembered, and nothing that is tried
/// later takes it back.
pub proof fn law_trials_only_add_proofs(model: TrafficModel, payload: Seq<u8>, seq: u64, room: nat)
    ensures
        model.tried(payload, seq, room).0 is Err ==> model.tried(payload, seq, room).1 == model,
        model.tried(payload, seq, room).0 is Ok ==> model.tried(
            payload,
            seq,
            room,
        ).1.authenticated.contains(seq),
        forall|proven: u64|
            model.authenticated.contains(proven) ==> #[trigger] model.tried(
                payload,
                seq,
                room,
            ).1.authenticated.contains(proven),
{
}

/// A trial that fails with `DecryptError` had room for the plaintext, and the record does not
/// authenticate: it is too short for a tag, or its tag is wrong. Want of room and a record that
/// holds nothing but padding are told apart, and no trial fails in another way.
pub proof fn law_trial_errors_are_told_apart(
    model: TrafficModel,
    payload: Seq<u8>,
    seq: u64,
    room: nat,
)
    ensures
        ({
            let found = opened(
                traffic_key(model.suite, model.next_inbound_secret),
                seq,
                payload,
            );
            let r = model.tried(payload, seq, room).0;
            let fits = payload.len() <= room + TAG_LEN;
            let empty = Error::PeerMisbehaved(PeerMisbehaved::IllegalTlsInnerPlaintext);
            let small = Error::General("output buffer too small");
            &&& r == Err::<PlainMessageView, Error>(Error::DecryptError) <==> fits && (payload.len()
                < TAG_LEN || found is None)
            &&& r == Err::<PlainMessageView, Error>(empty) <==> fits && payload.len() >= TAG_LEN
                && found is Some && unpadded(found->0) is None
            &&& r == Err::<PlainMessageView, Error>(small) <==> !fits
            &&& r matches Err(e) ==> e == Error::DecryptError || e == empty || e == small
        }),
{
}

/// The next incoming key is committed exactly where it has opened the record in question, and the
/// last sequence number has no successor. Else nothing changes.
pub proof fn law_commit_needs_a_proof(model: TrafficModel, common: CommonView, matched_seq: u64)
    ensures
        model.committed(common, matched_seq).0 is Ok <==> matched_seq != u64::MAX
            && model.authenticated.contains(matched_seq),
        model.committed(common, matched_seq).0 is Err ==> {
            &&& model.committed(common, matched_seq).1 == model
            &&& model.committed(common, matched_seq).2 == common
        },
{
}

/// A record that the next incoming key has opened can be committed, as long as no other key update
/// came in between. Then that key is the current one, the record's successor is expected, and the
/// key after it is prepared; no proof of the old key counts for the new one.
pub proof fn law_trial_allows_commit(
    model: TrafficModel,
    common: CommonView,
    payload: Seq<u8>,
    seq: u64,
    room: nat,
    again: u64,
)
    requires
        model.tried(payload, seq, room).0 is Ok,
        seq != u64::MAX,
    ensures
        ({
            let proven = model.tried(payload, seq, room).1;
            let (r, next, after) = proven.committed(common, seq);
            &&& r is Ok
            &&& after.record_layer.decrypter == Some(
                traffic_key(model.suite, model.next_inbound_secret),
            )
            &&& after.record_layer.read_seq == seq + 1
            &&& next.next_inbound_secret == next_secret(model.suite, model.next_inbound_secret)
            &&& next.committed(after, again).0 is Err
        }),
{
}

/// A key update of the peer uses the same chain of keys as a commit: it installs the key that was
/// prepared, prepares the one after it, and makes earlier proofs worthless.
pub proof fn law_key_update_uses_the_prepared_key(
    model: TrafficModel,
    common: CommonView,
    request: u8,
    matched_seq: u64,
)
    requires
        request <= 1,
        common.aligned_handshake,
    ensures
        ({
            let (r, after) = model.updated(common, seq![request]);
            &&& r matches Ok(next)
            &&& after.record_layer.decrypter == Some(
                traffic_key(model.suite, model.next_inbound_secret),
            )
            &&& after.record_layer.read_seq == 0
            &&& next.next_inbound_secret == next_secret(model.suite, model.next_inbound_secret)
            &&& next.committed(after, matched_seq).0 is Err
        }),
{
}

/// Can the reader open what the writer sends next? The reader's key is the writer's, the sequence
/// numbers agree, and the reader has prepared the key that the writer will use next.
pub open spec fn in_step(
    writer: TrafficModel,
    write_layer: RecordLayerView,
    reader: TrafficModel,
    read_layer: RecordLayerView,
) -> bool {
    &&& writer.suite == reader.suite
    &&& write_layer.encrypter matches Some(e)
    &&& read_layer.decrypter == Some(e.key)
    &&& write_layer.write_seq == read_layer.read_seq
    &&& reader.next_inbound_secret == next_secret(writer.suite, writer.outbound_secret)
}

/// The two ends of a connection start in step, in both directions.
pub proof fn law_peers_start_in_step(
    suite: Tls13CipherSuite,
    client_secret: Seq<u8>,
    server_secret: Seq<u8>,
)
    ensures
        ({
            let client = TrafficModel {
                suite,
                outbound_secret: client_secret,
                next_inbound_secret: next_secret(suite, server_secret),
                authenticated: Set::empty(),
            };
            let server = TrafficModel {
                suite,
                outbound_secret: server_secret,
                next_inbound_secret: next_secret(suite, client_secret),
                authenticated: Set::empty(),
            };
            let client_layer = established(
                Side::Client,
                suite,
                client_secret,
                server_secret,
            ).record_layer;
            let server_layer = established(
                Side::Server,
                suite,
                server_secret,
                client_secret,
            ).record_layer;
            &&& in_step(client, client_layer, server, server_layer)
            &&& in_step(server, server_layer, client, client_layer)
        }),
{
}

/// A key update keeps peers in step: after the writer has moved on to its next key and the reader
/// has followed, the reader can open what the writer sends next.
pub proof fn law_key_update_keeps_peers_in_step(
    writer: TrafficModel,
    write_common: CommonView,
    reader: TrafficModel,
    read_common: CommonView,
)
    requires
        writer.requested(write_common).0 is Ok,
        in_step(writer, write_common.record_layer, reader, read_common.record_layer),
        read_common.aligned_handshake,
    ensures
        ({
            let (_, next_writer, after_write) = writer.requested(write_common);
            let (r, after_read) = reader.updated(read_common, seq![1u8]);
            &&& r matches Ok(next_reader)
            &&& in_step(
                next_writer,
                after_write.record_layer,
                next_reader,
                after_read.record_layer,
            )
        }),
{
}

/// Handshake messages are not interleaved with other records: where one is incomplete, a record of
/// another type ends the connection.
pub proof fn law_no_interleaving(
    common: CommonView,
    hs: HandshakeBufferView,
    input: Seq<u8>,
    room: Option<nat>,
    record: PlainMessageView,
    m: PlainMessageView,
)
    requires
        hs.pending.len() > 0,
        !message_ready(hs.pending),
        framed(input) == Framed::Record(record),
        taken(common, record, true, room).0 == Ok::<PlainMessageView, Error>(m),
        m.typ != ContentType::Handshake,
    ensures
        deframed(common, hs, input, room).found == Found::Failed(interleaved_error()),
        deframed(common, hs, input, room).common.sent_fatal_alert,
{
    reveal_with_fuel(deframed, 1);
    reveal(first_record);
    reveal(CommonView::with_fatal_alert);
}

/// A record that has not come completely changes nothing, on the fast path: given a proper prefix
/// of it, with nothing to be done before, a connection comes to what it comes to without a message,
/// has nothing removed, stays as it was, and leaves the buffer for plaintext alone. Until the
/// handshake is done, and with nothing to transmit, it waits for more.
pub proof fn law_fast_prefix_of_record_waits<Data: SideData, S: State<Data>>(
    conn: ConnectionView<S::Model>,
    whole: Seq<u8>,
    n: nat,
    out: Seq<u8>,
)
    requires
        framed(whole) is Record,
        n < wire_len(framed(whole)->Record_0),
        conn.core.common.sendable_tls.len() == 0,
        !conn.core.common.has_received_close_notify,
        !message_ready(conn.hs_fast.pending),
    ensures
        ({
            let run = run_fast::<Data, S>(conn, whole.take(n as int), out.len(), 0);
            &&& run.outcome == conn.idle().0
            &&& run.discard == 0
            &&& run.conn == conn
            &&& !conn.wants_write && !conn.core.common.may_send_application_data
                ==> run.outcome is BlockedHandshake
            &&& left_by_fast::<Data, S>(conn, whole.take(n as int), out) == out
        }),
{
    law_prefix_of_record_is_incomplete(whole, n);
    reveal(fed_fast);
    reveal(first_record);
    reveal_with_fuel(deframed, 1);
    reveal_with_fuel(left_by_deframing, 1);
}

/// A record that has not come completely changes nothing: given a proper prefix of it, with
/// nothing to be done before, a connection comes to what it comes to without a message, has
/// nothing removed, and stays as it was, as the input does. Until the handshake is done, and with
/// nothing to transmit, it waits for more.
pub proof fn law_prefix_of_record_waits<Data: SideData, S: State<Data>>(
    conn: ConnectionView<S::Model>,
    whole: Seq<u8>,
    n: nat,
)
    requires
        framed(whole) is Record,
        n < wire_len(framed(whole)->Record_0),
        conn.reads(),
        !message_ready(conn.hs.pending),
    ensures
        ({
            let run = run_common::<Data, S>(conn, whole.take(n as int), 0);
            &&& run.outcome == conn.idle().0
            &&& run.discard == 0
            &&& run.conn == conn
            &&& !conn.wants_write && !conn.core.common.may_send_application_data
                ==> run.outcome is BlockedHandshake
            &&& left_by_common::<Data, S>(conn, whole.take(n as int)) == whole.take(n as int)
        }),
{
    law_prefix_of_record_is_incomplete(whole, n);
    reveal(fed_common);
    reveal(first_record);
    reveal_with_fuel(deframed, 1);
    reveal_with_fuel(input_left, 1);
}

/// A connection after `n` calls on the fast path: the first is given nothing, and each call that
/// follows one byte more of `whole` than the last.
pub open spec fn after_fast_prefixes<Data: SideData, S: State<Data>>(
    conn: ConnectionView<S::Model>,
    whole: Seq<u8>,
    room: nat,
    n: nat,
) -> ConnectionView<S::Model>
    decreases n,
{
    if n == 0 {
        conn
    } else {
        let before = after_fast_prefixes::<Data, S>(conn, whole, room, (n - 1) as nat);
        run_fast::<Data, S>(before, whole.take(n - 1), room, 0).conn
    }
}

/// A connection after `n` calls of `process_tls_records`: the first is given nothing behind the
/// bytes that were processed before, and each call that follows one byte more of `whole` than the
/// last.
pub open spec fn after_prefixes<Data: SideData, S: State<Data>>(
    conn: ConnectionView<S::Model>,
    whole: Seq<u8>,
    n: nat,
) -> ConnectionView<S::Model>
    decreases n,
{
    if n == 0 {
        conn
    } else {
        let before = after_prefixes::<Data, S>(conn, whole, (n - 1) as nat);
        run_common::<Data, S>(before, whole.take(n - 1), 0).conn
    }
}

/// A record may come byte by byte, on the fast path: no call before its last byte has come has
/// anything removed or changes the connection, and so the call that is given all of it comes to
/// what it would have come to without the others.
pub proof fn law_fast_record_comes_byte_by_byte<Data: SideData, S: State<Data>>(
    conn: ConnectionView<S::Model>,
    whole: Seq<u8>,
    room: nat,
    n: nat,
)
    requires
        framed(whole) is Record,
        n <= wire_len(framed(whole)->Record_0),
        conn.core.common.sendable_tls.len() == 0,
        !conn.core.common.has_received_close_notify,
        !message_ready(conn.hs_fast.pending),
    ensures
        after_fast_prefixes::<Data, S>(conn, whole, room, n) == conn,
        run_fast::<Data, S>(
            after_fast_prefixes::<Data, S>(conn, whole, room, n),
            whole,
            room,
            0,
        ) == run_fast::<Data, S>(conn, whole, room, 0),
        forall|i: nat|
            i < n ==> ({
                let run = run_fast::<Data, S>(
                    #[trigger] after_fast_prefixes::<Data, S>(conn, whole, room, i),
                    whole.take(i as int),
                    room,
                    0,
                );
                run.outcome == conn.idle().0 && run.discard == 0
            }),
    decreases n,
{
    if n > 0 {
        let last = (n - 1) as nat;
        law_fast_record_comes_byte_by_byte::<Data, S>(conn, whole, room, last);
        law_fast_prefix_of_record_waits::<Data, S>(
            conn,
            whole,
            last,
            Seq::new(room, |i: int| 0u8),
        );
    }
}

/// A record may come byte by byte: no call before its last byte has come has anything removed or
/// changes the connection, and so the call that is given all of it comes to what it would have come
/// to without the others.
pub proof fn law_record_comes_byte_by_byte<Data: SideData, S: State<Data>>(
    conn: ConnectionView<S::Model>,
    whole: Seq<u8>,
    n: nat,
)
    requires
        framed(whole) is Record,
        n <= wire_len(framed(whole)->Record_0),
        conn.reads(),
        !message_ready(conn.hs.pending),
    ensures
        after_prefixes::<Data, S>(conn, whole, n) == conn,
        run_common::<Data, S>(after_prefixes::<Data, S>(conn, whole, n), whole, 0) == run_common::<
            Data,
            S,
        >(conn, whole, 0),
        forall|i: nat|
            i < n ==> ({
                let run = run_common::<Data, S>(
                    #[trigger] after_prefixes::<Data, S>(conn, whole, i),
                    whole.take(i as int),
                    0,
                );
                run.outcome == conn.idle().0 && run.discard == 0
            }),
    decreases n,
{
    if n > 0 {
        let last = (n - 1) as nat;
        law_record_comes_byte_by_byte::<Data, S>(conn, whole, last);
        law_prefix_of_record_waits::<Data, S>(conn, whole, last);
    }
}

/// The record that fragment `i` of a payload is written as.
pub open spec fn written_record(layer: RecordLayerView, payload: Seq<u8>, i: nat) -> Seq<u8> {
    after_records(layer, i).encrypted(data_message(fragment(payload, i)))
}

/// Fragments lose nothing: one behind the other they are the payload.
pub proof fn law_fragments_join(payload: Seq<u8>, n: nat)
    requires
        n <= fragment_count(payload.len()),
    ensures
        joined_fragments(payload, n) == payload.take(
            if n * MAX_FRAGMENT_LEN <= payload.len() {
                (n * MAX_FRAGMENT_LEN) as int
            } else {
                payload.len() as int
            },
        ),
        n == fragment_count(payload.len()) ==> joined_fragments(payload, n) == payload,
    decreases n,
{
    if n == 0 {
        assert(payload.take(0) =~= Seq::<u8>::empty());
        if payload.len() == 0 {
            assert(payload =~= Seq::<u8>::empty());
        }
    } else {
        law_fragments_join(payload, (n - 1) as nat);
        let start = (n - 1) * MAX_FRAGMENT_LEN;
        assert(start < payload.len());
        let end = if n * MAX_FRAGMENT_LEN <= payload.len() {
            (n * MAX_FRAGMENT_LEN) as int
        } else {
            payload.len() as int
        };
        assert(payload.take(start) + fragment(payload, (n - 1) as nat) =~= payload.take(end));
        if n == fragment_count(payload.len()) {
            assert(end == payload.len());
            assert(payload.take(end) =~= payload);
        }
    }
}

/// The first `n` fragments of a payload, one behind the other.
pub open spec fn joined_fragments(payload: Seq<u8>, n: nat) -> Seq<u8>
    decreases n,
{
    if n == 0 {
        Seq::empty()
    } else {
        joined_fragments(payload, (n - 1) as nat) + fragment(payload, (n - 1) as nat)
    }
}

/// A record of application data that was written is found in the stream of the peer, opens with
/// the peer's key, and holds the fragment.
proof fn lemma_written_record(
    writer: RecordLayerView,
    payload: Seq<u8>,
    i: nat,
    reader: RecordLayerView,
    tail: Seq<u8>,
)
    requires
        writer.encrypter is Some,
        i < fragment_count(payload.len()),
        writer.write_seq + fragment_count(payload.len()) <= SEQ_HARD_LIMIT,
        records_open(writer, payload, fragment_count(payload.len())),
        reader.decrypter == Some(writer.encrypter->0.key),
        reader.read_seq == writer.write_seq + i,
    ensures
        ({
            let bytes = written_record(writer, payload, i);
            let record = PlainMessageView {
                typ: ContentType::ApplicationData,
                version: ProtocolVersion::TLSv1_2,
                payload: bytes.skip(HEADER_LEN as int),
            };
            let found = PlainMessageView {
                typ: ContentType::ApplicationData,
                version: ProtocolVersion::TLSv1_3,
                payload: fragment(payload, i),
            };
            &&& framed(bytes + tail) == Framed::Record(record)
            &&& wire_len(record) == bytes.len()
            &&& bytes.len() == fragment(payload, i).len() + RECORD_OVERHEAD
            &&& fragment(payload, i).len() <= MAX_FRAGMENT_LEN
            &&& fragment(payload, i).len() > 0
            &&& reader.incoming(record.payload) == Ok::<PlainMessageView, Error>(found)
            &&& forall|room: nat|
                room > fragment(payload, i).len() ==> #[trigger] reader.incoming_to(
                    record.payload,
                    room,
                ) == Ok::<PlainMessageView, Error>(found)
        }),
{
    let msg = data_message(fragment(payload, i));
    let bytes = written_record(writer, payload, i);
    let inner = bytes.skip(HEADER_LEN as int);
    assert(i * MAX_FRAGMENT_LEN < payload.len());
    assert(bytes.len() == msg.payload.len() + RECORD_OVERHEAD);
    let sealed_payload = crate::crypto::tls13::sealed(
        after_records(writer, i).encrypter->0.key,
        after_records(writer, i).write_seq,
        inner_plaintext(msg),
    )->0;
    assert(bytes == crate::msgs::message::record(
        ContentType::ApplicationData,
        ProtocolVersion::TLSv1_2,
        sealed_payload,
    ));
    assert(inner =~= sealed_payload);
    law_encoded_record_is_found(
        ContentType::ApplicationData,
        ProtocolVersion::TLSv1_2,
        sealed_payload,
        tail,
    );
    let key = writer.encrypter->0.key;
    let seq = (writer.write_seq + i) as u64;
    assert(opened(key, seq, inner) == Some(inner_plaintext(msg)));
    law_decrypt_to_undoes_encrypt(key, seq, msg, inner, msg.payload.len() + 1);
    assert forall|room: nat| room > fragment(payload, i).len() implies #[trigger] reader.incoming_to(
        inner,
        room,
    ) == reader.incoming_to(inner, msg.payload.len() + 1) by {
        law_decrypt_to_undoes_encrypt(key, seq, msg, inner, room);
    }
}

/// Is this connection ready to read what the peer sends, with nothing to be done before?
pub open spec fn ready_to_read<M>(conn: ConnectionView<M>) -> bool {
    &&& conn.core.common.may_receive_application_data
    &&& !conn.core.common.has_received_close_notify
    &&& conn.core.common.sendable_tls.len() == 0
    &&& conn.core.common.received_plaintext.len() == 0
    &&& conn.core.early_data.len() == 0
    &&& conn.hs.pending.len() == 0
    &&& conn.outer_discard == 0
    &&& conn.hs_fast.pending.len() == 0
}

/// What was written is read, on the fast path: a connection that has the writer's key, and expects
/// the sequence number of fragment `i`, hands out that fragment when it is given the record, and
/// then expects the next one. Exactly that record is used up, whatever follows it.
pub proof fn law_fast_read_gives_what_was_written<Data: SideData, S: State<Data>>(
    writer: RecordLayerView,
    payload: Seq<u8>,
    i: nat,
    conn: ConnectionView<S::Model>,
    tail: Seq<u8>,
    room: nat,
)
    requires
        writer.encrypter is Some,
        i < fragment_count(payload.len()),
        writer.write_seq + fragment_count(payload.len()) <= SEQ_HARD_LIMIT,
        records_open(writer, payload, fragment_count(payload.len())),
        ready_to_read(conn),
        conn.core.common.record_layer.decrypter == Some(writer.encrypter->0.key),
        conn.core.common.record_layer.read_seq == writer.write_seq + i,
        room > fragment(payload, i).len(),
    ensures
        ({
            let bytes = written_record(writer, payload, i);
            let run = run_fast::<Data, S>(conn, bytes + tail, room, 0);
            &&& run.outcome == Outcome::FastReadLen(fragment(payload, i))
            &&& run.discard == bytes.len()
            &&& ready_to_read(run.conn)
            &&& run.conn.core.common.record_layer.decrypter
                == conn.core.common.record_layer.decrypter
            &&& run.conn.core.common.record_layer.read_seq == writer.write_seq + i + 1
        }),
{
    let common = conn.core.common;
    lemma_written_record(writer, payload, i, common.record_layer, tail);
    let bytes = written_record(writer, payload, i);
    reveal(fed_fast);
    reveal_with_fuel(deframed, 1);
    reveal(first_record);
    reveal(taken);
    let record = PlainMessageView {
        typ: ContentType::ApplicationData,
        version: ProtocolVersion::TLSv1_2,
        payload: bytes.skip(HEADER_LEN as int),
    };
    assert(common.record_layer.incoming_to(record.payload, room) is Ok);
    assert(!plaintext_allowed(common, record, false));
}

/// What a caller gets that takes a piece of the data a connection has for it: the first piece, and
/// the connection without it.
pub open spec fn piece_taken<M>(conn: ConnectionView<M>) -> (Seq<u8>, ConnectionView<M>) {
    let common = conn.core.common;
    (
        common.received_plaintext[0],
        conn.with_common(
            CommonView { received_plaintext: common.received_plaintext.skip(1), ..common },
        ),
    )
}

/// A record of application data that was written is taken, and its fragment is kept for the caller.
proof fn lemma_data_is_taken<Data: SideData>(
    writer: RecordLayerView,
    payload: Seq<u8>,
    i: nat,
    conn: ConnectionView<TrafficModel>,
    tail: Seq<u8>,
)
    requires
        writer.encrypter is Some,
        i < fragment_count(payload.len()),
        writer.write_seq + fragment_count(payload.len()) <= SEQ_HARD_LIMIT,
        records_open(writer, payload, fragment_count(payload.len())),
        ready_to_read(conn),
        conn.core.state is Ok,
        conn.core.common.record_layer.decrypter == Some(writer.encrypter->0.key),
        conn.core.common.record_layer.read_seq == writer.write_seq + i,
    ensures
        ({
            let bytes = written_record(writer, payload, i);
            let common = conn.core.common;
            let (fed, next, n, free) = fed_common::<Data, TrafficState>(conn, bytes + tail);
            &&& fed is Taken
            &&& n == bytes.len()
            &&& free == bytes.len()
            &&& next == (ConnectionView {
                core: CoreView {
                    common: CommonView {
                        record_layer: common.record_layer.after_decrypt(),
                        received_plaintext: seq![fragment(payload, i)],
                        ..common
                    },
                    ..conn.core
                },
                ..conn
            })
        }),
{
    let common = conn.core.common;
    lemma_written_record(writer, payload, i, common.record_layer, tail);
    let bytes = written_record(writer, payload, i);
    let record = PlainMessageView {
        typ: ContentType::ApplicationData,
        version: ProtocolVersion::TLSv1_2,
        payload: bytes.skip(HEADER_LEN as int),
    };
    let found = PlainMessageView {
        typ: ContentType::ApplicationData,
        version: ProtocolVersion::TLSv1_3,
        payload: fragment(payload, i),
    };
    assert(!plaintext_allowed(common, record, false));
    assert(taken(common, record, false, None) == (
        Ok::<PlainMessageView, Error>(found),
        CommonView { record_layer: common.record_layer.after_decrypt(), ..common },
    )) by {
        reveal(taken);
    }
    assert(deframed(common, conn.hs, bytes + tail, None) == Deframed {
        found: Found::Message(found),
        common: CommonView { record_layer: common.record_layer.after_decrypt(), ..common },
        hs: conn.hs,
        consumed: bytes.len(),
        last: bytes.len(),
    }) by {
        reveal_with_fuel(deframed, 1);
        reveal(first_record);
    }
    reveal(fed_common);
    reveal(processed);
    assert(common.received_plaintext.push(fragment(payload, i)) =~= seq![fragment(payload, i)]);
}

/// What was written is read: a connection that has the writer's key, and expects the sequence
/// number of fragment `i`, has that fragment for the caller when it is given the record. Exactly
/// that record is used up, whatever follows it. Once the caller has taken the fragment, the
/// connection is ready to read again, and expects the next one.
pub proof fn law_read_gives_what_was_written<Data: SideData>(
    writer: RecordLayerView,
    payload: Seq<u8>,
    i: nat,
    conn: ConnectionView<TrafficModel>,
    tail: Seq<u8>,
)
    requires
        writer.encrypter is Some,
        i < fragment_count(payload.len()),
        writer.write_seq + fragment_count(payload.len()) <= SEQ_HARD_LIMIT,
        records_open(writer, payload, fragment_count(payload.len())),
        ready_to_read(conn),
        conn.core.state is Ok,
        conn.core.common.record_layer.decrypter == Some(writer.encrypter->0.key),
        conn.core.common.record_layer.read_seq == writer.write_seq + i,
    ensures
        ({
            let bytes = written_record(writer, payload, i);
            let run = run_common::<Data, TrafficState>(conn, bytes + tail, 0);
            &&& run.outcome is ReadTraffic
            &&& run.discard == bytes.len()
            &&& run.conn.core.common.received_plaintext == seq![fragment(payload, i)]
            &&& run.conn.core.state == conn.core.state
            &&& run.conn.core.common.record_layer.decrypter
                == conn.core.common.record_layer.decrypter
            &&& run.conn.core.common.record_layer.read_seq == writer.write_seq + i + 1
            &&& piece_taken(run.conn).0 == fragment(payload, i)
            &&& ready_to_read(piece_taken(run.conn).1)
        }),
{
    let bytes = written_record(writer, payload, i);
    lemma_data_is_taken::<Data>(writer, payload, i, conn, tail);
    let (fed, next, n, free) = fed_common::<Data, TrafficState>(conn, bytes + tail);
    lemma_step_common::<Data, TrafficState>(conn, bytes + tail, 0);
    let rest = (bytes + tail).skip(n as int);
    assert(run_common::<Data, TrafficState>(next, rest, free).outcome is ReadTraffic);
}

/// Where a record is opened in place, what was written lies in the caller's buffer: behind the
/// header of the record come the fragment, its content type and the tag, and what follows the
/// record is left as it was.
pub proof fn law_data_lies_where_it_was_sealed<Data: SideData>(
    writer: RecordLayerView,
    payload: Seq<u8>,
    i: nat,
    conn: ConnectionView<TrafficModel>,
    tail: Seq<u8>,
)
    requires
        writer.encrypter is Some,
        i < fragment_count(payload.len()),
        writer.write_seq + fragment_count(payload.len()) <= SEQ_HARD_LIMIT,
        records_open(writer, payload, fragment_count(payload.len())),
        ready_to_read(conn),
        conn.core.state is Ok,
        conn.core.common.record_layer.decrypter == Some(writer.encrypter->0.key),
        conn.core.common.record_layer.read_seq == writer.write_seq + i,
    ensures
        ({
            let bytes = written_record(writer, payload, i);
            left_by_call::<Data, TrafficState>(conn, bytes + tail) == bytes.take(HEADER_LEN as int)
                + inner_plaintext(data_message(fragment(payload, i))) + bytes.skip(
                bytes.len() - TAG_LEN,
            ) + tail
        }),
{
    let common = conn.core.common;
    let bytes = written_record(writer, payload, i);
    let input = bytes + tail;
    lemma_written_record(writer, payload, i, common.record_layer, tail);
    lemma_data_is_taken::<Data>(writer, payload, i, conn, tail);
    let record = framed(input)->Record_0;
    let plain = inner_plaintext(data_message(fragment(payload, i)));
    let (fed, next, n, free) = fed_common::<Data, TrafficState>(conn, input);
    assert(!plaintext_allowed(common, record, false));
    assert(opened(writer.encrypter->0.key, (writer.write_seq + i) as u64, record.payload) == Some(
        plain,
    ));
    assert(payload_left(common, record, false) =~= plain + bytes.skip(bytes.len() - TAG_LEN));
    let left = input_left(common, conn.hs, input);
    assert(left =~= bytes.take(HEADER_LEN as int) + plain + bytes.skip(bytes.len() - TAG_LEN)
        + tail) by {
        reveal_with_fuel(input_left, 1);
        reveal(first_record);
        reveal(taken);
    }
    let rest = input.skip(n as int);
    assert(rest =~= tail);
    assert(!next.reads());
    assert(left_by_common::<Data, TrafficState>(next, rest) == rest);
    assert(left_by_common::<Data, TrafficState>(conn, input) =~= left);
    assert(input.take(0) + left =~= left);
    assert(input.skip(0) =~= input);
}

/// The records of a payload are written one behind the other, in the order of its fragments.
pub proof fn law_records_come_in_order(layer: RecordLayerView, payload: Seq<u8>, i: nat, n: nat)
    requires
        i < n,
    ensures
        records_of(layer, payload, n).take(records_of(layer, payload, i).len() as int)
            == records_of(layer, payload, i),
        records_of(layer, payload, i) + written_record(layer, payload, i) == records_of(
            layer,
            payload,
            i + 1,
        ),
    decreases n,
{
    let all = records_of(layer, payload, n);
    let front = records_of(layer, payload, i);
    if i + 1 < n {
        law_records_come_in_order(layer, payload, i, (n - 1) as nat);
        let shorter = records_of(layer, payload, (n - 1) as nat);
        assert(front.len() <= shorter.len()) by {
            lemma_records_grow(layer, payload, i, (n - 1) as nat);
        }
        assert(all.take(front.len() as int) =~= shorter.take(front.len() as int));
    } else {
        assert(all.take(front.len() as int) =~= front);
    }
}

proof fn lemma_records_grow(layer: RecordLayerView, payload: Seq<u8>, i: nat, n: nat)
    requires
        i <= n,
    ensures
        records_of(layer, payload, i).len() <= records_of(layer, payload, n).len(),
    decreases n,
{
    if i < n {
        lemma_records_grow(layer, payload, i, (n - 1) as nat);
    }
}

/// Reading `n` times on the fast path, each time behind what the last call has used up: the data
/// that comes, one piece behind the other, what becomes of the connection, and what is left of the
/// input.
pub open spec fn read_times<Data: SideData, S: State<Data>>(
    conn: ConnectionView<S::Model>,
    input: Seq<u8>,
    room: nat,
    n: nat,
) -> (Seq<u8>, ConnectionView<S::Model>, Seq<u8>)
    decreases n,
{
    if n == 0 {
        (Seq::empty(), conn, input)
    } else {
        let (data, conn, rest) = read_times::<Data, S>(conn, input, room, (n - 1) as nat);
        let run = run_fast::<Data, S>(conn, rest, room, 0);
        match run.outcome {
            Outcome::FastReadLen(piece) => (
                data + piece,
                run.conn,
                rest.skip(run.discard as int),
            ),
            _ => (data, run.conn, rest),
        }
    }
}

/// What was written is read, all of it: a connection that has the writer's key, and expects the
/// writer's next sequence number, hands out the payload, record by record, when it is given the
/// records, and uses exactly these up. Afterwards it expects what the writer sends next.
pub proof fn law_fast_reads_give_the_payload<Data: SideData, S: State<Data>>(
    writer: RecordLayerView,
    payload: Seq<u8>,
    conn: ConnectionView<S::Model>,
    tail: Seq<u8>,
    room: nat,
)
    requires
        writer.encrypter is Some,
        writer.write_seq + fragment_count(payload.len()) <= SEQ_HARD_LIMIT,
        records_open(writer, payload, fragment_count(payload.len())),
        ready_to_read(conn),
        conn.core.common.record_layer.decrypter == Some(writer.encrypter->0.key),
        conn.core.common.record_layer.read_seq == writer.write_seq,
        room > MAX_FRAGMENT_LEN,
    ensures
        ({
            let n = fragment_count(payload.len());
            let (data, after, rest) = read_times::<Data, S>(
                conn,
                records_of(writer, payload, n) + tail,
                room,
                n,
            );
            let moved = after_records(writer, n);
            &&& data == payload
            &&& rest == tail
            &&& ready_to_read(after)
            &&& moved.encrypter is Some
            &&& after.core.common.record_layer.decrypter == Some(moved.encrypter->0.key)
            &&& after.core.common.record_layer.read_seq == moved.write_seq
        }),
{
    let n = fragment_count(payload.len());
    lemma_reads::<Data, S>(writer, payload, conn, tail, room, n);
    law_fragments_join(payload, n);
    lemma_after_records(writer, n);
    let all = records_of(writer, payload, n);
    assert(all.skip(all.len() as int) + tail =~= tail);
}

/// Reading `n` times in place, each time behind what the last call has used up, and taking a piece
/// of the data each time: the data that comes, one piece behind the other, what becomes of the
/// connection, and what is left of the input.
pub open spec fn taken_times<Data: SideData, S: State<Data>>(
    conn: ConnectionView<S::Model>,
    input: Seq<u8>,
    n: nat,
) -> (Seq<u8>, ConnectionView<S::Model>, Seq<u8>)
    decreases n,
{
    if n == 0 {
        (Seq::empty(), conn, input)
    } else {
        let (data, conn, rest) = taken_times::<Data, S>(conn, input, (n - 1) as nat);
        let run = run_common::<Data, S>(conn, rest, 0);
        match run.outcome {
            Outcome::ReadTraffic => (
                data + piece_taken(run.conn).0,
                piece_taken(run.conn).1,
                rest.skip(run.discard as int),
            ),
            _ => (data, run.conn, rest),
        }
    }
}

/// What was written is read, all of it: a connection that has the writer's key, and expects the
/// writer's next sequence number, has the payload for the caller, record by record, when it is
/// given the records, and uses exactly these up. Once the caller has taken it all, the connection
/// expects what the writer sends next.
pub proof fn law_reads_give_the_payload<Data: SideData>(
    writer: RecordLayerView,
    payload: Seq<u8>,
    conn: ConnectionView<TrafficModel>,
    tail: Seq<u8>,
)
    requires
        writer.encrypter is Some,
        writer.write_seq + fragment_count(payload.len()) <= SEQ_HARD_LIMIT,
        records_open(writer, payload, fragment_count(payload.len())),
        ready_to_read(conn),
        conn.core.state is Ok,
        conn.core.common.record_layer.decrypter == Some(writer.encrypter->0.key),
        conn.core.common.record_layer.read_seq == writer.write_seq,
    ensures
        ({
            let n = fragment_count(payload.len());
            let (data, after, rest) = taken_times::<Data, TrafficState>(
                conn,
                records_of(writer, payload, n) + tail,
                n,
            );
            let moved = after_records(writer, n);
            &&& data == payload
            &&& rest == tail
            &&& ready_to_read(after)
            &&& moved.encrypter is Some
            &&& after.core.common.record_layer.decrypter == Some(moved.encrypter->0.key)
            &&& after.core.common.record_layer.read_seq == moved.write_seq
        }),
{
    let n = fragment_count(payload.len());
    lemma_takes::<Data>(writer, payload, conn, tail, n);
    law_fragments_join(payload, n);
    lemma_after_records(writer, n);
    let all = records_of(writer, payload, n);
    assert(all.skip(all.len() as int) + tail =~= tail);
}

/// The records of a payload behind the first `i` ones: the next record comes first.
proof fn lemma_next_record(writer: RecordLayerView, payload: Seq<u8>, i: nat, count: nat)
    requires
        i < count,
    ensures
        ({
            let all = records_of(writer, payload, count);
            all.skip(records_of(writer, payload, i).len() as int) == written_record(
                writer,
                payload,
                i,
            ) + all.skip(records_of(writer, payload, i + 1).len() as int)
        }),
        records_of(writer, payload, i + 1).len() <= records_of(writer, payload, count).len(),
{
    let all = records_of(writer, payload, count);
    let front = records_of(writer, payload, i);
    let record = written_record(writer, payload, i);
    let behind = records_of(writer, payload, i + 1);
    law_records_come_in_order(writer, payload, i, count);
    lemma_records_grow(writer, payload, i + 1, count);
    if i + 1 < count {
        law_records_come_in_order(writer, payload, i + 1, count);
    } else {
        assert(all.take(behind.len() as int) =~= behind);
    }
    assert(all.take(behind.len() as int) == front + record);
    assert(all =~= all.take(behind.len() as int) + all.skip(behind.len() as int));
    assert(all.skip(front.len() as int) =~= record + all.skip(behind.len() as int));
}

/// Reading in place and taking a piece `n` times gives the first `n` fragments.
#[verifier::rlimit(40)]
proof fn lemma_takes<Data: SideData>(
    writer: RecordLayerView,
    payload: Seq<u8>,
    conn: ConnectionView<TrafficModel>,
    tail: Seq<u8>,
    n: nat,
)
    requires
        n <= fragment_count(payload.len()),
        writer.encrypter is Some,
        writer.write_seq + fragment_count(payload.len()) <= SEQ_HARD_LIMIT,
        records_open(writer, payload, fragment_count(payload.len())),
        ready_to_read(conn),
        conn.core.state is Ok,
        conn.core.common.record_layer.decrypter == Some(writer.encrypter->0.key),
        conn.core.common.record_layer.read_seq == writer.write_seq,
    ensures
        ({
            let all = records_of(writer, payload, fragment_count(payload.len()));
            let (data, after, rest) = taken_times::<Data, TrafficState>(conn, all + tail, n);
            &&& data == joined_fragments(payload, n)
            &&& rest == all.skip(records_of(writer, payload, n).len() as int) + tail
            &&& ready_to_read(after)
            &&& after.core.state is Ok
            &&& after.core.common.record_layer.decrypter == Some(writer.encrypter->0.key)
            &&& after.core.common.record_layer.read_seq == writer.write_seq + n
        }),
    decreases n,
{
    let count = fragment_count(payload.len());
    let all = records_of(writer, payload, count);
    if n == 0 {
        assert(all.skip(0) =~= all);
    } else {
        let i = (n - 1) as nat;
        lemma_takes::<Data>(writer, payload, conn, tail, i);
        let (data, before, rest) = taken_times::<Data, TrafficState>(conn, all + tail, i);
        let record = written_record(writer, payload, i);
        lemma_next_record(writer, payload, i, count);
        let left = all.skip(records_of(writer, payload, n).len() as int) + tail;
        assert(rest =~= record + left);
        law_read_gives_what_was_written::<Data>(writer, payload, i, before, left);
        assert((record + left).skip(record.len() as int) =~= left);
    }
}

/// Reading `n` times gives the first `n` fragments.
#[verifier::rlimit(40)]
proof fn lemma_reads<Data: SideData, S: State<Data>>(
    writer: RecordLayerView,
    payload: Seq<u8>,
    conn: ConnectionView<S::Model>,
    tail: Seq<u8>,
    room: nat,
    n: nat,
)
    requires
        n <= fragment_count(payload.len()),
        writer.encrypter is Some,
        writer.write_seq + fragment_count(payload.len()) <= SEQ_HARD_LIMIT,
        records_open(writer, payload, fragment_count(payload.len())),
        ready_to_read(conn),
        conn.core.common.record_layer.decrypter == Some(writer.encrypter->0.key),
        conn.core.common.record_layer.read_seq == writer.write_seq,
        room > MAX_FRAGMENT_LEN,
    ensures
        ({
            let all = records_of(writer, payload, fragment_count(payload.len()));
            let (data, after, rest) = read_times::<Data, S>(conn, all + tail, room, n);
            &&& data == joined_fragments(payload, n)
            &&& rest == all.skip(records_of(writer, payload, n).len() as int) + tail
            &&& ready_to_read(after)
            &&& after.core.common.record_layer.decrypter == Some(writer.encrypter->0.key)
            &&& after.core.common.record_layer.read_seq == writer.write_seq + n
        }),
    decreases n,
{
    let count = fragment_count(payload.len());
    let all = records_of(writer, payload, count);
    if n == 0 {
        assert(all.skip(0) =~= all);
    } else {
        let i = (n - 1) as nat;
        lemma_reads::<Data, S>(writer, payload, conn, tail, room, i);
        let (data, before, rest) = read_times::<Data, S>(conn, all + tail, room, i);
        let record = written_record(writer, payload, i);
        lemma_next_record(writer, payload, i, count);
        let left = all.skip(records_of(writer, payload, n).len() as int) + tail;
        assert(rest =~= record + left);
        law_fast_read_gives_what_was_written::<Data, S>(writer, payload, i, before, left, room);
        assert((record + left).skip(record.len() as int) =~= left);
    }
}

/// A key update that was sent is found, whichever way records are opened.
proof fn lemma_key_update_is_found(
    writer: TrafficModel,
    write_common: CommonView,
    common: CommonView,
    hs: HandshakeBufferView,
    tail: Seq<u8>,
    room: Option<nat>,
)
    requires
        writer.requested(write_common).0 is Ok,
        write_common.record_layer.encrypter is Some,
        common.record_layer.decrypter == Some(write_common.record_layer.encrypter->0.key),
        common.record_layer.read_seq == write_common.record_layer.write_seq,
        hs.pending.len() == 0,
        room matches Some(n) ==> n > key_update(1).len(),
        record_opens(write_common.record_layer, key_update_request()),
    ensures
        ({
            let msg = key_update_request();
            let bytes = write_common.record_layer.encrypted(msg);
            let gathered = hs.appended(msg.payload, msg.version);
            &&& gathered.front() == msg
            &&& gathered.advanced().pending.len() == 0
            &&& deframed(common, hs, bytes + tail, room) == (Deframed {
                found: Found::Message(msg),
                common: CommonView {
                    record_layer: common.record_layer.after_decrypt(),
                    aligned_handshake: true,
                    ..common
                },
                hs: gathered.advanced(),
                consumed: bytes.len(),
                last: 0,
            })
            &&& (bytes + tail).skip(bytes.len() as int) == tail
            &&& msg.payload.skip(4) == seq![1u8]
        }),
{
    let msg = key_update_request();
    let bytes = write_common.record_layer.encrypted(msg);
    let n = match room {
        Some(n) => n,
        None => msg.payload.len() + 1,
    };
    lemma_message_record(write_common.record_layer, msg, common.record_layer, tail, n);
    let record = PlainMessageView {
        typ: ContentType::ApplicationData,
        version: ProtocolVersion::TLSv1_2,
        payload: bytes.skip(HEADER_LEN as int),
    };
    assert(!plaintext_allowed(common, record, false));
    assert(taken(common, record, false, room) == (
        Ok::<PlainMessageView, Error>(msg),
        CommonView { record_layer: common.record_layer.after_decrypt(), ..common },
    )) by {
        reveal(taken);
    }
    let gathered = hs.appended(msg.payload, msg.version);
    assert(gathered.pending =~= msg.payload);
    assert((bytes + tail).skip(bytes.len() as int) =~= tail);
    assert(message_ready(gathered.pending));
    assert(gathered.front().payload =~= msg.payload);
    assert(gathered.advanced().pending =~= Seq::<u8>::empty());
    assert(msg.payload.skip(4) =~= seq![1u8]);
    reveal_with_fuel(deframed, 2);
    reveal(first_record);
}

/// A key update that was sent is followed, on the fast path: when a connection in step with the
/// writer is given its record, it goes on with what comes behind the record, and is in step with
/// what the writer sends under its new key.
pub proof fn law_fast_key_update_is_followed<Data: SideData>(
    writer: TrafficModel,
    write_common: CommonView,
    reader: TrafficModel,
    conn: ConnectionView<TrafficModel>,
    tail: Seq<u8>,
    room: nat,
)
    requires
        writer.requested(write_common).0 is Ok,
        conn.core.state == Ok::<TrafficModel, Error>(reader),
        in_step(writer, write_common.record_layer, reader, conn.core.common.record_layer),
        ready_to_read(conn),
        room > key_update(1).len(),
        record_opens(write_common.record_layer, key_update_request()),
    ensures
        ({
            let bytes = write_common.record_layer.encrypted(key_update_request());
            let (_, next_writer, after_write) = writer.requested(write_common);
            let (fed, next, n) = fed_fast::<Data, TrafficState>(conn, bytes + tail, room);
            &&& run_fast::<Data, TrafficState>(conn, bytes + tail, room, 0) == run_fast::<
                Data,
                TrafficState,
            >(next, tail, room, bytes.len())
            &&& ready_to_read(next)
            &&& next.core.state matches Ok(next_reader)
            &&& in_step(
                next_writer,
                after_write.record_layer,
                next_reader,
                next.core.common.record_layer,
            )
        }),
{
    let common = conn.core.common;
    lemma_key_update_is_found(writer, write_common, common, conn.hs_fast, tail, Some(room));
    reveal(fed_fast);
    reveal(processed);
}

/// A key update that was sent is followed: when a connection in step with the writer is given its
/// record, it releases the record, goes on with what comes behind it, and is in step with what the
/// writer sends under its new key.
pub proof fn law_key_update_is_followed<Data: SideData>(
    writer: TrafficModel,
    write_common: CommonView,
    reader: TrafficModel,
    conn: ConnectionView<TrafficModel>,
    tail: Seq<u8>,
)
    requires
        writer.requested(write_common).0 is Ok,
        conn.core.state == Ok::<TrafficModel, Error>(reader),
        in_step(writer, write_common.record_layer, reader, conn.core.common.record_layer),
        ready_to_read(conn),
        record_opens(write_common.record_layer, key_update_request()),
    ensures
        ({
            let bytes = write_common.record_layer.encrypted(key_update_request());
            let (_, next_writer, after_write) = writer.requested(write_common);
            let (fed, next, n, free) = fed_common::<Data, TrafficState>(conn, bytes + tail);
            &&& run_common::<Data, TrafficState>(conn, bytes + tail, 0) == run_common::<
                Data,
                TrafficState,
            >(next, tail, bytes.len())
            &&& ready_to_read(next)
            &&& next.core.state matches Ok(next_reader)
            &&& in_step(
                next_writer,
                after_write.record_layer,
                next_reader,
                next.core.common.record_layer,
            )
        }),
{
    let common = conn.core.common;
    lemma_key_update_is_found(writer, write_common, common, conn.hs, tail, None);
    reveal(fed_common);
    reveal(processed);
}

/// A record of a single message that was written is found in the stream of the peer, opens with the
/// peer's key, and holds the message.
proof fn lemma_message_record(
    writer: RecordLayerView,
    msg: PlainMessageView,
    reader: RecordLayerView,
    tail: Seq<u8>,
    room: nat,
)
    requires
        writer.encrypter is Some,
        !writer.exhausted(),
        record_opens(writer, msg),
        !(msg.typ is Unknown),
        msg.payload.len() <= MAX_FRAGMENT_LEN,
        reader.decrypter == Some(writer.encrypter->0.key),
        reader.read_seq == writer.write_seq,
        room > msg.payload.len(),
    ensures
        ({
            let bytes = writer.encrypted(msg);
            let record = PlainMessageView {
                typ: ContentType::ApplicationData,
                version: ProtocolVersion::TLSv1_2,
                payload: bytes.skip(HEADER_LEN as int),
            };
            let found = PlainMessageView { version: ProtocolVersion::TLSv1_3, ..msg };
            &&& framed(bytes + tail) == Framed::Record(record)
            &&& wire_len(record) == bytes.len()
            &&& reader.incoming(record.payload) == Ok::<PlainMessageView, Error>(found)
            &&& reader.incoming_to(record.payload, room) == Ok::<PlainMessageView, Error>(found)
        }),
{
    let bytes = writer.encrypted(msg);
    let inner = bytes.skip(HEADER_LEN as int);
    let key = writer.encrypter->0.key;
    let sealed_payload = crate::crypto::tls13::sealed(
        key,
        writer.write_seq,
        inner_plaintext(msg),
    )->0;
    assert(inner =~= sealed_payload);
    law_encoded_record_is_found(
        ContentType::ApplicationData,
        ProtocolVersion::TLSv1_2,
        sealed_payload,
        tail,
    );
    law_decrypt_to_undoes_encrypt(key, writer.write_seq, msg, inner, room);
}

/// Is this connection about to read a close_notify alert that was written with `writer`?
pub open spec fn about_to_close<M>(writer: RecordLayerView, conn: ConnectionView<M>) -> bool {
    &&& writer.encrypter is Some
    &&& !writer.exhausted()
    &&& record_opens(writer, close_notify_message())
    &&& ready_to_read(conn)
    &&& conn.core.state is Ok
    &&& !conn.wants_write
    &&& !conn.emitted_peer_closed_state
    &&& conn.core.common.record_layer.decrypter == Some(writer.encrypter->0.key)
    &&& conn.core.common.record_layer.read_seq == writer.write_seq
}

/// A close_notify alert that was written is found, whichever way records are opened.
proof fn lemma_close_notify_is_found<M>(
    writer: RecordLayerView,
    conn: ConnectionView<M>,
    hs: HandshakeBufferView,
    tail: Seq<u8>,
    room: Option<nat>,
)
    requires
        about_to_close(writer, conn),
        hs.pending.len() == 0,
        room matches Some(n) ==> n > close_notify_message().payload.len(),
    ensures
        ({
            let common = conn.core.common;
            let bytes = writer.encrypted(close_notify_message());
            deframed(common, hs, bytes + tail, room) == (Deframed {
                found: Found::Message(
                    PlainMessageView {
                        version: ProtocolVersion::TLSv1_3,
                        ..close_notify_message()
                    },
                ),
                common: CommonView {
                    record_layer: common.record_layer.after_decrypt(),
                    ..common
                },
                hs,
                consumed: bytes.len(),
                last: bytes.len(),
            })
        }),
        writer.encrypted(close_notify_message()).len() > 0,
{
    let msg = close_notify_message();
    let common = conn.core.common;
    let bytes = writer.encrypted(msg);
    let n = match room {
        Some(n) => n,
        None => msg.payload.len() + 1,
    };
    lemma_message_record(writer, msg, common.record_layer, tail, n);
    let record = PlainMessageView {
        typ: ContentType::ApplicationData,
        version: ProtocolVersion::TLSv1_2,
        payload: bytes.skip(HEADER_LEN as int),
    };
    assert(!plaintext_allowed(common, record, false));
    reveal(taken);
    reveal_with_fuel(deframed, 1);
    reveal(first_record);
}

/// Once a close_notify alert was read, the peer has closed its side.
proof fn lemma_close_notify_is_processed<Data: SideData, S: State<Data>>(
    model: S::Model,
    common: CommonView,
    early_data: Seq<Seq<u8>>,
)
    requires
        common.may_receive_application_data,
    ensures
        processed::<Data, S>(
            model,
            common,
            early_data,
            PlainMessageView { version: ProtocolVersion::TLSv1_3, ..close_notify_message() },
        ) == (
            Ok::<S::Model, Error>(model),
            CommonView { has_received_close_notify: true, ..common },
            early_data,
        ),
{
    reveal(processed);
}

/// A close_notify alert that was written is read as the end of what the peer sends, on the fast
/// path: a connection that has the writer's key, and expects its next sequence number, tells that
/// the peer has closed its side, uses exactly that record up, and does not tell it again, whatever
/// follows.
pub proof fn law_fast_close_notify_is_read<Data: SideData, S: State<Data>>(
    writer: RecordLayerView,
    conn: ConnectionView<S::Model>,
    tail: Seq<u8>,
    room: nat,
    later: Seq<u8>,
    later_room: nat,
)
    requires
        about_to_close(writer, conn),
        room > close_notify_message().payload.len(),
    ensures
        ({
            let bytes = writer.encrypted(close_notify_message());
            let run = run_fast::<Data, S>(conn, bytes + tail, room, 0);
            &&& run.outcome is PeerClosed
            &&& run.discard == bytes.len()
            &&& run.conn.core.common.has_received_close_notify
            &&& !(run_fast::<Data, S>(run.conn, later, later_room, 0).outcome is PeerClosed)
        }),
{
    let bytes = writer.encrypted(close_notify_message());
    let input = bytes + tail;
    lemma_close_notify_is_found(writer, conn, conn.hs_fast, tail, Some(room));
    let (fed, next, n) = fed_fast::<Data, S>(conn, input, room);
    assert(fed is Taken && n == bytes.len() && next.core.common.has_received_close_notify
        && next.core.common.sendable_tls.len() == 0 && !next.wants_write
        && !next.emitted_peer_closed_state) by {
        reveal(fed_fast);
        lemma_close_notify_is_processed::<Data, S>(
            conn.core.state->Ok_0,
            CommonView {
                record_layer: conn.core.common.record_layer.after_decrypt(),
                ..conn.core.common
            },
            conn.core.early_data,
        );
    }
    lemma_step_fast::<Data, S>(conn, input, room, 0);
    let rest = input.skip(n as int);
    assert(run_fast::<Data, S>(conn, input, room, 0) == run_fast::<Data, S>(next, rest, room, n));
    law_fast_peer_closed_at_most_once::<Data, S>(
        run_fast::<Data, S>(conn, input, room, 0).conn,
        later,
        later_room,
        0,
    );
}

/// A close_notify alert that was written is read as the end of what the peer sends: a connection
/// that has the writer's key, and expects its next sequence number, tells that the peer has closed
/// its side, uses exactly that record up, and does not tell it again, whatever follows.
pub proof fn law_close_notify_is_read<Data: SideData, S: State<Data>>(
    writer: RecordLayerView,
    conn: ConnectionView<S::Model>,
    tail: Seq<u8>,
    later: Seq<u8>,
)
    requires
        about_to_close(writer, conn),
    ensures
        ({
            let bytes = writer.encrypted(close_notify_message());
            let run = run_common::<Data, S>(conn, bytes + tail, 0);
            &&& run.outcome is PeerClosed
            &&& run.discard == bytes.len()
            &&& run.conn.core.common.has_received_close_notify
            &&& !(run_common::<Data, S>(run.conn, later, 0).outcome is PeerClosed)
        }),
{
    let bytes = writer.encrypted(close_notify_message());
    let input = bytes + tail;
    lemma_close_notify_is_found(writer, conn, conn.hs, tail, None);
    let (fed, next, n, free) = fed_common::<Data, S>(conn, input);
    assert(fed is Taken && n == bytes.len() && free == bytes.len()
        && next.core.common.has_received_close_notify && next.core.common.sendable_tls.len() == 0
        && next.core.common.received_plaintext.len() == 0 && next.core.early_data.len() == 0
        && !next.wants_write && !next.emitted_peer_closed_state) by {
        reveal(fed_common);
        lemma_close_notify_is_processed::<Data, S>(
            conn.core.state->Ok_0,
            CommonView {
                record_layer: conn.core.common.record_layer.after_decrypt(),
                ..conn.core.common
            },
            conn.core.early_data,
        );
    }
    lemma_step_common::<Data, S>(conn, input, 0);
    let rest = input.skip(n as int);
    assert(run_common::<Data, S>(conn, input, 0) == run_common::<Data, S>(next, rest, free));
    law_peer_closed_at_most_once::<Data, S>(
        run_common::<Data, S>(conn, input, 0).conn,
        later,
        0,
    );
}

} // verus!
