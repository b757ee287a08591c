//! What a connection does with each record and each message that it is given.

use vstd::prelude::*;

use crate::conn::common_state::CommonView;
use crate::conn::engine::{
    deframed, first_record, first_record_left, input_left, left_by_deframing,
    left_by_first_record, lemma_first_record, lemma_first_record_left, taken, Deframed,
    FirstRecord, Found,
};
use crate::conn::model::{
    fed_common, fed_fast, left_by_call, left_by_common, left_by_fast, lemma_step_common,
    lemma_step_fast, lemma_step_left, run_common, run_fast, took_message, ConnectionView,
    CoreView, Fed, Outcome, Run,
};
use crate::conn::record_layer::RecordLayerView;
use crate::conn::state::{SideData, State};
use crate::conn::unbuffered::{tells, ConnectionState, UnbufferedStatus};
use crate::crypto::cipher::law_padding_is_skipped;
use crate::crypto::tls13::opened;
use crate::enums::{AlertDescription, ContentType, ProtocolVersion};
use crate::error::{Error, InvalidMessage, PeerMisbehaved};
use crate::msgs::deframer::{framed, Framed};
use crate::msgs::handshake_buffer::{
    aligned, all_complete, complete_message, concat, message_ready, HandshakeBufferView,
};
use crate::msgs::message::PlainMessageView;

verus! {

/// Is this record one that comes in the clear? All do until there is a key. Later a change cipher
/// spec record does, and before anything was decrypted on TLS 1.3 so does an alert of two bytes at
/// most; but neither in the middle of a handshake message.
pub open spec fn in_the_clear(common: CommonView, record: PlainMessageView, gathering: bool) -> bool {
    ||| common.record_layer.decrypter is None
    ||| !gathering && record.typ == ContentType::ChangeCipherSpec
    ||| !gathering && record.typ == ContentType::Alert && common.negotiated_version == Some(
        ProtocolVersion::TLSv1_3,
    ) && !common.record_layer.has_decrypted && record.payload.len() <= 2
}

/// Is no data kept for the caller that would be told of before anything is read in place?
pub open spec fn nothing_kept<M>(conn: ConnectionView<M>) -> bool {
    conn.core.early_data.len() == 0 && conn.core.common.received_plaintext.len() == 0
}

/// Does this record hold this message? A record in the clear is the message. Of any other record
/// the incoming key finds the payload, the number of the content type and some zero bytes, with the
/// sequence number that is expected.
pub open spec fn holds(
    common: CommonView,
    record: PlainMessageView,
    gathering: bool,
    m: PlainMessageView,
    zeros: nat,
) -> bool {
    if in_the_clear(common, record, gathering) {
        m == record
    } else {
        let plain = m.payload.push(m.typ.byte()) + Seq::new(zeros, |i: int| 0u8);
        &&& common.record_layer.read_seq < u64::MAX
        &&& opened(common.record_layer.decrypter->0, common.record_layer.read_seq, record.payload)
            == Some(plain)
        &&& record.payload.len() == plain.len() + 16
        &&& m.typ == ContentType::of(m.typ.byte())
        &&& m.typ.byte() != 0
        &&& m.version == ProtocolVersion::TLSv1_3
    }
}

/// Is there room to open this record? In place there is, for records of the size that the protocol
/// allows.
pub open spec fn has_room(
    common: CommonView,
    record: PlainMessageView,
    gathering: bool,
    room: Option<nat>,
) -> bool {
    in_the_clear(common, record, gathering) || match room {
        Some(n) => record.payload.len() <= n + 16,
        None => record.payload.len() <= 16385 + 16,
    }
}

/// What both sides share once a record was opened: the next sequence number is expected.
pub open spec fn after_opening(
    common: CommonView,
    record: PlainMessageView,
    gathering: bool,
) -> CommonView {
    if in_the_clear(common, record, gathering) {
        common
    } else {
        CommonView {
            record_layer: RecordLayerView {
                read_seq: (common.record_layer.read_seq + 1) as u64,
                has_decrypted: true,
                ..common.record_layer
            },
            ..common
        }
    }
}

/// A record that holds a message gives that message.
proof fn lemma_held_message_is_taken(
    common: CommonView,
    record: PlainMessageView,
    gathering: bool,
    m: PlainMessageView,
    zeros: nat,
    room: Option<nat>,
)
    requires
        holds(common, record, gathering, m, zeros),
        has_room(common, record, gathering, room),
    ensures
        taken(common, record, gathering, room) == (
            Ok::<PlainMessageView, Error>(m),
            after_opening(common, record, gathering),
        ),
{
    reveal(taken);
    if !in_the_clear(common, record, gathering) {
        law_padding_is_skipped(m.payload, m.typ.byte(), zeros);
    }
}

/// Gathering a handshake record and looking on is looking on with the record gathered.
proof fn lemma_gathered(
    common: CommonView,
    hs: HandshakeBufferView,
    input: Seq<u8>,
    room: Option<nat>,
)
    requires
        !message_ready(hs.pending),
        first_record(common, hs, input, room) is Gathered,
    ensures
        first_record(common, hs, input, room) matches FirstRecord::Gathered {
            common: c,
            hs: h,
            consumed,
        } && consumed <= input.len() && deframed(common, hs, input, room) == (Deframed {
            consumed: consumed + deframed(c, h, input.skip(consumed as int), room).consumed,
            ..deframed(c, h, input.skip(consumed as int), room)
        }),
{
    reveal_with_fuel(deframed, 1);
    lemma_first_record(common, hs, input, room);
}

/// What looking for a message comes to with a handshake record in front is what it comes to with the
/// record gathered, and the record used up.
proof fn lemma_fed_fast_behind_a_record<Data: SideData, S: State<Data>>(
    conn: ConnectionView<S::Model>,
    next: ConnectionView<S::Model>,
    input: Seq<u8>,
    room: nat,
    n: nat,
)
    requires
        !message_ready(conn.hs_fast.pending),
        first_record(conn.core.common, conn.hs_fast, input, Some(room)) == (FirstRecord::Gathered {
            common: next.core.common,
            hs: next.hs_fast,
            consumed: n,
        }),
        next == (ConnectionView {
            core: CoreView { common: next.core.common, ..conn.core },
            hs_fast: next.hs_fast,
            ..conn
        }),
    ensures
        ({
            let (fed, after, consumed) = fed_fast::<Data, S>(next, input.skip(n as int), room);
            fed_fast::<Data, S>(conn, input, room) == (fed, after, n + consumed)
        }),
{
    lemma_gathered(conn.core.common, conn.hs_fast, input, Some(room));
    reveal(fed_fast);
}

/// The same of looking in place: the bytes of the record are held.
proof fn lemma_fed_common_behind_a_record<Data: SideData, S: State<Data>>(
    conn: ConnectionView<S::Model>,
    next: ConnectionView<S::Model>,
    input: Seq<u8>,
    n: nat,
)
    requires
        !message_ready(conn.hs.pending),
        first_record(conn.core.common, conn.hs, input, None) == (FirstRecord::Gathered {
            common: next.core.common,
            hs: next.hs,
            consumed: n,
        }),
        next == (ConnectionView {
            core: CoreView { common: next.core.common, ..conn.core },
            hs: next.hs,
            outer_discard: conn.outer_discard + n,
            ..conn
        }),
    ensures
        ({
            let (fed, after, consumed, free) = fed_common::<Data, S>(next, input.skip(n as int));
            fed_common::<Data, S>(conn, input) == (fed, after, n + consumed, free)
        }),
{
    lemma_gathered(conn.core.common, conn.hs, input, None);
    reveal(fed_common);
}

/// What the first record of the input comes to, where it holds a handshake message.
proof fn lemma_first_handshake_record(
    common: CommonView,
    hs: HandshakeBufferView,
    input: Seq<u8>,
    m: PlainMessageView,
    zeros: nat,
    room: Option<nat>,
)
    requires
        framed(input) is Record,
        m.typ == ContentType::Handshake,
        holds(common, framed(input)->Record_0, hs.pending.len() > 0, m, zeros),
        has_room(common, framed(input)->Record_0, hs.pending.len() > 0, room),
    ensures
        ({
            let record = framed(input)->Record_0;
            let after = after_opening(common, record, hs.pending.len() > 0);
            let n = 5 + record.payload.len();
            let len = hs.pending.len() + m.payload.len();
            first_record(common, hs, input, room) == (if len <= 262144 || len <= hs.capacity {
                FirstRecord::Gathered {
                    common: after,
                    hs: hs.appended(m.payload, m.version),
                    consumed: n,
                }
            } else {
                FirstRecord::Done(
                    Deframed {
                        found: Found::Failed(
                            Error::General("handshake buffer overflow (exceeds 256KB)"),
                        ),
                        common: after,
                        hs: hs.appended(m.payload, m.version),
                        consumed: n,
                        last: 0,
                    },
                )
            })
        }),
{
    let record = framed(input)->Record_0;
    lemma_held_message_is_taken(common, record, hs.pending.len() > 0, m, zeros, room);
    reveal(first_record);
}

/// A handshake message that was gathered is handed to the protocol state before anything more is
/// read, on the fast path: exactly that message, with the version that came with it, and what was
/// gathered behind it stays. Whether it is the last one for now is noted first. Where the state
/// refuses it, that ends the call.
pub proof fn law_fast_gathered_message_is_handed_over<Data: SideData, S: State<Data>>(
    conn: ConnectionView<S::Model>,
    message: Seq<u8>,
    later: Seq<u8>,
    input: Seq<u8>,
    room: nat,
    pos: nat,
)
    requires
        conn.core.common.sendable_tls.len() == 0,
        !conn.core.common.has_received_close_notify,
        conn.hs_fast.pending == message + later,
        message.len() >= 4,
        message.len() == 4 + 65536 * message[1] + 256 * message[2] + message[3],
    ensures
        ({
            let (r, next) = handed_fast::<Data, S>(conn, message, later);
            let run = run_fast::<Data, S>(conn, input, room, pos);
            match r {
                Ok(()) => run == run_fast::<Data, S>(next, input, room, pos),
                Err(e) => run == (Run { outcome: Outcome::Failed(e), discard: pos, conn: next }),
            }
        }),
{
    crate::msgs::handshake_buffer::law_message_has_the_length_of_its_header(
        conn.hs_fast,
        message,
        later,
    );
    reveal(fed_fast);
    reveal_with_fuel(deframed, 1);
    assert(input.skip(0) =~= input);
    lemma_step_fast::<Data, S>(conn, input, room, pos);
}

/// A connection that hands a gathered message to the protocol state, on the fast path, and keeps
/// what was gathered behind it.
pub open spec fn handed_fast<Data: SideData, S: State<Data>>(
    conn: ConnectionView<S::Model>,
    message: Seq<u8>,
    later: Seq<u8>,
) -> (Result<(), Error>, ConnectionView<S::Model>) {
    let msg = PlainMessageView {
        typ: ContentType::Handshake,
        version: match conn.hs_fast.version {
            Some(version) => version,
            None => ProtocolVersion::TLSv1_2,
        },
        payload: message,
    };
    let common = CommonView { aligned_handshake: aligned(later), ..conn.core.common };
    let (r, core) = took_message::<Data, S>(CoreView { common, ..conn.core }, msg);
    (
        r,
        ConnectionView {
            core,
            hs_fast: HandshakeBufferView { pending: later, ..conn.hs_fast },
            ..conn
        },
    )
}

/// A handshake message that was gathered is handed to the protocol state before anything more is
/// read: exactly that message, with the version that came with it, and what was gathered behind it
/// stays. With the last of the messages the bytes that they came in are released. Where the state
/// refuses it, that ends the call.
pub proof fn law_gathered_message_is_handed_over<Data: SideData, S: State<Data>>(
    conn: ConnectionView<S::Model>,
    message: Seq<u8>,
    later: Seq<u8>,
    input: Seq<u8>,
    base: nat,
)
    requires
        conn.core.early_data.len() == 0,
        conn.core.common.received_plaintext.len() == 0,
        conn.core.common.sendable_tls.len() == 0,
        !conn.core.common.has_received_close_notify,
        conn.hs.pending == message + later,
        message.len() >= 4,
        message.len() == 4 + 65536 * message[1] + 256 * message[2] + message[3],
    ensures
        ({
            let (r, next) = handed_common::<Data, S>(conn, message, later);
            let free = if later.len() == 0 {
                conn.outer_discard
            } else {
                0
            };
            let run = run_common::<Data, S>(conn, input, base);
            match r {
                Ok(()) => run == run_common::<Data, S>(next, input, base + free),
                Err(e) => run == (Run {
                    outcome: Outcome::Failed(e),
                    discard: base + free,
                    conn: next,
                }),
            }
        }),
{
    crate::msgs::handshake_buffer::law_message_has_the_length_of_its_header(
        conn.hs,
        message,
        later,
    );
    reveal(fed_common);
    reveal_with_fuel(deframed, 1);
    assert(input.skip(0) =~= input);
    lemma_step_common::<Data, S>(conn, input, base);
}

/// A connection that hands a gathered message to the protocol state, and keeps what was gathered
/// behind it. With the last of the messages no byte of the caller's buffer is held any more.
pub open spec fn handed_common<Data: SideData, S: State<Data>>(
    conn: ConnectionView<S::Model>,
    message: Seq<u8>,
    later: Seq<u8>,
) -> (Result<(), Error>, ConnectionView<S::Model>) {
    let msg = PlainMessageView {
        typ: ContentType::Handshake,
        version: match conn.hs.version {
            Some(version) => version,
            None => ProtocolVersion::TLSv1_2,
        },
        payload: message,
    };
    let common = CommonView { aligned_handshake: aligned(later), ..conn.core.common };
    let (r, core) = took_message::<Data, S>(CoreView { common, ..conn.core }, msg);
    (
        r,
        ConnectionView {
            core,
            hs: HandshakeBufferView { pending: later, ..conn.hs },
            outer_discard: if later.len() == 0 {
                0
            } else {
                conn.outer_discard
            },
            ..conn
        },
    )
}

/// A handshake record is gathered behind what was gathered before, and reading goes on behind it,
/// on the fast path: so its messages come before anything that follows the record. Where it does
/// not fit into 256KB, that ends the call.
pub proof fn law_fast_handshake_record_is_gathered<Data: SideData, S: State<Data>>(
    conn: ConnectionView<S::Model>,
    input: Seq<u8>,
    m: PlainMessageView,
    zeros: nat,
    room: nat,
    pos: nat,
)
    requires
        conn.core.common.sendable_tls.len() == 0,
        !conn.core.common.has_received_close_notify,
        !message_ready(conn.hs_fast.pending),
        framed(input) is Record,
        m.typ == ContentType::Handshake,
        ({
            let record = framed(input)->Record_0;
            let gathering = conn.hs_fast.pending.len() > 0;
            &&& holds(conn.core.common, record, gathering, m, zeros)
            &&& has_room(conn.core.common, record, gathering, Some(room))
        }),
    ensures
        ({
            let record = framed(input)->Record_0;
            let gathering = conn.hs_fast.pending.len() > 0;
            let n = 5 + record.payload.len();
            let len = conn.hs_fast.pending.len() + m.payload.len();
            let next = ConnectionView {
                core: CoreView {
                    common: after_opening(conn.core.common, record, gathering),
                    ..conn.core
                },
                hs_fast: conn.hs_fast.appended(m.payload, m.version),
                ..conn
            };
            let run = run_fast::<Data, S>(conn, input, room, pos);
            if len <= 262144 || len <= conn.hs_fast.capacity {
                run == run_fast::<Data, S>(next, input.skip(n as int), room, pos + n)
            } else {
                run == (Run {
                    outcome: Outcome::Failed(
                        Error::General("handshake buffer overflow (exceeds 256KB)"),
                    ),
                    discard: pos + n,
                    conn: next,
                })
            }
        }),
{
    let record = framed(input)->Record_0;
    let common = conn.core.common;
    let n = 5 + record.payload.len();
    let rest = input.skip(n as int);
    let next = ConnectionView {
        core: CoreView {
            common: after_opening(common, record, conn.hs_fast.pending.len() > 0),
            ..conn.core
        },
        hs_fast: conn.hs_fast.appended(m.payload, m.version),
        ..conn
    };
    lemma_first_handshake_record(common, conn.hs_fast, input, m, zeros, Some(room));
    lemma_step_fast::<Data, S>(conn, input, room, pos);
    if conn.hs_fast.fits(m.payload.len()) {
        lemma_fed_fast_behind_a_record::<Data, S>(conn, next, input, room, n);
        lemma_step_fast::<Data, S>(next, rest, room, pos + n);
        let (fed, after, consumed) = fed_fast::<Data, S>(next, rest, room);
        if fed is Taken {
            assert(input.skip((n + consumed) as int) =~= rest.skip(consumed as int));
        }
    } else {
        reveal(fed_fast);
        reveal_with_fuel(deframed, 1);
    }
}

/// A handshake record is gathered behind what was gathered before, and reading goes on behind it:
/// so its messages come before anything that follows the record. Its bytes are held until then.
/// Where it does not fit into 256KB, that ends the call.
pub proof fn law_handshake_record_is_gathered<Data: SideData, S: State<Data>>(
    conn: ConnectionView<S::Model>,
    input: Seq<u8>,
    m: PlainMessageView,
    zeros: nat,
    base: nat,
)
    requires
        conn.core.early_data.len() == 0,
        conn.core.common.received_plaintext.len() == 0,
        conn.core.common.sendable_tls.len() == 0,
        !conn.core.common.has_received_close_notify,
        !message_ready(conn.hs.pending),
        framed(input) is Record,
        m.typ == ContentType::Handshake,
        ({
            let record = framed(input)->Record_0;
            let gathering = conn.hs.pending.len() > 0;
            &&& holds(conn.core.common, record, gathering, m, zeros)
            &&& has_room(conn.core.common, record, gathering, None)
        }),
    ensures
        ({
            let record = framed(input)->Record_0;
            let gathering = conn.hs.pending.len() > 0;
            let n = 5 + record.payload.len();
            let len = conn.hs.pending.len() + m.payload.len();
            let next = ConnectionView {
                core: CoreView {
                    common: after_opening(conn.core.common, record, gathering),
                    ..conn.core
                },
                hs: conn.hs.appended(m.payload, m.version),
                outer_discard: conn.outer_discard + n,
                ..conn
            };
            let run = run_common::<Data, S>(conn, input, base);
            if len <= 262144 || len <= conn.hs.capacity {
                run == run_common::<Data, S>(next, input.skip(n as int), base)
            } else {
                run == (Run {
                    outcome: Outcome::Failed(
                        Error::General("handshake buffer overflow (exceeds 256KB)"),
                    ),
                    discard: base,
                    conn: next,
                })
            }
        }),
{
    let record = framed(input)->Record_0;
    let common = conn.core.common;
    let n = 5 + record.payload.len();
    let rest = input.skip(n as int);
    let next = ConnectionView {
        core: CoreView {
            common: after_opening(common, record, conn.hs.pending.len() > 0),
            ..conn.core
        },
        hs: conn.hs.appended(m.payload, m.version),
        outer_discard: conn.outer_discard + n,
        ..conn
    };
    lemma_first_handshake_record(common, conn.hs, input, m, zeros, None);
    lemma_step_common::<Data, S>(conn, input, base);
    if conn.hs.fits(m.payload.len()) {
        lemma_fed_common_behind_a_record::<Data, S>(conn, next, input, n);
        lemma_step_common::<Data, S>(next, rest, base);
        let (fed, after, consumed, free) = fed_common::<Data, S>(next, rest);
        if fed is Taken {
            assert(input.skip((n + consumed) as int) =~= rest.skip(consumed as int));
        }
    } else {
        reveal(fed_common);
        reveal_with_fuel(deframed, 1);
    }
}

/// Hands over messages that were gathered, one after the other, on the fast path.
pub open spec fn all_handed_fast<Data: SideData, S: State<Data>>(
    conn: ConnectionView<S::Model>,
    messages: Seq<Seq<u8>>,
) -> ConnectionView<S::Model>
    decreases messages.len(),
{
    if messages.len() == 0 {
        conn
    } else {
        let rest = messages.skip(1);
        all_handed_fast::<Data, S>(
            handed_fast::<Data, S>(conn, messages[0], concat(rest)).1,
            rest,
        )
    }
}

/// Does the protocol state take each of these messages, with nothing to be done in between?
pub open spec fn all_taken_fast<Data: SideData, S: State<Data>>(
    conn: ConnectionView<S::Model>,
    messages: Seq<Seq<u8>>,
) -> bool
    decreases messages.len(),
{
    messages.len() == 0 || {
        let rest = messages.skip(1);
        let (r, next) = handed_fast::<Data, S>(conn, messages[0], concat(rest));
        &&& conn.core.common.sendable_tls.len() == 0
        &&& !conn.core.common.has_received_close_notify
        &&& r is Ok
        &&& all_taken_fast::<Data, S>(next, rest)
    }
}

/// Hands over messages that were gathered, one after the other.
pub open spec fn all_handed_common<Data: SideData, S: State<Data>>(
    conn: ConnectionView<S::Model>,
    messages: Seq<Seq<u8>>,
) -> ConnectionView<S::Model>
    decreases messages.len(),
{
    if messages.len() == 0 {
        conn
    } else {
        let rest = messages.skip(1);
        all_handed_common::<Data, S>(
            handed_common::<Data, S>(conn, messages[0], concat(rest)).1,
            rest,
        )
    }
}

/// Does the protocol state take each of these messages, with nothing to be done in between?
pub open spec fn all_taken_common<Data: SideData, S: State<Data>>(
    conn: ConnectionView<S::Model>,
    messages: Seq<Seq<u8>>,
) -> bool
    decreases messages.len(),
{
    messages.len() == 0 || {
        let rest = messages.skip(1);
        let (r, next) = handed_common::<Data, S>(conn, messages[0], concat(rest));
        &&& conn.core.early_data.len() == 0
        &&& conn.core.common.received_plaintext.len() == 0
        &&& conn.core.common.sendable_tls.len() == 0
        &&& !conn.core.common.has_received_close_notify
        &&& r is Ok
        &&& all_taken_common::<Data, S>(next, rest)
    }
}

/// Complete messages that were gathered are all handed over, in their order, before anything more
/// is read, on the fast path.
pub proof fn law_fast_gathered_messages_are_all_handed_over<Data: SideData, S: State<Data>>(
    conn: ConnectionView<S::Model>,
    messages: Seq<Seq<u8>>,
    input: Seq<u8>,
    room: nat,
    pos: nat,
)
    requires
        all_complete(messages),
        conn.hs_fast.pending == concat(messages),
        all_taken_fast::<Data, S>(conn, messages),
    ensures
        all_handed_fast::<Data, S>(conn, messages).hs_fast.pending == Seq::<u8>::empty(),
        run_fast::<Data, S>(conn, input, room, pos) == run_fast::<Data, S>(
            all_handed_fast::<Data, S>(conn, messages),
            input,
            room,
            pos,
        ),
    decreases messages.len(),
{
    if messages.len() > 0 {
        let rest = messages.skip(1);
        assert(complete_message(messages[0]));
        assert forall|i: int| 0 <= i < rest.len() implies complete_message(#[trigger] rest[i]) by {
            assert(rest[i] == messages[i + 1]);
        }
        law_fast_gathered_message_is_handed_over::<Data, S>(
            conn,
            messages[0],
            concat(rest),
            input,
            room,
            pos,
        );
        let next = handed_fast::<Data, S>(conn, messages[0], concat(rest)).1;
        law_fast_gathered_messages_are_all_handed_over::<Data, S>(next, rest, input, room, pos);
    }
}

/// Complete messages that were gathered are all handed over, in their order, before anything more
/// is read, and then the bytes that they came in are released.
pub proof fn law_gathered_messages_are_all_handed_over<Data: SideData, S: State<Data>>(
    conn: ConnectionView<S::Model>,
    messages: Seq<Seq<u8>>,
    input: Seq<u8>,
    base: nat,
)
    requires
        messages.len() > 0,
        all_complete(messages),
        conn.hs.pending == concat(messages),
        all_taken_common::<Data, S>(conn, messages),
    ensures
        all_handed_common::<Data, S>(conn, messages).hs.pending == Seq::<u8>::empty(),
        all_handed_common::<Data, S>(conn, messages).outer_discard == 0,
        run_common::<Data, S>(conn, input, base) == run_common::<Data, S>(
            all_handed_common::<Data, S>(conn, messages),
            input,
            base + conn.outer_discard,
        ),
    decreases messages.len(),
{
    let rest = messages.skip(1);
    assert(complete_message(messages[0]));
    assert forall|i: int| 0 <= i < rest.len() implies complete_message(#[trigger] rest[i]) by {
        assert(rest[i] == messages[i + 1]);
    }
    law_gathered_message_is_handed_over::<Data, S>(conn, messages[0], concat(rest), input, base);
    let next = handed_common::<Data, S>(conn, messages[0], concat(rest)).1;
    if rest.len() > 0 {
        assert(complete_message(rest[0]));
        assert(concat(rest).len() > 0);
        law_gathered_messages_are_all_handed_over::<Data, S>(next, rest, input, base);
        assert(all_handed_common::<Data, S>(conn, messages) == all_handed_common::<Data, S>(
            next,
            rest,
        ));
    } else {
        assert(concat(rest) =~= Seq::<u8>::empty());
        assert(all_handed_common::<Data, S>(next, rest) == next);
    }
}

/// A record that packs several complete handshake messages gives them all, on the fast path: each
/// of them goes to the protocol state, in their order, before the next record is looked at.
pub proof fn law_fast_packed_messages_are_all_handed_over<Data: SideData, S: State<Data>>(
    conn: ConnectionView<S::Model>,
    input: Seq<u8>,
    messages: Seq<Seq<u8>>,
    version: ProtocolVersion,
    zeros: nat,
    room: nat,
    pos: nat,
)
    requires
        conn.core.common.sendable_tls.len() == 0,
        !conn.core.common.has_received_close_notify,
        conn.hs_fast.pending.len() == 0,
        framed(input) is Record,
        all_complete(messages),
        concat(messages).len() <= 262144,
        ({
            let record = framed(input)->Record_0;
            let m = PlainMessageView {
                typ: ContentType::Handshake,
                version,
                payload: concat(messages),
            };
            &&& holds(conn.core.common, record, false, m, zeros)
            &&& has_room(conn.core.common, record, false, Some(room))
            &&& all_taken_fast::<Data, S>(
                ConnectionView {
                    core: CoreView {
                        common: after_opening(conn.core.common, record, false),
                        ..conn.core
                    },
                    hs_fast: conn.hs_fast.appended(concat(messages), version),
                    ..conn
                },
                messages,
            )
        }),
    ensures
        ({
            let record = framed(input)->Record_0;
            let n = 5 + record.payload.len();
            let next = all_handed_fast::<Data, S>(
                ConnectionView {
                    core: CoreView {
                        common: after_opening(conn.core.common, record, false),
                        ..conn.core
                    },
                    hs_fast: conn.hs_fast.appended(concat(messages), version),
                    ..conn
                },
                messages,
            );
            &&& next.hs_fast.pending == Seq::<u8>::empty()
            &&& run_fast::<Data, S>(conn, input, room, pos) == run_fast::<Data, S>(
                next,
                input.skip(n as int),
                room,
                pos + n,
            )
        }),
{
    let record = framed(input)->Record_0;
    let m = PlainMessageView { typ: ContentType::Handshake, version, payload: concat(messages) };
    law_fast_handshake_record_is_gathered::<Data, S>(conn, input, m, zeros, room, pos);
    let n = 5 + record.payload.len();
    let gathered = ConnectionView {
        core: CoreView { common: after_opening(conn.core.common, record, false), ..conn.core },
        hs_fast: conn.hs_fast.appended(concat(messages), version),
        ..conn
    };
    assert(gathered.hs_fast.pending =~= concat(messages));
    law_fast_gathered_messages_are_all_handed_over::<Data, S>(
        gathered,
        messages,
        input.skip(n as int),
        room,
        pos + n,
    );
}

/// A record that packs several complete handshake messages gives them all: each of them goes to the
/// protocol state, in their order, before the next record is looked at, and then the record is
/// released.
pub proof fn law_packed_messages_are_all_handed_over<Data: SideData, S: State<Data>>(
    conn: ConnectionView<S::Model>,
    input: Seq<u8>,
    messages: Seq<Seq<u8>>,
    version: ProtocolVersion,
    zeros: nat,
    base: nat,
)
    requires
        conn.core.early_data.len() == 0,
        conn.core.common.received_plaintext.len() == 0,
        conn.core.common.sendable_tls.len() == 0,
        !conn.core.common.has_received_close_notify,
        conn.hs.pending.len() == 0,
        framed(input) is Record,
        messages.len() > 0,
        all_complete(messages),
        concat(messages).len() <= 262144,
        ({
            let record = framed(input)->Record_0;
            let m = PlainMessageView {
                typ: ContentType::Handshake,
                version,
                payload: concat(messages),
            };
            &&& holds(conn.core.common, record, false, m, zeros)
            &&& has_room(conn.core.common, record, false, None)
            &&& all_taken_common::<Data, S>(
                ConnectionView {
                    core: CoreView {
                        common: after_opening(conn.core.common, record, false),
                        ..conn.core
                    },
                    hs: conn.hs.appended(concat(messages), version),
                    outer_discard: conn.outer_discard + 5 + record.payload.len(),
                    ..conn
                },
                messages,
            )
        }),
    ensures
        ({
            let record = framed(input)->Record_0;
            let n = 5 + record.payload.len();
            let next = all_handed_common::<Data, S>(
                ConnectionView {
                    core: CoreView {
                        common: after_opening(conn.core.common, record, false),
                        ..conn.core
                    },
                    hs: conn.hs.appended(concat(messages), version),
                    outer_discard: conn.outer_discard + 5 + record.payload.len(),
                    ..conn
                },
                messages,
            );
            &&& next.hs.pending == Seq::<u8>::empty()
            &&& next.outer_discard == 0
            &&& run_common::<Data, S>(conn, input, base) == run_common::<Data, S>(
                next,
                input.skip(n as int),
                base + conn.outer_discard + n,
            )
        }),
{
    let record = framed(input)->Record_0;
    let m = PlainMessageView { typ: ContentType::Handshake, version, payload: concat(messages) };
    law_handshake_record_is_gathered::<Data, S>(conn, input, m, zeros, base);
    let n = 5 + record.payload.len();
    let gathered = ConnectionView {
        core: CoreView { common: after_opening(conn.core.common, record, false), ..conn.core },
        hs: conn.hs.appended(concat(messages), version),
        outer_discard: conn.outer_discard + 5 + record.payload.len(),
        ..conn
    };
    assert(gathered.hs.pending =~= concat(messages));
    law_gathered_messages_are_all_handed_over::<Data, S>(
        gathered,
        messages,
        input.skip(n as int),
        base,
    );
}

/// Application data that was encrypted is for the caller, on the fast path: the payload is given and
/// lies at the front of the buffer, with the rest of what was found behind it; exactly the record is
/// used up; and of the connection only the number that is expected next has changed.
pub proof fn law_fast_application_data_is_given<Data: SideData, S: State<Data>>(
    conn: ConnectionView<S::Model>,
    input: Seq<u8>,
    m: PlainMessageView,
    zeros: nat,
    out: Seq<u8>,
    pos: nat,
)
    requires
        conn.core.common.sendable_tls.len() == 0,
        !conn.core.common.has_received_close_notify,
        conn.core.common.may_receive_application_data,
        conn.hs_fast.pending.len() == 0,
        framed(input) is Record,
        m.typ == ContentType::ApplicationData,
        !in_the_clear(conn.core.common, framed(input)->Record_0, false),
        holds(conn.core.common, framed(input)->Record_0, false, m, zeros),
        has_room(conn.core.common, framed(input)->Record_0, false, Some(out.len())),
    ensures
        ({
            let record = framed(input)->Record_0;
            let plain = m.payload.push(23u8) + Seq::new(zeros, |i: int| 0u8);
            &&& run_fast::<Data, S>(conn, input, out.len(), pos) == (Run {
                outcome: Outcome::FastReadLen(m.payload),
                discard: pos + 5 + record.payload.len(),
                conn: ConnectionView {
                    core: CoreView {
                        common: after_opening(conn.core.common, record, false),
                        ..conn.core
                    },
                    ..conn
                },
            })
            &&& left_by_fast::<Data, S>(conn, input, out) == plain + out.skip(plain.len() as int)
        }),
{
    let record = framed(input)->Record_0;
    let common = conn.core.common;
    lemma_held_message_is_taken(common, record, false, m, zeros, Some(out.len()));
    reveal(first_record);
    reveal(fed_fast);
    reveal_with_fuel(deframed, 1);
    reveal_with_fuel(left_by_deframing, 1);
    let plain = m.payload.push(23u8) + Seq::new(zeros, |i: int| 0u8);
    assert(left_by_fast::<Data, S>(conn, input, out) =~= plain + out.skip(plain.len() as int));
}

/// Every other message that comes in a record of its own goes to the protocol state, on the fast
/// path: reading goes on behind the record, or ends with the error of the state.
pub proof fn law_fast_other_messages_are_handed_over<Data: SideData, S: State<Data>>(
    conn: ConnectionView<S::Model>,
    input: Seq<u8>,
    m: PlainMessageView,
    zeros: nat,
    room: nat,
    pos: nat,
)
    requires
        conn.core.common.sendable_tls.len() == 0,
        !conn.core.common.has_received_close_notify,
        conn.hs_fast.pending.len() == 0,
        framed(input) is Record,
        m.typ != ContentType::Handshake,
        m.typ == ContentType::ApplicationData ==> !conn.core.common.may_receive_application_data,
        holds(conn.core.common, framed(input)->Record_0, false, m, zeros),
        has_room(conn.core.common, framed(input)->Record_0, false, Some(room)),
    ensures
        ({
            let record = framed(input)->Record_0;
            let n = 5 + record.payload.len();
            let common = after_opening(conn.core.common, record, false);
            let (r, core) = took_message::<Data, S>(CoreView { common, ..conn.core }, m);
            let next = ConnectionView { core, ..conn };
            let run = run_fast::<Data, S>(conn, input, room, pos);
            match r {
                Ok(()) => run == run_fast::<Data, S>(next, input.skip(n as int), room, pos + n),
                Err(e) => run == (Run { outcome: Outcome::Failed(e), discard: pos + n, conn: next }),
            }
        }),
{
    let record = framed(input)->Record_0;
    lemma_held_message_is_taken(conn.core.common, record, false, m, zeros, Some(room));
    lemma_step_fast::<Data, S>(conn, input, room, pos);
    reveal(first_record);
    reveal(fed_fast);
    reveal_with_fuel(deframed, 1);
}

/// Every message that comes in a record of its own goes to the protocol state: the record is
/// released, and reading goes on behind it, or ends with the error of the state.
pub proof fn law_messages_are_handed_over<Data: SideData, S: State<Data>>(
    conn: ConnectionView<S::Model>,
    input: Seq<u8>,
    m: PlainMessageView,
    zeros: nat,
    base: nat,
)
    requires
        conn.core.early_data.len() == 0,
        conn.core.common.received_plaintext.len() == 0,
        conn.core.common.sendable_tls.len() == 0,
        !conn.core.common.has_received_close_notify,
        conn.hs.pending.len() == 0,
        framed(input) is Record,
        m.typ != ContentType::Handshake,
        holds(conn.core.common, framed(input)->Record_0, false, m, zeros),
        has_room(conn.core.common, framed(input)->Record_0, false, None),
    ensures
        ({
            let record = framed(input)->Record_0;
            let n = 5 + record.payload.len();
            let common = after_opening(conn.core.common, record, false);
            let (r, core) = took_message::<Data, S>(CoreView { common, ..conn.core }, m);
            let next = ConnectionView { core, ..conn };
            let run = run_common::<Data, S>(conn, input, base);
            match r {
                Ok(()) => run == run_common::<Data, S>(next, input.skip(n as int), base + n),
                Err(e) => run == (Run {
                    outcome: Outcome::Failed(e),
                    discard: base + n,
                    conn: next,
                }),
            }
        }),
{
    let record = framed(input)->Record_0;
    lemma_held_message_is_taken(conn.core.common, record, false, m, zeros, None);
    lemma_step_common::<Data, S>(conn, input, base);
    reveal(first_record);
    reveal(fed_common);
    reveal_with_fuel(deframed, 1);
}

/// In the middle of a handshake message no other message may come: it ends the call on both paths,
/// the peer is told, and neither the record nor what was gathered is used up.
pub proof fn law_interleaved_messages_are_refused<Data: SideData, S: State<Data>>(
    conn: ConnectionView<S::Model>,
    input: Seq<u8>,
    m: PlainMessageView,
    zeros: nat,
    room: nat,
    pos: nat,
)
    requires
        conn.core.common.sendable_tls.len() == 0,
        !conn.core.common.has_received_close_notify,
        framed(input) is Record,
        m.typ != ContentType::Handshake,
        holds(conn.core.common, framed(input)->Record_0, true, m, zeros),
    ensures
        ({
            let record = framed(input)->Record_0;
            let end = Run {
                outcome: Outcome::Failed(
                    Error::PeerMisbehaved(PeerMisbehaved::MessageInterleavedWithHandshakeMessage),
                ),
                discard: pos,
                conn: ConnectionView {
                    core: CoreView {
                        common: after_opening(
                            conn.core.common,
                            record,
                            true,
                        ).with_fatal_alert(AlertDescription::UnexpectedMessage),
                        ..conn.core
                    },
                    ..conn
                },
            };
            &&& conn.hs_fast.pending.len() > 0 && !message_ready(conn.hs_fast.pending) && has_room(
                conn.core.common,
                record,
                true,
                Some(room),
            ) ==> run_fast::<Data, S>(conn, input, room, pos) == end
            &&& nothing_kept(conn) && conn.hs.pending.len() > 0 && !message_ready(
                conn.hs.pending,
            ) && has_room(
                conn.core.common,
                record,
                true,
                None,
            ) ==> run_common::<Data, S>(conn, input, pos) == end
        }),
{
    let record = framed(input)->Record_0;
    if has_room(conn.core.common, record, true, Some(room)) {
        lemma_held_message_is_taken(conn.core.common, record, true, m, zeros, Some(room));
    }
    if has_room(conn.core.common, record, true, None) {
        lemma_held_message_is_taken(conn.core.common, record, true, m, zeros, None);
    }
    reveal(first_record);
    reveal(fed_fast);
    reveal(fed_common);
    reveal_with_fuel(deframed, 1);
}

/// A record that does not open ends the call on both paths, with the reason: it is not used up, and
/// of the connection nothing changes but that the peer is told, by the alert that belongs to the
/// reason. Of a buffer that is too small, and of a record that holds nothing but padding, the peer
/// is not told.
pub proof fn law_records_that_do_not_open_end_the_call<Data: SideData, S: State<Data>>(
    conn: ConnectionView<S::Model>,
    input: Seq<u8>,
    room: nat,
    pos: nat,
)
    requires
        conn.core.common.sendable_tls.len() == 0,
        !conn.core.common.has_received_close_notify,
        framed(input) is Record,
    ensures
        ({
            let record = framed(input)->Record_0;
            let common = conn.core.common;
            let told = |e: Error|
                if e == Error::DecryptError {
                    common.with_fatal_alert(AlertDescription::BadRecordMac)
                } else if e == Error::PeerSentOversizedRecord {
                    common.with_fatal_alert(AlertDescription::RecordOverflow)
                } else {
                    common
                };
            let end = |e: Error|
                Run {
                    outcome: Outcome::Failed(e),
                    discard: pos,
                    conn: ConnectionView {
                        core: CoreView { common: told(e), ..conn.core },
                        ..conn
                    },
                };
            &&& !message_ready(conn.hs_fast.pending) && !in_the_clear(
                common,
                record,
                conn.hs_fast.pending.len() > 0,
            ) ==> (common.record_layer.incoming_to(record.payload, room) matches Err(e)
                ==> run_fast::<Data, S>(conn, input, room, pos) == end(e))
            &&& nothing_kept(conn) && !message_ready(conn.hs.pending) && !in_the_clear(
                common,
                record,
                conn.hs.pending.len() > 0,
            ) ==> (common.record_layer.incoming(record.payload) matches Err(e)
                ==> run_common::<Data, S>(conn, input, pos) == end(e))
        }),
{
    reveal(taken);
    reveal(first_record);
    reveal(fed_fast);
    reveal(fed_common);
    reveal_with_fuel(deframed, 1);
}

/// Bytes that are no record end the call on both paths, with what is wrong with them: they are not
/// used up, and the peer is told that they cannot be decoded.
pub proof fn law_junk_ends_the_call<Data: SideData, S: State<Data>>(
    conn: ConnectionView<S::Model>,
    input: Seq<u8>,
    room: nat,
    pos: nat,
    e: InvalidMessage,
)
    requires
        conn.core.common.sendable_tls.len() == 0,
        !conn.core.common.has_received_close_notify,
        framed(input) == Framed::Invalid(e),
    ensures
        ({
            let end = Run {
                outcome: Outcome::Failed(Error::InvalidMessage(e)),
                discard: pos,
                conn: ConnectionView {
                    core: CoreView {
                        common: conn.core.common.with_fatal_alert(AlertDescription::DecodeError),
                        ..conn.core
                    },
                    ..conn
                },
            };
            &&& !message_ready(conn.hs_fast.pending) ==> run_fast::<Data, S>(
                conn,
                input,
                room,
                pos,
            ) == end
            &&& nothing_kept(conn) && !message_ready(conn.hs.pending) ==> run_common::<Data, S>(
                conn,
                input,
                pos,
            ) == end
        }),
{
    reveal(first_record);
    reveal(fed_fast);
    reveal(fed_common);
    reveal_with_fuel(deframed, 1);
}

/// A connection that has nothing to read says what can be done, on both paths, and stays as it was:
/// what was encoded is to be transmitted first; else application data can be sent, once that is
/// allowed; else there is nothing to do but to wait for more. Nothing is removed.
pub proof fn law_nothing_to_read<Data: SideData, S: State<Data>>(
    conn: ConnectionView<S::Model>,
    input: Seq<u8>,
    room: nat,
    pos: nat,
)
    requires
        conn.core.common.sendable_tls.len() == 0,
        !conn.core.common.has_received_close_notify,
        framed(input) == Framed::Incomplete,
    ensures
        ({
            let end = Run {
                outcome: if conn.wants_write {
                    Outcome::TransmitTlsData
                } else if conn.core.common.may_send_application_data {
                    Outcome::WriteTraffic
                } else {
                    Outcome::BlockedHandshake
                },
                discard: pos,
                conn,
            };
            &&& !message_ready(conn.hs_fast.pending) ==> run_fast::<Data, S>(
                conn,
                input,
                room,
                pos,
            ) == end
            &&& nothing_kept(conn) && !message_ready(conn.hs.pending) ==> run_common::<Data, S>(
                conn,
                input,
                pos,
            ) == end
        }),
{
    reveal(first_record);
    reveal(fed_fast);
    reveal(fed_common);
    reveal_with_fuel(deframed, 1);
}

/// Records that are waiting to be sent go before the input, the first of them first: it is given
/// once, and nothing is read. In place, data that was received goes before them, and early data
/// before that.
pub proof fn law_what_waits_goes_first<Data: SideData, S: State<Data>>(
    conn: ConnectionView<S::Model>,
    input: Seq<u8>,
    room: nat,
    pos: nat,
)
    ensures
        ({
            let common = conn.core.common;
            let encode = Run {
                outcome: Outcome::EncodeTlsData(common.sendable_tls[0]),
                discard: pos,
                conn: ConnectionView {
                    core: CoreView {
                        common: CommonView { sendable_tls: common.sendable_tls.skip(1), ..common },
                        ..conn.core
                    },
                    ..conn
                },
            };
            let early = conn.core.early_data.len() > 0;
            let data = common.received_plaintext.len() > 0;
            let waiting = common.sendable_tls.len() > 0;
            &&& waiting ==> run_fast::<Data, S>(conn, input, room, pos) == encode
            &&& early ==> run_common::<Data, S>(conn, input, pos) == (Run {
                outcome: Outcome::ReadEarlyData,
                discard: pos,
                conn,
            })
            &&& !early && data ==> run_common::<Data, S>(conn, input, pos) == (Run {
                outcome: Outcome::ReadTraffic,
                discard: pos,
                conn,
            })
            &&& !early && !data && waiting ==> run_common::<Data, S>(conn, input, pos) == encode
            &&& early || data || waiting ==> left_by_common::<Data, S>(conn, input) == input
        }),
{
}

/// Once the peer has closed its side, that is told, once; and then what can still be done: to
/// transmit what was encoded, before anything else; nothing, once this side has closed, too; and to
/// send application data, where that is allowed. The input is not looked at.
pub proof fn law_after_the_peer_has_closed<Data: SideData, S: State<Data>>(
    conn: ConnectionView<S::Model>,
    input: Seq<u8>,
    room: nat,
    pos: nat,
)
    requires
        conn.core.common.sendable_tls.len() == 0,
        conn.core.common.has_received_close_notify,
    ensures
        ({
            let end = Run {
                outcome: if conn.wants_write {
                    Outcome::TransmitTlsData
                } else if !conn.emitted_peer_closed_state {
                    Outcome::PeerClosed
                } else if conn.core.common.has_sent_close_notify {
                    Outcome::Closed
                } else if conn.core.common.may_send_application_data {
                    Outcome::WriteTraffic
                } else {
                    Outcome::BlockedHandshake
                },
                discard: pos,
                conn: ConnectionView {
                    emitted_peer_closed_state: conn.emitted_peer_closed_state || !conn.wants_write,
                    ..conn
                },
            };
            &&& run_fast::<Data, S>(conn, input, room, pos) == end
            &&& nothing_kept(conn) ==> run_common::<Data, S>(conn, input, pos) == end
        }),
{
}

/// What is in the buffer for plaintext once a record was opened: nothing new where it came in the
/// clear.
pub open spec fn opened_into(
    common: CommonView,
    record: PlainMessageView,
    gathering: bool,
    out: Seq<u8>,
) -> Seq<u8> {
    if in_the_clear(common, record, gathering) {
        out
    } else {
        common.record_layer.incoming_left(record.payload, out)
    }
}

/// What becomes of the input once its first record was opened where it lies: its payload is what was
/// found in it, with the tag behind, and all else is what it was. A record in the clear stays.
pub open spec fn opened_here(common: CommonView, input: Seq<u8>, gathering: bool) -> Seq<u8> {
    let record = framed(input)->Record_0;
    if in_the_clear(common, record, gathering) {
        input
    } else {
        input.take(5) + common.record_layer.incoming_after(record.payload) + input.skip(
            (5 + record.payload.len()) as int,
        )
    }
}

proof fn lemma_opened_here(common: CommonView, hs: HandshakeBufferView, input: Seq<u8>)
    requires
        framed(input) is Record,
    ensures
        first_record_left(common, hs, input) == opened_here(common, input, hs.pending.len() > 0),
{
    assert(first_record_left(common, hs, input) =~= opened_here(
        common,
        input,
        hs.pending.len() > 0,
    ));
}

/// Handing a gathered message over touches no buffer, on the fast path: what reading on leaves is what
/// is left.
pub proof fn law_fast_handing_over_touches_no_buffer<Data: SideData, S: State<Data>>(
    conn: ConnectionView<S::Model>,
    message: Seq<u8>,
    later: Seq<u8>,
    input: Seq<u8>,
    out: Seq<u8>,
)
    requires
        conn.core.common.sendable_tls.len() == 0,
        !conn.core.common.has_received_close_notify,
        conn.hs_fast.pending == message + later,
        message.len() >= 4,
        message.len() == 4 + 65536 * message[1] + 256 * message[2] + message[3],
    ensures
        ({
            let (r, next) = handed_fast::<Data, S>(conn, message, later);
            left_by_fast::<Data, S>(conn, input, out) == (if r is Ok {
                left_by_fast::<Data, S>(next, input, out)
            } else {
                out
            })
        }),
{
    let (r, next) = handed_fast::<Data, S>(conn, message, later);
    crate::msgs::handshake_buffer::law_message_has_the_length_of_its_header(
        conn.hs_fast,
        message,
        later,
    );
    assert(left_by_deframing(conn.core.common, conn.hs_fast, input, out) == out) by {
        reveal_with_fuel(left_by_deframing, 1);
    }
    assert(fed_fast::<Data, S>(conn, input, out.len()) == (
        match r {
            Ok(()) => Fed::Taken,
            Err(e) => Fed::Failed(e),
        },
        next,
        0nat,
    )) by {
        reveal(fed_fast);
        reveal_with_fuel(deframed, 1);
    }
    lemma_step_fast::<Data, S>(conn, input, out.len(), 0);
    assert(input.skip(0) =~= input);
}

/// Handing a gathered message over touches no byte of the input: what reading on leaves is what is
/// left.
pub proof fn law_handing_over_touches_no_input<Data: SideData, S: State<Data>>(
    conn: ConnectionView<S::Model>,
    message: Seq<u8>,
    later: Seq<u8>,
    input: Seq<u8>,
)
    requires
        conn.core.early_data.len() == 0,
        conn.core.common.received_plaintext.len() == 0,
        conn.core.common.sendable_tls.len() == 0,
        !conn.core.common.has_received_close_notify,
        conn.hs.pending == message + later,
        message.len() >= 4,
        message.len() == 4 + 65536 * message[1] + 256 * message[2] + message[3],
    ensures
        ({
            let (r, next) = handed_common::<Data, S>(conn, message, later);
            left_by_common::<Data, S>(conn, input) == (if r is Ok {
                left_by_common::<Data, S>(next, input)
            } else {
                input
            })
        }),
{
    let (r, next) = handed_common::<Data, S>(conn, message, later);
    crate::msgs::handshake_buffer::law_message_has_the_length_of_its_header(
        conn.hs,
        message,
        later,
    );
    assert(input_left(conn.core.common, conn.hs, input) == input) by {
        reveal_with_fuel(input_left, 1);
    }
    assert(({
        let (fed, after, n, free) = fed_common::<Data, S>(conn, input);
        &&& fed == (match r {
            Ok(()) => Fed::Taken,
            Err(e) => Fed::Failed(e),
        })
        &&& after == next
        &&& n == 0
    })) by {
        reveal(fed_common);
        reveal_with_fuel(deframed, 1);
    }
    lemma_step_common::<Data, S>(conn, input, 0);
    assert(input.skip(0) =~= input);
    let left = left_by_common::<Data, S>(next, input);
    assert(input.take(0) + left =~= left);
}

/// What is left in the buffer with a handshake record in front is what is left with the record
/// gathered, in the buffer that opening it has left.
proof fn lemma_fast_buffer_behind_a_record<Data: SideData, S: State<Data>>(
    conn: ConnectionView<S::Model>,
    next: ConnectionView<S::Model>,
    input: Seq<u8>,
    n: nat,
    out: Seq<u8>,
    left: Seq<u8>,
)
    requires
        conn.core.common.sendable_tls.len() == 0,
        !conn.core.common.has_received_close_notify,
        next.core.common.sendable_tls.len() == 0,
        !next.core.common.has_received_close_notify,
        !message_ready(conn.hs_fast.pending),
        n <= input.len(),
        left.len() == out.len(),
        left_by_first_record(conn.core.common, conn.hs_fast, input, out) == left,
        first_record(conn.core.common, conn.hs_fast, input, Some(out.len())) == (
        FirstRecord::Gathered { common: next.core.common, hs: next.hs_fast, consumed: n }),
        next == (ConnectionView {
            core: CoreView { common: next.core.common, ..conn.core },
            hs_fast: next.hs_fast,
            ..conn
        }),
    ensures
        left_by_fast::<Data, S>(conn, input, out) == left_by_fast::<Data, S>(
            next,
            input.skip(n as int),
            left,
        ),
{
    let room = out.len();
    let rest = input.skip(n as int);
    lemma_fed_fast_behind_a_record::<Data, S>(conn, next, input, room, n);
    assert(left_by_deframing(conn.core.common, conn.hs_fast, input, out) == left_by_deframing(
        next.core.common,
        next.hs_fast,
        rest,
        left,
    )) by {
        reveal_with_fuel(left_by_deframing, 1);
    }
    lemma_step_fast::<Data, S>(conn, input, room, 0);
    lemma_step_fast::<Data, S>(next, rest, room, 0);
    let (fed, after, consumed) = fed_fast::<Data, S>(next, rest, room);
    if fed is Taken {
        assert(input.skip((n + consumed) as int) =~= rest.skip(consumed as int));
    }
}

/// A handshake record is opened into the buffer, on the fast path, and what reading on leaves is what
/// is left.
pub proof fn law_fast_buffer_after_a_handshake_record<Data: SideData, S: State<Data>>(
    conn: ConnectionView<S::Model>,
    input: Seq<u8>,
    m: PlainMessageView,
    zeros: nat,
    out: Seq<u8>,
)
    requires
        conn.core.common.sendable_tls.len() == 0,
        !conn.core.common.has_received_close_notify,
        !message_ready(conn.hs_fast.pending),
        framed(input) is Record,
        m.typ == ContentType::Handshake,
        ({
            let record = framed(input)->Record_0;
            let gathering = conn.hs_fast.pending.len() > 0;
            &&& holds(conn.core.common, record, gathering, m, zeros)
            &&& has_room(conn.core.common, record, gathering, Some(out.len()))
        }),
    ensures
        ({
            let record = framed(input)->Record_0;
            let gathering = conn.hs_fast.pending.len() > 0;
            let n = 5 + record.payload.len();
            let len = conn.hs_fast.pending.len() + m.payload.len();
            let next = ConnectionView {
                core: CoreView {
                    common: after_opening(conn.core.common, record, gathering),
                    ..conn.core
                },
                hs_fast: conn.hs_fast.appended(m.payload, m.version),
                ..conn
            };
            let left = opened_into(conn.core.common, record, gathering, out);
            left_by_fast::<Data, S>(conn, input, out) == (if len <= 262144 || len
                <= conn.hs_fast.capacity {
                left_by_fast::<Data, S>(next, input.skip(n as int), left)
            } else {
                left
            })
        }),
{
    let record = framed(input)->Record_0;
    let common = conn.core.common;
    let gathering = conn.hs_fast.pending.len() > 0;
    let room = out.len();
    let n = 5 + record.payload.len();
    let next = ConnectionView {
        core: CoreView { common: after_opening(common, record, gathering), ..conn.core },
        hs_fast: conn.hs_fast.appended(m.payload, m.version),
        ..conn
    };
    let left = opened_into(common, record, gathering, out);
    lemma_first_handshake_record(common, conn.hs_fast, input, m, zeros, Some(room));
    if conn.hs_fast.fits(m.payload.len()) {
        lemma_fast_buffer_behind_a_record::<Data, S>(conn, next, input, n, out, left);
    } else {
        assert(left_by_deframing(common, conn.hs_fast, input, out) == left) by {
            reveal_with_fuel(left_by_deframing, 1);
        }
        assert(fed_fast::<Data, S>(conn, input, room).0 is Failed) by {
            reveal(fed_fast);
            reveal_with_fuel(deframed, 1);
        }
    }
}

/// What becomes of the input with a handshake record in front is the record as opening it has left
/// it, and behind it what becomes of the rest with the record gathered.
proof fn lemma_input_behind_a_record<Data: SideData, S: State<Data>>(
    conn: ConnectionView<S::Model>,
    next: ConnectionView<S::Model>,
    input: Seq<u8>,
    n: nat,
    opened: Seq<u8>,
)
    requires
        conn.reads(),
        next.reads(),
        !message_ready(conn.hs.pending),
        n <= input.len(),
        opened.len() == input.len(),
        first_record_left(conn.core.common, conn.hs, input) == opened,
        first_record(conn.core.common, conn.hs, input, None) == (FirstRecord::Gathered {
            common: next.core.common,
            hs: next.hs,
            consumed: n,
        }),
        next == (ConnectionView {
            core: CoreView { common: next.core.common, ..conn.core },
            hs: next.hs,
            outer_discard: conn.outer_discard + n,
            ..conn
        }),
    ensures
        left_by_common::<Data, S>(conn, input) == opened.take(n as int) + left_by_common::<Data, S>(
            next,
            input.skip(n as int),
        ),
{
    let rest = input.skip(n as int);
    let front = opened.take(n as int);
    lemma_fed_common_behind_a_record::<Data, S>(conn, next, input, n);
    let left = input_left(next.core.common, next.hs, rest);
    assert(input_left(conn.core.common, conn.hs, input) == front + left) by {
        reveal_with_fuel(input_left, 1);
    }
    lemma_step_common::<Data, S>(conn, input, 0);
    lemma_step_common::<Data, S>(next, rest, 0);
    lemma_step_left::<Data, S>(next, rest, 0);
    let (fed, after, consumed, free) = fed_common::<Data, S>(next, rest);
    if fed is Taken {
        assert(input.skip((n + consumed) as int) =~= rest.skip(consumed as int));
        assert((front + left).take((n + consumed) as int) =~= front + left.take(consumed as int));
        let tail = left_by_common::<Data, S>(after, rest.skip(consumed as int));
        assert(front + left.take(consumed as int) + tail =~= front + (left.take(consumed as int)
            + tail));
    }
}

/// A handshake record is opened where it lies, and behind it is what reading on leaves there.
pub proof fn law_input_after_a_handshake_record<Data: SideData, S: State<Data>>(
    conn: ConnectionView<S::Model>,
    input: Seq<u8>,
    m: PlainMessageView,
    zeros: nat,
)
    requires
        conn.core.early_data.len() == 0,
        conn.core.common.received_plaintext.len() == 0,
        conn.core.common.sendable_tls.len() == 0,
        !conn.core.common.has_received_close_notify,
        !message_ready(conn.hs.pending),
        framed(input) is Record,
        m.typ == ContentType::Handshake,
        ({
            let record = framed(input)->Record_0;
            let gathering = conn.hs.pending.len() > 0;
            &&& holds(conn.core.common, record, gathering, m, zeros)
            &&& has_room(conn.core.common, record, gathering, None)
        }),
    ensures
        ({
            let record = framed(input)->Record_0;
            let gathering = conn.hs.pending.len() > 0;
            let n = 5 + record.payload.len();
            let len = conn.hs.pending.len() + m.payload.len();
            let next = ConnectionView {
                core: CoreView {
                    common: after_opening(conn.core.common, record, gathering),
                    ..conn.core
                },
                hs: conn.hs.appended(m.payload, m.version),
                outer_discard: conn.outer_discard + n,
                ..conn
            };
            let opened = opened_here(conn.core.common, input, gathering);
            left_by_common::<Data, S>(conn, input) == (if len <= 262144 || len
                <= conn.hs.capacity {
                opened.take(n as int) + left_by_common::<Data, S>(next, input.skip(n as int))
            } else {
                opened
            })
        }),
{
    let record = framed(input)->Record_0;
    let common = conn.core.common;
    let gathering = conn.hs.pending.len() > 0;
    let n = 5 + record.payload.len();
    let next = ConnectionView {
        core: CoreView { common: after_opening(common, record, gathering), ..conn.core },
        hs: conn.hs.appended(m.payload, m.version),
        outer_discard: conn.outer_discard + n,
        ..conn
    };
    let opened = opened_here(common, input, gathering);
    lemma_first_handshake_record(common, conn.hs, input, m, zeros, None);
    lemma_opened_here(common, conn.hs, input);
    lemma_first_record_left(common, conn.hs, input);
    if conn.hs.fits(m.payload.len()) {
        lemma_input_behind_a_record::<Data, S>(conn, next, input, n, opened);
    } else {
        assert(input_left(common, conn.hs, input) == opened) by {
            reveal_with_fuel(input_left, 1);
        }
        assert(fed_common::<Data, S>(conn, input).0 is Failed) by {
            reveal(fed_common);
            reveal_with_fuel(deframed, 1);
        }
    }
}

/// A record of any other message is opened into the buffer, on the fast path; where the protocol
/// state has taken the message, what reading on leaves is what is left.
pub proof fn law_fast_buffer_after_a_message<Data: SideData, S: State<Data>>(
    conn: ConnectionView<S::Model>,
    input: Seq<u8>,
    m: PlainMessageView,
    zeros: nat,
    out: Seq<u8>,
)
    requires
        conn.core.common.sendable_tls.len() == 0,
        !conn.core.common.has_received_close_notify,
        conn.hs_fast.pending.len() == 0,
        framed(input) is Record,
        m.typ != ContentType::Handshake,
        m.typ == ContentType::ApplicationData ==> !conn.core.common.may_receive_application_data,
        holds(conn.core.common, framed(input)->Record_0, false, m, zeros),
        has_room(conn.core.common, framed(input)->Record_0, false, Some(out.len())),
    ensures
        ({
            let record = framed(input)->Record_0;
            let n = 5 + record.payload.len();
            let common = after_opening(conn.core.common, record, false);
            let (r, core) = took_message::<Data, S>(CoreView { common, ..conn.core }, m);
            let left = opened_into(conn.core.common, record, false, out);
            left_by_fast::<Data, S>(conn, input, out) == (if r is Ok {
                left_by_fast::<Data, S>(
                    ConnectionView { core, ..conn },
                    input.skip(n as int),
                    left,
                )
            } else {
                left
            })
        }),
{
    let record = framed(input)->Record_0;
    lemma_held_message_is_taken(conn.core.common, record, false, m, zeros, Some(out.len()));
    lemma_step_fast::<Data, S>(conn, input, out.len(), 0);
    reveal(first_record);
    reveal(fed_fast);
    reveal_with_fuel(deframed, 1);
    reveal_with_fuel(left_by_deframing, 1);
}

/// A record of any message but a handshake message is opened where it lies; where the protocol state
/// has taken the message, behind it is what reading on leaves there.
pub proof fn law_input_after_a_message<Data: SideData, S: State<Data>>(
    conn: ConnectionView<S::Model>,
    input: Seq<u8>,
    m: PlainMessageView,
    zeros: nat,
)
    requires
        conn.core.early_data.len() == 0,
        conn.core.common.received_plaintext.len() == 0,
        conn.core.common.sendable_tls.len() == 0,
        !conn.core.common.has_received_close_notify,
        conn.hs.pending.len() == 0,
        framed(input) is Record,
        m.typ != ContentType::Handshake,
        holds(conn.core.common, framed(input)->Record_0, false, m, zeros),
        has_room(conn.core.common, framed(input)->Record_0, false, None),
    ensures
        ({
            let record = framed(input)->Record_0;
            let n = 5 + record.payload.len();
            let common = after_opening(conn.core.common, record, false);
            let (r, core) = took_message::<Data, S>(CoreView { common, ..conn.core }, m);
            let opened = opened_here(conn.core.common, input, false);
            left_by_common::<Data, S>(conn, input) == (if r is Ok {
                opened.take(n as int) + left_by_common::<Data, S>(
                    ConnectionView { core, ..conn },
                    input.skip(n as int),
                )
            } else {
                opened
            })
        }),
{
    let record = framed(input)->Record_0;
    lemma_held_message_is_taken(conn.core.common, record, false, m, zeros, None);
    lemma_step_common::<Data, S>(conn, input, 0);
    lemma_opened_here(conn.core.common, conn.hs, input);
    reveal(first_record);
    reveal(fed_common);
    reveal_with_fuel(deframed, 1);
    reveal_with_fuel(input_left, 1);
}

/// A record that ends the call because it does not open leaves what trying the key leaves: in the
/// buffer on the fast path, and else where it lies. Without a record nothing is touched.
pub proof fn law_buffers_where_the_call_ends<Data: SideData, S: State<Data>>(
    conn: ConnectionView<S::Model>,
    input: Seq<u8>,
    out: Seq<u8>,
)
    requires
        conn.core.common.sendable_tls.len() == 0,
        !conn.core.common.has_received_close_notify,
    ensures
        ({
            let common = conn.core.common;
            let record = framed(input)->Record_0;
            let gathering = conn.hs_fast.pending.len() > 0;
            !message_ready(conn.hs_fast.pending) ==> {
                &&& !(framed(input) is Record) ==> left_by_fast::<Data, S>(conn, input, out) == out
                &&& framed(input) is Record && !in_the_clear(common, record, gathering)
                    && common.record_layer.incoming_to(record.payload, out.len()) is Err
                    ==> left_by_fast::<Data, S>(conn, input, out) == opened_into(
                    common,
                    record,
                    gathering,
                    out,
                )
            }
        }),
        ({
            let common = conn.core.common;
            let record = framed(input)->Record_0;
            let gathering = conn.hs.pending.len() > 0;
            nothing_kept(conn) && !message_ready(conn.hs.pending) ==> {
                &&& !(framed(input) is Record) ==> left_by_common::<Data, S>(conn, input) == input
                &&& framed(input) is Record && !in_the_clear(common, record, gathering)
                    && common.record_layer.incoming(record.payload) is Err ==> left_by_common::<
                    Data,
                    S,
                >(conn, input) == opened_here(common, input, gathering)
            }
        }),
{
    if framed(input) is Record {
        lemma_opened_here(conn.core.common, conn.hs, input);
    }
    reveal(taken);
    reveal(first_record);
    reveal(fed_fast);
    reveal(fed_common);
    reveal_with_fuel(deframed, 1);
    reveal_with_fuel(left_by_deframing, 1);
    reveal_with_fuel(input_left, 1);
}

/// What an earlier call has processed stays as it is, and where nothing is read all does. Nothing is
/// read while there is something to be told before, and after the peer has closed its side.
pub proof fn law_processed_bytes_stay<Data: SideData, S: State<Data>>(
    conn: ConnectionView<S::Model>,
    incoming: Seq<u8>,
)
    requires
        conn.outer_discard <= incoming.len(),
    ensures
        conn.reads() <==> conn.core.early_data.len() == 0
            && conn.core.common.received_plaintext.len() == 0
            && conn.core.common.sendable_tls.len() == 0
            && !conn.core.common.has_received_close_notify,
        !conn.reads() ==> left_by_call::<Data, S>(conn, incoming) == incoming,
        left_by_call::<Data, S>(conn, incoming).take(conn.outer_discard as int) == incoming.take(
            conn.outer_discard as int,
        ),
        left_by_call::<Data, S>(conn, incoming).skip(conn.outer_discard as int) == left_by_common::<
            Data,
            S,
        >(conn, incoming.skip(conn.outer_discard as int)),
{
    let n = conn.outer_discard as int;
    assert(left_by_call::<Data, S>(conn, incoming).take(n) =~= incoming.take(n));
    assert(left_by_call::<Data, S>(conn, incoming).skip(n) =~= left_by_common::<Data, S>(
        conn,
        incoming.skip(n),
    ));
}

/// A status tells what processing came to: each outcome in its own state, with the number of bytes
/// to remove; the length of application data, which lies at the front of the buffer for plaintext;
/// and the record that is to be encoded.
pub proof fn law_status_tells_the_outcome<Data: SideData, S: State<Data>>(
    status: UnbufferedStatus<'_, '_, Data, S>,
    run: Run<S::Model>,
    plain: Seq<u8>,
    incoming: Seq<u8>,
)
    requires
        tells(status, run, plain, incoming),
    ensures
        status.discard == run.discard,
        status.discard <= incoming.len(),
        status.state is Err <==> run.outcome is Failed,
        run.outcome matches Outcome::Failed(e) ==> status.state->Err_0 == e,
        status.state matches Ok(state) ==> {
            &&& state is ReadTraffic <==> run.outcome is ReadTraffic
            &&& state is FastReadLen <==> run.outcome is FastReadLen
            &&& state is PeerClosed <==> run.outcome is PeerClosed
            &&& state is Closed <==> run.outcome is Closed
            &&& state is ReadEarlyData <==> run.outcome is ReadEarlyData
            &&& state is EncodeTlsData <==> run.outcome is EncodeTlsData
            &&& state is TransmitTlsData <==> run.outcome is TransmitTlsData
            &&& state is BlockedHandshake <==> run.outcome is BlockedHandshake
            &&& state is WriteTraffic <==> run.outcome is WriteTraffic
        },
        run.outcome matches Outcome::FastReadLen(payload) ==> {
            &&& status.state matches Ok(ConnectionState::FastReadLen(len))
            &&& len.0 == payload.len()
            &&& len.0 <= plain.len()
            &&& plain.take(len.0 as int) == payload
        },
        run.outcome matches Outcome::EncodeTlsData(chunk) ==> {
            &&& status.state matches Ok(ConnectionState::EncodeTlsData(encode))
            &&& encode.chunk is Some
            &&& encode.chunk->0@ == chunk
            &&& encode.conn@ == run.conn
        },
        status.state matches Ok(ConnectionState::ReadTraffic(read)) ==> read.conn@ == run.conn
            && read.chunk is None && read.incoming_tls@ == incoming,
        status.state matches Ok(ConnectionState::ReadEarlyData(read)) ==> read.conn@ == run.conn
            && read.chunk is None && read.incoming_tls@ == incoming,
        status.state matches Ok(ConnectionState::TransmitTlsData(transmit)) ==> transmit.conn@
            == run.conn,
        status.state matches Ok(ConnectionState::WriteTraffic(write)) ==> write.conn@ == run.conn,
{
}

/// A message that came in the middle of a handshake message was opened all the same: into the buffer
/// on the fast path, and else where it lies.
pub proof fn law_buffers_after_an_interleaved_message<Data: SideData, S: State<Data>>(
    conn: ConnectionView<S::Model>,
    input: Seq<u8>,
    m: PlainMessageView,
    zeros: nat,
    out: Seq<u8>,
)
    requires
        conn.core.common.sendable_tls.len() == 0,
        !conn.core.common.has_received_close_notify,
        framed(input) is Record,
        m.typ != ContentType::Handshake,
        holds(conn.core.common, framed(input)->Record_0, true, m, zeros),
    ensures
        ({
            let common = conn.core.common;
            let record = framed(input)->Record_0;
            &&& conn.hs_fast.pending.len() > 0 && !message_ready(conn.hs_fast.pending) && has_room(
                common,
                record,
                true,
                Some(out.len()),
            ) ==> left_by_fast::<Data, S>(conn, input, out) == opened_into(common, record, true, out)
            &&& nothing_kept(conn) && conn.hs.pending.len() > 0 && !message_ready(
                conn.hs.pending,
            ) && has_room(
                common,
                record,
                true,
                None,
            ) ==> left_by_common::<Data, S>(conn, input) == opened_here(common, input, true)
        }),
{
    let record = framed(input)->Record_0;
    if has_room(conn.core.common, record, true, Some(out.len())) {
        lemma_held_message_is_taken(conn.core.common, record, true, m, zeros, Some(out.len()));
    }
    if has_room(conn.core.common, record, true, None) {
        lemma_held_message_is_taken(conn.core.common, record, true, m, zeros, None);
    }
    lemma_opened_here(conn.core.common, conn.hs, input);
    reveal(first_record);
    reveal(fed_fast);
    reveal(fed_common);
    reveal_with_fuel(deframed, 1);
    reveal_with_fuel(left_by_deframing, 1);
    reveal_with_fuel(input_left, 1);
}

} // verus!
