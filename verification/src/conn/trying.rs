//! What opening records on trial gives, and what committing a key does.

use vstd::prelude::*;

use crate::conn::client::committed_next;
use crate::conn::common_state::CommonView;
use crate::conn::model::{ConnectionView, CoreView};
use crate::conn::record_layer::RecordLayerView;
use crate::conn::state::{ClientConnectionData, SideData, State};
use crate::conn::traffic::{TrafficModel, TrafficState};
use crate::conn::trial::{
    left_by_next_range, left_by_next_trial, tried_as, tried_next, tried_range_as,
    tried_range_next, DangerousBatchDecryptOutcome, DangerousDecryptOutcome, Tried, TriedRange,
};
use crate::crypto::cipher::{law_only_padding_holds_nothing, law_padding_is_skipped};
use crate::crypto::key_schedule::{next_secret, traffic_key};
use crate::crypto::tls13::{law_what_was_found_lies_in_front, opened, KeyView};
use crate::error::{Error, PeerMisbehaved};
use crate::msgs::deframer::{framed, Framed};

verus! {

/// Is this one complete record, with nothing behind it, of a size that a buffer of `room` bytes is
/// enough for?
pub open spec fn one_record(bytes: Seq<u8>, room: nat) -> bool {
    &&& framed(bytes) is Record
    &&& bytes.len() == 5 + framed(bytes)->Record_0.payload.len()
    &&& bytes.len() <= 5 + room + 16
}

/// A payload with a content type and some zero bytes behind it.
pub open spec fn padded(payload: Seq<u8>, typ: u8, zeros: nat) -> Seq<u8> {
    payload.push(typ) + Seq::new(zeros, |i: int| 0u8)
}

/// What a trial gives does not depend on which record is expected next, nor on anything else of the
/// connection but its incoming key, whether application data may come, and whether a handshake
/// message is incomplete: so records can be tried in any order.
pub proof fn law_trials_ignore_the_expected_number<M>(
    conn: ConnectionView<M>,
    other: ConnectionView<M>,
    bytes: Seq<u8>,
    seq: u64,
    end: u64,
    out: Seq<u8>,
)
    requires
        conn.core.common.record_layer.decrypter == other.core.common.record_layer.decrypter,
        conn.core.common.may_receive_application_data
            == other.core.common.may_receive_application_data,
        (conn.hs_fast.pending.len() == 0) == (other.hs_fast.pending.len() == 0),
    ensures
        conn.tried_at(bytes, seq, out.len()) == other.tried_at(bytes, seq, out.len()),
        conn.left_by_trial(bytes, seq, out) == other.left_by_trial(bytes, seq, out),
        conn.tried_range(bytes, seq, end, out.len()) == other.tried_range(
            bytes,
            seq,
            end,
            out.len(),
        ),
    decreases end - seq,
{
    if seq < end {
        law_trials_ignore_the_expected_number(conn, other, bytes, (seq + 1) as u64, end, out);
    }
}

/// A record that the incoming key opens, with the sequence number that was given, is told as what it
/// holds, whatever the number: application data with its payload, which lies at the front of the
/// buffer, and anything else as opaque.
pub proof fn law_trial_gives_what_the_key_finds<M>(
    conn: ConnectionView<M>,
    bytes: Seq<u8>,
    seq: u64,
    out: Seq<u8>,
    key: KeyView,
    payload: Seq<u8>,
    typ: u8,
    zeros: nat,
)
    requires
        conn.core.common.may_receive_application_data,
        conn.hs_fast.pending.len() == 0,
        conn.core.common.record_layer.decrypter == Some(key),
        one_record(bytes, out.len()),
        typ != 0,
        opened(key, seq, framed(bytes)->Record_0.payload) == Some(padded(payload, typ, zeros)),
        framed(bytes)->Record_0.payload.len() == payload.len() + 1 + zeros + 16,
    ensures
        conn.tried_at(bytes, seq, out.len()) == Ok::<Tried, Error>(
            if typ == 23 {
                Tried::AuthenticatedApplicationData(payload)
            } else {
                Tried::AuthenticatedOpaque
            },
        ),
        conn.left_by_trial(bytes, seq, out) == padded(payload, typ, zeros) + out.skip(
            (payload.len() + 1 + zeros) as int,
        ),
{
    law_padding_is_skipped(payload, typ, zeros);
    let record = framed(bytes)->Record_0.payload;
    law_what_was_found_lies_in_front(
        out,
        record.len(),
        opened(key, seq, record),
        !key.alg.is_gcm(),
    );
}

/// A record that the incoming key does not open, with the sequence number that was given, is told as
/// one that does not decrypt, and nothing else is. One that holds nothing but padding, and one for
/// which the buffer is too small, are told apart.
pub proof fn law_trial_tells_why_it_fails<M>(
    conn: ConnectionView<M>,
    bytes: Seq<u8>,
    seq: u64,
    room: nat,
    key: KeyView,
)
    requires
        conn.core.common.may_receive_application_data,
        conn.hs_fast.pending.len() == 0,
        conn.core.common.record_layer.decrypter == Some(key),
        framed(bytes) is Record,
        bytes.len() == 5 + framed(bytes)->Record_0.payload.len(),
        opened(key, seq, framed(bytes)->Record_0.payload) matches Some(plain) ==> plain.len() + 16
            == framed(bytes)->Record_0.payload.len(),
    ensures
        ({
            let found = opened(key, seq, framed(bytes)->Record_0.payload);
            let padding = found is Some && forall|i: int|
                0 <= i < found->0.len() ==> found->0[i] == 0;
            let r = conn.tried_at(bytes, seq, room);
            &&& r == Err::<Tried, Error>(Error::General("output buffer too small")) <==> bytes.len()
                > 5 + room + 16
            &&& r == Err::<Tried, Error>(Error::DecryptError) <==> bytes.len() <= 5 + room + 16
                && found is None
            &&& r == Err::<Tried, Error>(
                Error::PeerMisbehaved(PeerMisbehaved::IllegalTlsInnerPlaintext),
            ) <==> bytes.len() <= 5 + room + 16 && padding
            &&& r is Ok <==> bytes.len() <= 5 + room + 16 && found is Some && !padding
        }),
{
    let payload = framed(bytes)->Record_0.payload;
    if let Some(plain) = opened(key, seq, payload) {
        law_only_padding_holds_nothing(plain);
    }
}

/// There is nothing to try before application data may come, while a handshake message is
/// incomplete, without an incoming key, and without exactly one complete record: that is no failure,
/// and the buffer is left alone. Bytes that are no record are refused.
pub proof fn law_nothing_to_try<M>(
    conn: ConnectionView<M>,
    bytes: Seq<u8>,
    seq: u64,
    out: Seq<u8>,
)
    ensures
        ({
            let none = Ok::<Tried, Error>(Tried::NoCompleteSingleRecord);
            let may = conn.core.common.may_receive_application_data && conn.hs_fast.pending.len()
                == 0;
            let one = framed(bytes) is Record && bytes.len() == 5
                + framed(bytes)->Record_0.payload.len();
            let key = conn.core.common.record_layer.decrypter is Some;
            let r = conn.tried_at(bytes, seq, out.len());
            &&& r == none <==> !may || (!(framed(bytes) is Invalid) && !(one && key))
            &&& may ==> (framed(bytes) matches Framed::Invalid(e) ==> r == Err::<Tried, Error>(
                Error::InvalidMessage(e),
            ))
            &&& !(may && one && key) ==> conn.left_by_trial(bytes, seq, out) == out
        }),
{
}

/// A range of sequence numbers is tried from its first on, up to its end, which is not tried itself;
/// it ends with the first number with which the record does not fail to authenticate, and gives what
/// that number gives, and the number.
pub proof fn law_range_ends_with_the_first_match<M>(
    conn: ConnectionView<M>,
    bytes: Seq<u8>,
    first: u64,
    at: u64,
    end: u64,
    room: nat,
)
    requires
        first <= at < end,
        forall|seq: u64|
            first <= seq < at ==> #[trigger] conn.tried_at(bytes, seq, room) == Err::<Tried, Error>(
                Error::DecryptError,
            ),
        conn.tried_at(bytes, at, room) != Err::<Tried, Error>(Error::DecryptError),
    ensures
        conn.tried_range(bytes, first, end, room) == (match conn.tried_at(bytes, at, room) {
            Ok(Tried::NoCompleteSingleRecord) => Ok(TriedRange::NoCompleteSingleRecord),
            Ok(Tried::AuthenticatedOpaque) => Ok(TriedRange::AuthenticatedOpaque(at)),
            Ok(Tried::AuthenticatedApplicationData(payload)) => Ok(
                TriedRange::AuthenticatedApplicationData(at, payload),
            ),
            Err(e) => Err(e),
        }),
    decreases at - first,
{
    if first < at {
        law_range_ends_with_the_first_match(conn, bytes, (first + 1) as u64, at, end, room);
    }
}

/// Where the record fails to authenticate with each number of a range, and where the range is empty,
/// there is no match.
pub proof fn law_range_without_a_match<M>(
    conn: ConnectionView<M>,
    bytes: Seq<u8>,
    first: u64,
    end: u64,
    room: nat,
)
    requires
        forall|seq: u64|
            first <= seq < end ==> #[trigger] conn.tried_at(bytes, seq, room) == Err::<Tried, Error>(
                Error::DecryptError,
            ),
    ensures
        conn.tried_range(bytes, first, end, room) == Ok::<TriedRange, Error>(TriedRange::NoMatch),
    decreases end - first,
{
    if first < end {
        law_range_without_a_match(conn, bytes, (first + 1) as u64, end, room);
    }
}

/// The buffer after a range is the one after its last trial, each trial finding it as the one before
/// has left it.
pub proof fn law_range_leaves_what_its_last_trial_leaves<M>(
    conn: ConnectionView<M>,
    bytes: Seq<u8>,
    first: u64,
    end: u64,
    out: Seq<u8>,
)
    ensures
        first >= end ==> conn.left_by_range(bytes, first, end, out) == out,
        first < end && conn.tried_at(bytes, first, out.len()) != Err::<Tried, Error>(
            Error::DecryptError,
        ) ==> conn.left_by_range(bytes, first, end, out) == conn.left_by_trial(bytes, first, out),
        first < end && conn.tried_at(bytes, first, out.len()) == Err::<Tried, Error>(
            Error::DecryptError,
        ) ==> conn.left_by_range(bytes, first, end, out) == conn.left_by_range(
            bytes,
            (first + 1) as u64,
            end,
            conn.left_by_trial(bytes, first, out),
        ),
{
}

/// The same connection with another incoming key.
pub open spec fn with_key<M>(conn: ConnectionView<M>, key: KeyView) -> ConnectionView<M> {
    ConnectionView {
        core: CoreView {
            common: CommonView {
                record_layer: RecordLayerView {
                    decrypter: Some(key),
                    ..conn.core.common.record_layer
                },
                ..conn.core.common
            },
            ..conn.core
        },
        ..conn
    }
}

/// The same connection, with the number of a record noted that the prepared key has opened.
pub open spec fn with_proof(conn: ConnectionView<TrafficModel>, seq: u64) -> ConnectionView<
    TrafficModel,
> {
    let model = conn.core.state->Ok_0;
    ConnectionView {
        core: CoreView {
            state: Ok(TrafficModel { authenticated: model.authenticated.insert(seq), ..model }),
            ..conn.core
        },
        ..conn
    }
}

/// Trying the prepared key gives, and leaves in the buffer, what trying it as the incoming key would.
/// The connection goes on with the keys that it has: only that the prepared key has opened the
/// record with this number is noted, and only where it has.
pub proof fn law_next_key_is_tried_like_the_current_one<Data: SideData>(
    conn: ConnectionView<TrafficModel>,
    model: TrafficModel,
    bytes: Seq<u8>,
    seq: u64,
    out: Seq<u8>,
)
    requires
        conn.core.state == Ok::<TrafficModel, Error>(model),
    ensures
        ({
            let key = traffic_key(model.suite, model.next_inbound_secret);
            let (r, after) = tried_next::<Data, TrafficState>(conn, bytes, seq, out.len());
            &&& r == with_key(conn, key).tried_at(bytes, seq, out.len())
            &&& left_by_next_trial::<Data, TrafficState>(conn, bytes, seq, out) == with_key(
                conn,
                key,
            ).left_by_trial(bytes, seq, out)
            &&& after == (if r is Ok && r != Ok::<Tried, Error>(Tried::NoCompleteSingleRecord) {
                with_proof(conn, seq)
            } else {
                conn
            })
        }),
{
}

/// A range of numbers is tried with the prepared key as it would be with the incoming key; the one
/// number with which it has opened the record is noted.
pub proof fn law_next_key_range_is_tried_like_the_current_one<Data: SideData>(
    conn: ConnectionView<TrafficModel>,
    model: TrafficModel,
    bytes: Seq<u8>,
    first: u64,
    end: u64,
    out: Seq<u8>,
)
    requires
        conn.core.state == Ok::<TrafficModel, Error>(model),
    ensures
        ({
            let key = traffic_key(model.suite, model.next_inbound_secret);
            let (r, after) = tried_range_next::<Data, TrafficState>(
                conn,
                bytes,
                first,
                end,
                out.len(),
            );
            &&& r == with_key(conn, key).tried_range(bytes, first, end, out.len())
            &&& left_by_next_range::<Data, TrafficState>(conn, bytes, first, end, out) == with_key(
                conn,
                key,
            ).left_by_range(bytes, first, end, out)
            &&& after == (match r {
                Ok(TriedRange::AuthenticatedOpaque(at)) => with_proof(conn, at),
                Ok(TriedRange::AuthenticatedApplicationData(at, _)) => with_proof(conn, at),
                _ => conn,
            })
        }),
    decreases end - first,
{
    if first < end {
        let key = traffic_key(model.suite, model.next_inbound_secret);
        law_next_key_is_tried_like_the_current_one::<Data>(conn, model, bytes, first, out);
        let left = with_key(conn, key).left_by_trial(bytes, first, out);
        lemma_trial_keeps_the_length(with_key(conn, key), bytes, first, out);
        law_next_key_range_is_tried_like_the_current_one::<Data>(
            conn,
            model,
            bytes,
            (first + 1) as u64,
            end,
            left,
        );
    }
}

proof fn lemma_trial_keeps_the_length<M>(
    conn: ConnectionView<M>,
    bytes: Seq<u8>,
    seq: u64,
    out: Seq<u8>,
)
    ensures
        conn.left_by_trial(bytes, seq, out).len() == out.len(),
{
}

/// A connection that has ended has no prepared key: each trial of it gives the error that it has
/// ended with, where there is a record to try, and changes nothing.
pub proof fn law_ended_connection_tries_no_next_key<Data: SideData, S: State<Data>>(
    conn: ConnectionView<S::Model>,
    bytes: Seq<u8>,
    seq: u64,
    out: Seq<u8>,
    e: Error,
)
    requires
        conn.core.state == Err::<S::Model, Error>(e),
        conn.core.common.may_receive_application_data,
        conn.hs_fast.pending.len() == 0,
        framed(bytes) is Record,
        bytes.len() == 5 + framed(bytes)->Record_0.payload.len(),
    ensures
        tried_next::<Data, S>(conn, bytes, seq, out.len()) == (Err::<Tried, Error>(e), conn),
        left_by_next_trial::<Data, S>(conn, bytes, seq, out) == out,
{
}

/// Committing the prepared key makes it the incoming key of the connection and expects the record
/// behind the one that was matched; the key after it is prepared, for which nothing counts as opened
/// yet. Nothing else of the connection changes. It is refused, and nothing changes at all, unless the
/// prepared key has opened the record in question, and there is a number behind it; and where the
/// connection has ended.
pub proof fn law_commit_expects_the_record_behind_the_match(
    conn: ConnectionView<TrafficModel>,
    matched_seq: u64,
)
    ensures
        ({
            let (r, after) = committed_next::<TrafficState>(conn, matched_seq);
            match conn.core.state {
                Err(e) => r == Err::<(), Error>(e) && after == conn,
                Ok(model) => if matched_seq < 0xffff_ffff_ffff_ffff
                    && model.authenticated.contains(matched_seq) {
                    &&& r is Ok
                    &&& after.core.common.record_layer.read_seq == matched_seq + 1
                    &&& after.core.common.record_layer.decrypter == Some(
                        traffic_key(model.suite, model.next_inbound_secret),
                    )
                    &&& after == (ConnectionView {
                        core: CoreView {
                            state: Ok(
                                TrafficModel {
                                    next_inbound_secret: next_secret(
                                        model.suite,
                                        model.next_inbound_secret,
                                    ),
                                    authenticated: Set::empty(),
                                    ..model
                                },
                            ),
                            common: CommonView {
                                record_layer: RecordLayerView {
                                    read_seq: after.core.common.record_layer.read_seq,
                                    decrypter: after.core.common.record_layer.decrypter,
                                    ..conn.core.common.record_layer
                                },
                                ..conn.core.common
                            },
                            ..conn.core
                        },
                        ..conn
                    })
                } else {
                    &&& r == Err::<(), Error>(
                        Error::General(
                            "next inbound traffic key has not authenticated this sequence number",
                        ),
                    )
                    &&& after == conn
                },
            }
        }),
{
}

/// For any protocol state, committing does to the connection exactly what the state does to itself
/// and to what both sides share.
pub proof fn law_commit_is_what_the_state_does<S: State<ClientConnectionData>>(
    conn: ConnectionView<S::Model>,
    model: S::Model,
    matched_seq: u64,
)
    requires
        conn.core.state == Ok::<S::Model, Error>(model),
    ensures
        ({
            let (r, after) = committed_next::<S>(conn, matched_seq);
            let (expected, next, common) = S::next_key_committed(
                model,
                conn.core.common,
                matched_seq,
            );
            &&& r == expected
            &&& after == (ConnectionView {
                core: CoreView { state: Ok(next), common, ..conn.core },
                ..conn
            })
        }),
{
}

/// A record that was tried with the prepared key, and opened, can be committed right away, whatever
/// its number, but for the last one: then the peer's next record is the one that is expected.
pub proof fn law_matched_record_can_be_committed(
    conn: ConnectionView<TrafficModel>,
    model: TrafficModel,
    bytes: Seq<u8>,
    seq: u64,
    out: Seq<u8>,
)
    requires
        conn.core.state == Ok::<TrafficModel, Error>(model),
        seq < 0xffff_ffff_ffff_ffff,
        ({
            let r = tried_next::<ClientConnectionData, TrafficState>(
                conn,
                bytes,
                seq,
                out.len(),
            ).0;
            r is Ok && r != Ok::<Tried, Error>(Tried::NoCompleteSingleRecord)
        }),
    ensures
        ({
            let tried = tried_next::<ClientConnectionData, TrafficState>(
                conn,
                bytes,
                seq,
                out.len(),
            ).1;
            let (r, after) = committed_next::<TrafficState>(tried, seq);
            &&& r is Ok
            &&& after.core.common.record_layer.read_seq == seq + 1
            &&& after.core.common.record_layer.decrypter == Some(
                traffic_key(model.suite, model.next_inbound_secret),
            )
        }),
{
    law_next_key_is_tried_like_the_current_one::<ClientConnectionData>(
        conn,
        model,
        bytes,
        seq,
        out,
    );
}

/// The result of a trial says what was found: the same outcome, with the length of the application
/// data, which lies at the front of the buffer.
pub proof fn law_trial_results_say_what_was_found(
    r: Result<DangerousDecryptOutcome, Error>,
    expected: Result<Tried, Error>,
    out: Seq<u8>,
)
    requires
        tried_as(r, expected, out),
    ensures
        match expected {
            Ok(Tried::NoCompleteSingleRecord) => r == Ok::<DangerousDecryptOutcome, Error>(
                DangerousDecryptOutcome::NoCompleteSingleRecord,
            ),
            Ok(Tried::AuthenticatedOpaque) => r == Ok::<DangerousDecryptOutcome, Error>(
                DangerousDecryptOutcome::AuthenticatedOpaque,
            ),
            Ok(Tried::AuthenticatedApplicationData(payload)) => {
                &&& r == Ok::<DangerousDecryptOutcome, Error>(
                    DangerousDecryptOutcome::AuthenticatedApplicationData(payload.len() as usize),
                )
                &&& payload.len() <= usize::MAX
                &&& payload.len() <= out.len()
                &&& out.take(payload.len() as int) == payload
            },
            Err(e) => r == Err::<DangerousDecryptOutcome, Error>(e),
        },
{
}

/// The result of trying a range says what was found, and with which number.
pub proof fn law_range_results_say_what_was_found(
    r: Result<DangerousBatchDecryptOutcome, Error>,
    expected: Result<TriedRange, Error>,
    out: Seq<u8>,
)
    requires
        tried_range_as(r, expected, out),
    ensures
        match expected {
            Ok(TriedRange::NoCompleteSingleRecord) => r == Ok::<DangerousBatchDecryptOutcome, Error>(
                DangerousBatchDecryptOutcome::NoCompleteSingleRecord,
            ),
            Ok(TriedRange::NoMatch) => r == Ok::<DangerousBatchDecryptOutcome, Error>(
                DangerousBatchDecryptOutcome::NoMatch,
            ),
            Ok(TriedRange::AuthenticatedOpaque(seq)) => r == Ok::<
                DangerousBatchDecryptOutcome,
                Error,
            >(DangerousBatchDecryptOutcome::AuthenticatedOpaque { seq }),
            Ok(TriedRange::AuthenticatedApplicationData(seq, payload)) => {
                &&& r == Ok::<DangerousBatchDecryptOutcome, Error>(
                    DangerousBatchDecryptOutcome::AuthenticatedApplicationData {
                        seq,
                        plaintext_len: payload.len() as usize,
                    },
                )
                &&& payload.len() <= usize::MAX
                &&& payload.len() <= out.len()
                &&& out.take(payload.len() as int) == payload
            },
            Err(e) => r == Err::<DangerousBatchDecryptOutcome, Error>(e),
        },
{
}

} // verus!
