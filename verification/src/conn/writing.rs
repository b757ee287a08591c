//! What goes out when application data is written, when a connection is closed, and when keys are
//! replaced.

use vstd::prelude::*;

use crate::conn::common_state::{
    after_records, fragment, fragment_count, records_of, written_as, CommonView, EncryptError,
    InsufficientSizeError,
};
use crate::conn::handles::{perhaps_refreshed, refreshed};
use crate::conn::model::CoreView;
use crate::conn::record_layer::RecordLayerView;
use crate::conn::state::{SideData, State};
use crate::crypto::tls13::sealed;
use crate::enums::{ContentType, ProtocolVersion};
use crate::error::Error;
use crate::msgs::buffers::{flat, law_chunks_come_one_behind_the_other};
use crate::msgs::message::record;

verus! {

/// The bytes that are waiting to be sent: the records in their order, and a key update behind them.
pub open spec fn waiting(common: CommonView) -> Seq<u8> {
    flat(common.sendable_tls) + match common.queued_key_update_message {
        Some(update) => update,
        None => Seq::empty(),
    }
}

/// Is `n` the number of records that a payload takes, of 16384 bytes at most?
pub open spec fn takes_records(payload: Seq<u8>, n: nat) -> bool {
    16384 * n >= payload.len() && payload.len() + 16384 > 16384 * n
}

/// Is the outgoing key due to be replaced while the next `n` records go out?
pub open spec fn due_within(common: CommonView, n: nat) -> bool {
    common.record_layer.write_seq <= common.record_layer.write_seq_max
        < common.record_layer.write_seq + n
}

/// The same state with nothing waiting any more.
pub open spec fn all_sent(common: CommonView) -> CommonView {
    CommonView { sendable_tls: Seq::empty(), queued_key_update_message: None, ..common }
}

proof fn lemma_waiting(common: CommonView)
    ensures
        flat(common.with_key_update_written().sendable_tls) == waiting(common),
        common.with_key_update_written().required_size(0) == waiting(common).len(),
        common.with_key_update_written().queued_key_update_message is None,
        common.with_key_update_written() == (CommonView {
            sendable_tls: common.with_key_update_written().sendable_tls,
            queued_key_update_message: None,
            ..common
        }),
{
    let after = common.with_key_update_written();
    crate::msgs::buffers::lemma_flat_len(after.sendable_tls);
    match common.queued_key_update_message {
        Some(update) => {
            law_chunks_come_one_behind_the_other(common.sendable_tls, update);
        },
        None => {
            assert(flat(common.sendable_tls) + Seq::<u8>::empty() =~= flat(common.sendable_tls));
        },
    }
}

/// A payload takes as many records as it has pieces of 16384 bytes, a shorter last one included; all
/// pieces but the last have that size, and none is empty.
pub proof fn law_pieces_of_a_payload(payload: Seq<u8>, n: nat, i: nat)
    requires
        takes_records(payload, n),
        i < n,
    ensures
        fragment_count(payload.len()) == n,
        fragment(payload, i) == payload.subrange(
            (16384 * i) as int,
            if i + 1 < n {
                (16384 * i + 16384) as int
            } else {
                payload.len() as int
            },
        ),
        0 < fragment(payload, i).len() <= 16384,
{
    assert(fragment_count(payload.len()) == n) by {
        let len = payload.len();
        assert((len - 1) / 16384 == n - 1) by (nonlinear_arith)
            requires
                16384 * n >= len,
                len + 16384 > 16384 * n,
                n > 0,
        ;
    }
}

/// Writing succeeds wherever it can: the outgoing key has numbers for all the records, there is room
/// for them and for what is waiting, and the key is not due to be replaced where that cannot be done.
/// Where only room is missing, the size that is asked for is that of all that is to be written.
pub proof fn law_writing_succeeds(common: CommonView, payload: Seq<u8>, n: nat, room: nat)
    requires
        takes_records(payload, n),
        n > 0,
        common.record_layer.write_seq + n <= 0xffff_ffff_ffff_fffe,
        common.negotiated_version == Some(ProtocolVersion::TLSv1_3) || !due_within(common, n),
    ensures
        ({
            let total = waiting(common).len() + payload.len() + 22 * n;
            let r = common.writing(payload, room).1;
            &&& room >= total ==> r is Ok
            &&& room < total && total <= usize::MAX ==> r == Err::<Seq<u8>, EncryptError>(
                EncryptError::InsufficientSize(
                    InsufficientSizeError { required_size: total as usize },
                ),
            )
            &&& room < total && total > usize::MAX ==> r == Err::<Seq<u8>, EncryptError>(
                EncryptError::InsufficientSize(
                    InsufficientSizeError { required_size: usize::MAX },
                ),
            )
        }),
{
    law_pieces_of_a_payload(payload, n, 0);
    lemma_waiting(
        CommonView {
            refresh_traffic_keys_pending: common.refresh_traffic_keys_pending || due_within(
                common,
                n,
            ),
            ..common
        },
    );
}

/// Writing is refused as exhausted exactly where the numbers of the outgoing key do not last for the
/// payload, or where the key is due to be replaced on the way and the version cannot do that; in the
/// latter case the connection is closed. Else nothing changes but that the key is noted as due.
pub proof fn law_writing_is_exhausted_with_its_numbers(
    common: CommonView,
    payload: Seq<u8>,
    n: nat,
    room: nat,
)
    requires
        takes_records(payload, n),
        n > 0,
    ensures
        ({
            let tls13 = common.negotiated_version == Some(ProtocolVersion::TLSv1_3);
            let cannot = due_within(common, n) && !tls13;
            let (after, r) = common.writing(payload, room);
            &&& r == Err::<Seq<u8>, EncryptError>(EncryptError::EncryptExhausted) <==> cannot
                || common.record_layer.write_seq + n > 0xffff_ffff_ffff_fffe
            &&& r == Err::<Seq<u8>, EncryptError>(EncryptError::EncryptExhausted) ==> after == (
            if cannot {
                common.with_close_notify()
            } else {
                CommonView {
                    refresh_traffic_keys_pending: common.refresh_traffic_keys_pending
                        || due_within(common, n),
                    ..common
                }
            })
        }),
{
    law_pieces_of_a_payload(payload, n, 0);
}

/// Writing nothing succeeds, writes nothing, and changes nothing.
pub proof fn law_writing_nothing(common: CommonView, room: nat)
    ensures
        common.writing(Seq::empty(), room) == (common, Ok::<Seq<u8>, EncryptError>(Seq::empty())),
{
}

/// A payload that fits into one record is written as one, behind everything that was waiting: sealed
/// with the outgoing key and the next number, with the content type of application data behind it.
/// Then nothing is waiting, the number after it is next, and whether the key is due to be replaced
/// is noted; nothing else changes.
pub proof fn law_one_record_is_written(common: CommonView, payload: Seq<u8>, room: nat)
    requires
        0 < payload.len() <= 16384,
        common.writing(payload, room).1 is Ok,
    ensures
        ({
            let layer = common.record_layer;
            common.writing(payload, room) == (
                CommonView {
                    record_layer: layer.after_encrypt(),
                    refresh_traffic_keys_pending: common.refresh_traffic_keys_pending
                        || layer.write_seq == layer.write_seq_max,
                    ..all_sent(common)
                },
                Ok::<Seq<u8>, EncryptError>(
                    waiting(common) + record(
                        ContentType::ApplicationData,
                        ProtocolVersion::TLSv1_2,
                        sealed(layer.encrypter->0.key, layer.write_seq, payload.push(23u8))->0,
                    ),
                ),
            )
        }),
{
    law_pieces_of_a_payload(payload, 1, 0);
    let this = CommonView {
        refresh_traffic_keys_pending: common.refresh_traffic_keys_pending || due_within(common, 1),
        ..common
    };
    lemma_waiting(this);
    assert(fragment(payload, 0) =~= payload);
    let layer = common.record_layer;
    reveal_with_fuel(records_of, 2);
    reveal_with_fuel(after_records, 2);
    assert(records_of(layer, payload, 1) =~= record(
        ContentType::ApplicationData,
        ProtocolVersion::TLSv1_2,
        sealed(layer.encrypter->0.key, layer.write_seq, payload.push(23u8))->0,
    ));
}

proof fn lemma_records_in_two(
    layer: RecordLayerView,
    front: Seq<u8>,
    back: Seq<u8>,
    m: nat,
    n: nat,
)
    requires
        front.len() == 16384 * m,
        m > 0,
        n <= fragment_count(back.len()),
    ensures
        after_records(layer, m + n) == after_records(after_records(layer, m), n),
        records_of(layer, front + back, m + n) == records_of(layer, front, m) + records_of(
            after_records(layer, m),
            back,
            n,
        ),
    decreases n,
{
    if n == 0 {
        lemma_front_records(layer, front, back, m, m);
        assert(records_of(layer, front, m) + Seq::<u8>::empty() =~= records_of(layer, front, m));
    } else {
        let i = (n - 1) as nat;
        lemma_records_in_two(layer, front, back, m, i);
        assert(fragment(front + back, m + i) =~= fragment(back, i)) by {
            assert(i * 16384 < back.len());
        }
        assert(records_of(layer, front + back, m + n) =~= records_of(layer, front, m) + records_of(
            after_records(layer, m),
            back,
            n,
        ));
    }
}

proof fn lemma_front_records(
    layer: RecordLayerView,
    front: Seq<u8>,
    back: Seq<u8>,
    m: nat,
    i: nat,
)
    requires
        front.len() == 16384 * m,
        i <= m,
    ensures
        records_of(layer, front + back, i) == records_of(layer, front, i),
    decreases i,
{
    if i > 0 {
        let j = (i - 1) as nat;
        lemma_front_records(layer, front, back, m, j);
        assert(fragment(front + back, j) =~= fragment(front, j));
    }
}

/// A payload may be written in two calls, as long as the first piece is made of whole records: what
/// is written, one behind the other, and what becomes of the state, is the same as in one call. So a
/// payload of any length is written piece by piece, each in a record of its own, with one number
/// after the other.
pub proof fn law_writing_in_two_calls(
    common: CommonView,
    front: Seq<u8>,
    back: Seq<u8>,
    m: nat,
    room: nat,
    front_room: nat,
    back_room: nat,
)
    requires
        m > 0,
        front.len() == 16384 * m,
        back.len() > 0,
        common.record_layer.encrypter is Some,
        common.writing(front + back, room).1 is Ok,
        common.writing(front, front_room).1 is Ok,
        common.writing(front, front_room).0.writing(back, back_room).1 is Ok,
    ensures
        ({
            let (between, first) = common.writing(front, front_room);
            let (after, second) = between.writing(back, back_room);
            common.writing(front + back, room) == (
                after,
                Ok::<Seq<u8>, EncryptError>(first->Ok_0 + second->Ok_0),
            )
        }),
{
    let n = fragment_count(back.len());
    assert(takes_records(back, n));
    law_pieces_of_a_payload(front, m, 0);
    law_pieces_of_a_payload(front + back, m + n, 0);
    let layer = common.record_layer;
    lemma_records_in_two(layer, front, back, m, n);
    lemma_records_in_two(layer, front, back, m, 0);
    crate::conn::common_state::lemma_after_records(layer, m);
    lemma_same_limit(layer, m);
    let noted = |due: bool|
        CommonView {
            refresh_traffic_keys_pending: common.refresh_traffic_keys_pending || due,
            ..common
        };
    lemma_waiting(noted(due_within(common, m)));
    lemma_waiting(noted(due_within(common, m + n)));
    let (between, first) = common.writing(front, front_room);
    let (after, second) = between.writing(back, back_room);
    assert(between.with_key_update_written() == between);
    assert(flat(Seq::<Seq<u8>>::empty()) =~= Seq::<u8>::empty());
    assert(first->Ok_0 == waiting(common) + records_of(layer, front, m));
    assert(second->Ok_0 =~= records_of(after_records(layer, m), back, n));
    assert(common.writing(front + back, room).1->Ok_0 =~= first->Ok_0 + second->Ok_0);
}

proof fn lemma_same_limit(layer: RecordLayerView, n: nat)
    ensures
        after_records(layer, n).write_seq_max == layer.write_seq_max,
    decreases n,
{
    if n > 0 {
        lemma_same_limit(layer, (n - 1) as nat);
    }
}

/// Writing that was refused for want of room has used no number and lost nothing: what was waiting is
/// still waiting, and nothing changes but that a key update has joined the records that wait, and
/// that the key may be noted as due.
pub proof fn law_refused_writing_loses_nothing(
    common: CommonView,
    payload: Seq<u8>,
    n: nat,
    room: nat,
)
    requires
        takes_records(payload, n),
        n > 0,
        common.writing(payload, room).1 matches Err(EncryptError::InsufficientSize(_)),
    ensures
        ({
            let after = common.writing(payload, room).0;
            &&& waiting(after) == waiting(common)
            &&& after == (CommonView {
                sendable_tls: after.sendable_tls,
                queued_key_update_message: None,
                refresh_traffic_keys_pending: common.refresh_traffic_keys_pending || due_within(
                    common,
                    n,
                ),
                ..common
            })
        }),
{
    law_pieces_of_a_payload(payload, n, 0);
    let noted = CommonView {
        refresh_traffic_keys_pending: common.refresh_traffic_keys_pending || due_within(common, n),
        ..common
    };
    lemma_waiting(noted);
    let after = common.writing(payload, room).0;
    assert(waiting(after) =~= waiting(common));
}

/// Closing writes a close_notify alert behind everything that was waiting, once: sealed with the
/// outgoing key and the next number. It is refused where the numbers are used up, and where there is
/// not enough room, with the size that it takes; and the second time it writes nothing.
pub proof fn law_closing(common: CommonView, room: nat)
    ensures
        ({
            let layer = common.record_layer;
            let total = waiting(common).len() + 24;
            let (after, r) = common.closing(room);
            if common.has_sent_close_notify {
                after == common && r == Ok::<Seq<u8>, EncryptError>(Seq::empty())
            } else if layer.write_seq >= 0xffff_ffff_ffff_fffe {
                &&& r == Err::<Seq<u8>, EncryptError>(EncryptError::EncryptExhausted)
                &&& after == common
            } else if room < total {
                &&& total <= usize::MAX ==> r == Err::<Seq<u8>, EncryptError>(
                    EncryptError::InsufficientSize(
                        InsufficientSizeError { required_size: total as usize },
                    ),
                )
                &&& r matches Err(EncryptError::InsufficientSize(_))
                &&& waiting(after) == waiting(common)
                &&& after == (CommonView {
                    sendable_tls: after.sendable_tls,
                    queued_key_update_message: None,
                    ..common
                })
            } else {
                &&& r == Ok::<Seq<u8>, EncryptError>(
                    waiting(common) + record(
                        ContentType::ApplicationData,
                        ProtocolVersion::TLSv1_2,
                        sealed(layer.encrypter->0.key, layer.write_seq, seq![1u8, 0u8, 21u8])->0,
                    ),
                )
                &&& after == (CommonView {
                    has_sent_close_notify: true,
                    record_layer: layer.after_encrypt(),
                    ..all_sent(common)
                })
            }
        }),
{
    lemma_waiting(common);
    assert(seq![1u8, 0u8].push(21u8) =~= seq![1u8, 0u8, 21u8]);
    assert(waiting(common.closing(room).0) =~= waiting(common) || common.closing(room).1 is Ok);
}

/// Where a connection has to be closed without the caller's doing, a close_notify alert joins what is
/// waiting, once: in the clear until there is an outgoing key, then sealed; and not at all once the
/// numbers are used up.
pub proof fn law_close_notify_joins_what_is_waiting(common: CommonView)
    ensures
        ({
            let layer = common.record_layer;
            let after = common.with_close_notify();
            let update = match common.queued_key_update_message {
                Some(update) if update.len() > 0 => common.sendable_tls.push(update),
                _ => common.sendable_tls,
            };
            let noted = CommonView { has_sent_close_notify: true, ..common };
            after == (if common.has_sent_close_notify {
                common
            } else if layer.encrypter is None {
                CommonView {
                    queued_key_update_message: None,
                    sendable_tls: update.push(seq![21u8, 3u8, 3u8, 0u8, 2u8, 1u8, 0u8]),
                    ..noted
                }
            } else if layer.write_seq >= 0xffff_ffff_ffff_fffe {
                noted
            } else {
                CommonView {
                    queued_key_update_message: None,
                    record_layer: layer.after_encrypt(),
                    sendable_tls: update.push(
                        record(
                            ContentType::ApplicationData,
                            ProtocolVersion::TLSv1_2,
                            sealed(
                                layer.encrypter->0.key,
                                layer.write_seq,
                                seq![1u8, 0u8, 21u8],
                            )->0,
                        ),
                    ),
                    ..noted
                }
            })
        }),
{
    let payload = seq![1u8, 0u8];
    assert(0x0303u16 / 256 == 3 && 0x0303u16 % 256 == 3);
    assert(record(ContentType::Alert, ProtocolVersion::TLSv1_2, payload) =~= seq![
        21u8,
        3u8,
        3u8,
        0u8,
        2u8,
        1u8,
        0u8,
    ]);
    assert(payload.push(21u8) =~= seq![1u8, 0u8, 21u8]);
}

/// What was written lies at the front of the buffer, as long as was said, and the rest of the buffer
/// is what it was. Where writing was refused all of it is.
pub proof fn law_written_bytes_lie_in_front(
    r: Result<usize, EncryptError>,
    expected: Result<Seq<u8>, EncryptError>,
    before: Seq<u8>,
    after: Seq<u8>,
)
    requires
        written_as(r, expected, before, after),
    ensures
        match expected {
            Ok(bytes) => {
                &&& r == Ok::<usize, EncryptError>(bytes.len() as usize)
                &&& bytes.len() <= usize::MAX
                &&& after.len() == before.len()
                &&& after.take(bytes.len() as int) == bytes
                &&& after.skip(bytes.len() as int) == before.skip(bytes.len() as int)
            },
            Err(e) => r == Err::<usize, EncryptError>(e) && after == before,
        },
{
    if let Ok(bytes) = expected {
        assert(after.take(bytes.len() as int) =~= bytes);
        assert(after.skip(bytes.len() as int) =~= before.skip(bytes.len() as int));
    }
}

/// New keys are asked for where they are due, once: it is not noted as due any more, and what the
/// protocol state does is done, whether it succeeds or not. Where they are not due nothing happens.
pub proof fn law_due_keys_are_asked_for<Data: SideData, S: State<Data>>(core: CoreView<S::Model>)
    ensures
        ({
            let noted = CommonView { refresh_traffic_keys_pending: false, ..core.common };
            perhaps_refreshed::<Data, S>(core) == (if !core.common.refresh_traffic_keys_pending {
                core
            } else {
                match core.state {
                    Err(e) => CoreView { common: noted, ..core },
                    Ok(model) => {
                        let (r, next, common) = S::key_update_requested(model, noted);
                        CoreView { state: Ok(next), common, ..core }
                    },
                }
            })
        }),
        ({
            let (r, after) = refreshed::<Data, S>(core);
            match core.state {
                Err(e) => r == Err::<(), Error>(e) && after == core,
                Ok(model) => {
                    let (expected, next, common) = S::key_update_requested(model, core.common);
                    r == expected && after == (CoreView { state: Ok(next), common, ..core })
                },
            }
        }),
{
}

} // verus!
