//! Opening records on trial, for callers that schedule records themselves.

use vstd::prelude::*;

use crate::conn::model::{ConnectionView, CoreView};
use crate::conn::state::{SideData, State};
use crate::conn::unbuffered::UnbufferedConnectionCommon;
use crate::crypto::tls13::{buffer_after, opened, tried_to};
use crate::enums::ContentType;
use crate::error::Error;
use crate::msgs::deframer::{framed, wire_len, DeframerIterImmut, Framed};
use crate::msgs::message::{InboundOpaqueMessageImmut, InboundPlainMessage, PlainMessageView};

verus! {

/// The one record that `record` is made of, where it is complete and nothing follows it.
pub open spec fn single_record(record: Seq<u8>) -> Result<Option<PlainMessageView>, Error> {
    match framed(record) {
        Framed::Incomplete => Ok(None),
        Framed::Invalid(e) => Err(Error::InvalidMessage(e)),
        Framed::Record(message) => if wire_len(message) == record.len() {
            Ok(Some(message))
        } else {
            Ok(None)
        },
    }
}

/// What trying to decrypt a record comes to.
pub enum Tried {
    NoCompleteSingleRecord,
    AuthenticatedOpaque,
    AuthenticatedApplicationData(Seq<u8>),
}

/// What a record holds that was opened on trial.
pub open spec fn tried_message(m: PlainMessageView) -> Tried {
    if m.typ == ContentType::ApplicationData {
        Tried::AuthenticatedApplicationData(m.payload)
    } else {
        Tried::AuthenticatedOpaque
    }
}

impl<M> ConnectionView<M> {
    /// May records be tried at all? Application data has to be expected, and no handshake message
    /// may be incomplete.
    pub open spec fn may_try(self) -> bool {
        self.core.common.may_receive_application_data && self.hs_fast.pending.len() == 0
    }

    /// What trying the current incoming key on a record gives.
    pub open spec fn tried_at(self, record: Seq<u8>, seq: u64, room: nat) -> Result<Tried, Error> {
        if !self.may_try() {
            Ok(Tried::NoCompleteSingleRecord)
        } else {
            match single_record(record) {
                Err(e) => Err(e),
                Ok(None) => Ok(Tried::NoCompleteSingleRecord),
                Ok(Some(message)) => match self.core.common.record_layer.decrypter {
                    None => Ok(Tried::NoCompleteSingleRecord),
                    Some(key) => match tried_to(
                        message.payload.len(),
                        room,
                        opened(key, seq, message.payload),
                    ) {
                        Ok(m) => Ok(tried_message(m)),
                        Err(e) => Err(e),
                    },
                },
            }
        }
    }
}

impl<M> ConnectionView<M> {
    /// What trying the current incoming key on a record leaves in the buffer `out`: it is touched
    /// only where there is exactly one record, and a key to try.
    pub open spec fn left_by_trial(self, record: Seq<u8>, seq: u64, out: Seq<u8>) -> Seq<u8> {
        match (single_record(record), self.core.common.record_layer.decrypter) {
            (Ok(Some(message)), Some(key)) if self.may_try() => buffer_after(
                key,
                seq,
                message.payload,
                out,
            ),
            _ => out,
        }
    }
}

/// What trying the next incoming key on a record leaves in the buffer `out`: it is touched only
/// where there is exactly one record, and a key to try.
pub open spec fn left_by_next_trial<Data: SideData, S: State<Data>>(
    conn: ConnectionView<S::Model>,
    record: Seq<u8>,
    seq: u64,
    out: Seq<u8>,
) -> Seq<u8> {
    match (single_record(record), conn.core.state) {
        (Ok(Some(message)), Ok(model)) if conn.may_try() => S::left_by_next_key(
            model,
            message.payload,
            seq,
            out,
        ),
        _ => out,
    }
}

/// What trying the next incoming key on a record gives, and what becomes of the connection.
pub open spec fn tried_next<Data: SideData, S: State<Data>>(
    conn: ConnectionView<S::Model>,
    record: Seq<u8>,
    seq: u64,
    room: nat,
) -> (Result<Tried, Error>, ConnectionView<S::Model>) {
    if !conn.may_try() {
        (Ok(Tried::NoCompleteSingleRecord), conn)
    } else {
        match single_record(record) {
            Err(e) => (Err(e), conn),
            Ok(None) => (Ok(Tried::NoCompleteSingleRecord), conn),
            Ok(Some(message)) => match conn.core.state {
                Err(e) => (Err(e), conn),
                Ok(model) => {
                    let (r, model) = S::tried_with_next_key(model, message.payload, seq, room);
                    let after = ConnectionView {
                        core: CoreView { state: Ok(model), ..conn.core },
                        ..conn
                    };
                    match r {
                        Ok(m) => (Ok(tried_message(m)), after),
                        Err(e) => (Err(e), after),
                    }
                },
            },
        }
    }
}

/// What trying to decrypt exactly one record comes to.
#[derive(Clone, Copy, Debug, PartialEq, Eq, Structural)]
pub enum DangerousDecryptOutcome {
    /// There was not exactly one complete record to try, or none can be tried now.
    NoCompleteSingleRecord,
    /// The record authenticated, but it holds no application data.
    AuthenticatedOpaque,
    /// The record authenticated, and this many bytes of application data were written.
    AuthenticatedApplicationData(usize),
}

/// Does the result of a trial say what was to be found? Application data lies at the front of the
/// buffer.
pub open spec fn tried_as(
    r: Result<DangerousDecryptOutcome, Error>,
    expected: Result<Tried, Error>,
    out: Seq<u8>,
) -> bool {
    match (r, expected) {
        (
            Ok(DangerousDecryptOutcome::NoCompleteSingleRecord),
            Ok(Tried::NoCompleteSingleRecord),
        ) => true,
        (Ok(DangerousDecryptOutcome::AuthenticatedOpaque), Ok(Tried::AuthenticatedOpaque)) => true,
        (
            Ok(DangerousDecryptOutcome::AuthenticatedApplicationData(n)),
            Ok(Tried::AuthenticatedApplicationData(payload)),
        ) => {
            &&& n == payload.len()
            &&& n <= out.len()
            &&& out.take(n as int) == payload
        },
        (Err(e), Err(f)) => e == f,
        _ => false,
    }
}

/// Finds the one record that `record` is made of.
pub fn find_single_record<'a>(record: &'a [u8]) -> (r: Result<
    Option<InboundOpaqueMessageImmut<'a>>,
    Error,
>)
    ensures
        match (r, single_record(record@)) {
            (Ok(Some(m)), Ok(Some(v))) => m@ == v,
            (Ok(None), Ok(None)) => true,
            (Err(e), Err(f)) => e == f,
            _ => false,
        },
{
    let mut iter = DeframerIterImmut::new(record);
    match iter.next() {
        None => Ok(None),
        Some(Err(e)) => Err(e),
        Some(Ok(message)) => {
            if iter.bytes_consumed() != record.len() {
                Ok(None)
            } else {
                Ok(Some(message))
            }
        },
    }
}

/// What was opened on trial.
fn outcome_of(m: InboundPlainMessage<'_>) -> (r: DangerousDecryptOutcome)
    ensures
        match (r, tried_message(m@)) {
            (DangerousDecryptOutcome::AuthenticatedOpaque, Tried::AuthenticatedOpaque) => true,
            (
                DangerousDecryptOutcome::AuthenticatedApplicationData(n),
                Tried::AuthenticatedApplicationData(payload),
            ) => n == payload.len(),
            _ => false,
        },
{
    if m.typ != ContentType::ApplicationData {
        DangerousDecryptOutcome::AuthenticatedOpaque
    } else {
        DangerousDecryptOutcome::AuthenticatedApplicationData(m.payload.len())
    }
}

impl<Data: SideData, S: State<Data>> UnbufferedConnectionCommon<Data, S> {
    /// Tries the current incoming key on a record, as the one with sequence number `seq`. The
    /// connection does not change.
    pub(crate) fn try_decrypt_one_record_to_at(
        &mut self,
        record: &[u8],
        seq: u64,
        outgoing_tls: &mut [u8],
    ) -> (r: Result<DangerousDecryptOutcome, Error>)
        requires
            old(self).wf(),
        ensures
            final(self).wf(),
            final(self)@ == old(self)@,
            final(outgoing_tls)@.len() == old(outgoing_tls)@.len(),
            final(outgoing_tls)@ == old(self)@.left_by_trial(record@, seq, old(outgoing_tls)@),
            tried_as(
                r,
                old(self)@.tried_at(record@, seq, old(outgoing_tls)@.len()),
                final(outgoing_tls)@,
            ),
    {
        if !self.core.common_state.may_receive_application_data
            || self.hs_buffer_fast.is_active() {
            return Ok(DangerousDecryptOutcome::NoCompleteSingleRecord);
        }
        let message = match find_single_record(record) {
            Err(e) => {
                return Err(e);
            },
            Ok(None) => {
                return Ok(DangerousDecryptOutcome::NoCompleteSingleRecord);
            },
            Ok(Some(message)) => message,
        };
        match self.core.common_state.record_layer.try_decrypt_incoming_to_at(
            &message,
            seq,
            outgoing_tls,
        ) {
            Err(e) => Err(e),
            Ok(None) => Ok(DangerousDecryptOutcome::NoCompleteSingleRecord),
            Ok(Some(m)) => Ok(outcome_of(m)),
        }
    }

    /// Tries the next incoming key on a record, as the one with sequence number `seq`. Of the
    /// connection, only what the protocol state notes of the trial changes.
    pub(crate) fn try_decrypt_one_record_to_at_with_next_key(
        &mut self,
        record: &[u8],
        seq: u64,
        outgoing_tls: &mut [u8],
    ) -> (r: Result<DangerousDecryptOutcome, Error>)
        requires
            old(self).wf(),
        ensures
            final(self).wf(),
            final(outgoing_tls)@.len() == old(outgoing_tls)@.len(),
            ({
                let (expected, conn) = tried_next::<Data, S>(
                    old(self)@,
                    record@,
                    seq,
                    old(outgoing_tls)@.len(),
                );
                &&& final(self)@ == conn
                &&& tried_as(r, expected, final(outgoing_tls)@)
            }),
            final(outgoing_tls)@ == left_by_next_trial::<Data, S>(
                old(self)@,
                record@,
                seq,
                old(outgoing_tls)@,
            ),
    {
        if !self.core.common_state.may_receive_application_data
            || self.hs_buffer_fast.is_active() {
            return Ok(DangerousDecryptOutcome::NoCompleteSingleRecord);
        }
        let message = match find_single_record(record) {
            Err(e) => {
                return Err(e);
            },
            Ok(None) => {
                return Ok(DangerousDecryptOutcome::NoCompleteSingleRecord);
            },
            Ok(Some(message)) => message,
        };
        match &mut self.core.state {
            Ok(state) => match state.try_decrypt_with_next_inbound_traffic_key(
                &message,
                seq,
                outgoing_tls,
            ) {
                Err(e) => Err(e),
                Ok(m) => Ok(outcome_of(m)),
            },
            Err(e) => Err(*e),
        }
    }
}

/// What trying to decrypt a record with a range of sequence numbers comes to.
pub enum TriedRange {
    NoCompleteSingleRecord,
    NoMatch,
    AuthenticatedOpaque(u64),
    AuthenticatedApplicationData(u64, Seq<u8>),
}

/// What a trial with sequence number `seq` means for the range.
pub open spec fn matched(tried: Tried, seq: u64) -> TriedRange {
    match tried {
        Tried::NoCompleteSingleRecord => TriedRange::NoCompleteSingleRecord,
        Tried::AuthenticatedOpaque => TriedRange::AuthenticatedOpaque(seq),
        Tried::AuthenticatedApplicationData(payload) => TriedRange::AuthenticatedApplicationData(
            seq,
            payload,
        ),
    }
}

impl<M> ConnectionView<M> {
    /// What trying the current incoming key with the sequence numbers from `first` up to `end`
    /// gives: that of the first one with which the record does not fail to authenticate.
    pub open spec fn tried_range(self, record: Seq<u8>, first: u64, end: u64, room: nat) -> Result<
        TriedRange,
        Error,
    >
        decreases end - first,
    {
        if first >= end {
            Ok(TriedRange::NoMatch)
        } else {
            match self.tried_at(record, first, room) {
                Ok(tried) => Ok(matched(tried, first)),
                Err(Error::DecryptError) => self.tried_range(
                    record,
                    (first + 1) as u64,
                    end,
                    room,
                ),
                Err(e) => Err(e),
            }
        }
    }
}

/// What trying the next incoming key with the sequence numbers from `first` up to `end` gives,
/// and what becomes of the connection.
pub open spec fn tried_range_next<Data: SideData, S: State<Data>>(
    conn: ConnectionView<S::Model>,
    record: Seq<u8>,
    first: u64,
    end: u64,
    room: nat,
) -> (Result<TriedRange, Error>, ConnectionView<S::Model>)
    decreases end - first,
{
    if first >= end {
        (Ok(TriedRange::NoMatch), conn)
    } else {
        match tried_next::<Data, S>(conn, record, first, room) {
            (Ok(tried), conn) => (Ok(matched(tried, first)), conn),
            (Err(Error::DecryptError), conn) => tried_range_next::<Data, S>(
                conn,
                record,
                (first + 1) as u64,
                end,
                room,
            ),
            (Err(e), conn) => (Err(e), conn),
        }
    }
}

impl<M> ConnectionView<M> {
    /// What trying the current incoming key with the sequence numbers from `first` up to `end`
    /// leaves in the buffer `out`.
    pub open spec fn left_by_range(self, record: Seq<u8>, first: u64, end: u64, out: Seq<u8>) -> Seq<
        u8,
    >
        decreases end - first,
    {
        if first >= end {
            out
        } else {
            let left = self.left_by_trial(record, first, out);
            match self.tried_at(record, first, out.len()) {
                Err(Error::DecryptError) => self.left_by_range(
                    record,
                    (first + 1) as u64,
                    end,
                    left,
                ),
                _ => left,
            }
        }
    }
}

/// What trying the next incoming key with the sequence numbers from `first` up to `end` leaves in
/// the buffer `out`.
pub open spec fn left_by_next_range<Data: SideData, S: State<Data>>(
    conn: ConnectionView<S::Model>,
    record: Seq<u8>,
    first: u64,
    end: u64,
    out: Seq<u8>,
) -> Seq<u8>
    decreases end - first,
{
    if first >= end {
        out
    } else {
        let left = left_by_next_trial::<Data, S>(conn, record, first, out);
        match tried_next::<Data, S>(conn, record, first, out.len()) {
            (Err(Error::DecryptError), conn) => left_by_next_range::<Data, S>(
                conn,
                record,
                (first + 1) as u64,
                end,
                left,
            ),
            _ => left,
        }
    }
}

/// What trying to decrypt exactly one record with a range of sequence numbers comes to.
#[derive(Clone, Copy, Debug, PartialEq, Eq, Structural)]
pub enum DangerousBatchDecryptOutcome {
    /// There was not exactly one complete record to try, or none can be tried now.
    NoCompleteSingleRecord,
    /// The record authenticated with none of the sequence numbers.
    NoMatch,
    /// The record authenticated with `seq`, but it holds no application data.
    AuthenticatedOpaque { seq: u64 },
    /// The record authenticated with `seq`, and `plaintext_len` bytes of application data were
    /// written.
    AuthenticatedApplicationData { seq: u64, plaintext_len: usize },
}

/// Does the result of trials say what was to be found? Application data lies at the front of the
/// buffer.
pub open spec fn tried_range_as(
    r: Result<DangerousBatchDecryptOutcome, Error>,
    expected: Result<TriedRange, Error>,
    out: Seq<u8>,
) -> bool {
    match (r, expected) {
        (
            Ok(DangerousBatchDecryptOutcome::NoCompleteSingleRecord),
            Ok(TriedRange::NoCompleteSingleRecord),
        ) => true,
        (Ok(DangerousBatchDecryptOutcome::NoMatch), Ok(TriedRange::NoMatch)) => true,
        (
            Ok(DangerousBatchDecryptOutcome::AuthenticatedOpaque { seq }),
            Ok(TriedRange::AuthenticatedOpaque(expected_seq)),
        ) => seq == expected_seq,
        (
            Ok(DangerousBatchDecryptOutcome::AuthenticatedApplicationData { seq, plaintext_len }),
            Ok(TriedRange::AuthenticatedApplicationData(expected_seq, payload)),
        ) => {
            &&& seq == expected_seq
            &&& plaintext_len == payload.len()
            &&& plaintext_len <= out.len()
            &&& out.take(plaintext_len as int) == payload
        },
        (Err(e), Err(f)) => e == f,
        _ => false,
    }
}

/// What a trial with sequence number `seq` means for the range.
fn matched_outcome(outcome: DangerousDecryptOutcome, seq: u64) -> (r: DangerousBatchDecryptOutcome)
    ensures
        r == (match outcome {
            DangerousDecryptOutcome::NoCompleteSingleRecord =>
                DangerousBatchDecryptOutcome::NoCompleteSingleRecord,
            DangerousDecryptOutcome::AuthenticatedOpaque =>
                DangerousBatchDecryptOutcome::AuthenticatedOpaque { seq },
            DangerousDecryptOutcome::AuthenticatedApplicationData(plaintext_len) =>
                DangerousBatchDecryptOutcome::AuthenticatedApplicationData { seq, plaintext_len },
        }),
{
    match outcome {
        DangerousDecryptOutcome::NoCompleteSingleRecord =>
            DangerousBatchDecryptOutcome::NoCompleteSingleRecord,
        DangerousDecryptOutcome::AuthenticatedOpaque =>
            DangerousBatchDecryptOutcome::AuthenticatedOpaque { seq },
        DangerousDecryptOutcome::AuthenticatedApplicationData(plaintext_len) =>
            DangerousBatchDecryptOutcome::AuthenticatedApplicationData { seq, plaintext_len },
    }
}

impl<Data: SideData, S: State<Data>> UnbufferedConnectionCommon<Data, S> {
    /// Tries the current incoming key on a record, with the sequence numbers from `first` up to
    /// `end`. The connection does not change.
    pub(crate) fn try_decrypt_one_record_to_range(
        &mut self,
        record: &[u8],
        first: u64,
        end: u64,
        outgoing_tls: &mut [u8],
    ) -> (r: Result<DangerousBatchDecryptOutcome, Error>)
        requires
            old(self).wf(),
        ensures
            final(self).wf(),
            final(self)@ == old(self)@,
            final(outgoing_tls)@.len() == old(outgoing_tls)@.len(),
            final(outgoing_tls)@ == old(self)@.left_by_range(
                record@,
                first,
                end,
                old(outgoing_tls)@,
            ),
            tried_range_as(
                r,
                old(self)@.tried_range(record@, first, end, old(outgoing_tls)@.len()),
                final(outgoing_tls)@,
            ),
    {
        let ghost room = outgoing_tls@.len();
        let ghost left = self@.left_by_range(record@, first, end, outgoing_tls@);
        let mut seq: u64 = first;
        while seq < end
            invariant
                self.wf(),
                self@ == old(self)@,
                room == outgoing_tls@.len(),
                room == old(outgoing_tls)@.len(),
                old(self)@.tried_range(record@, first, end, room) == old(self)@.tried_range(
                    record@,
                    seq,
                    end,
                    room,
                ),
                left == old(self)@.left_by_range(record@, first, end, old(outgoing_tls)@),
                left == old(self)@.left_by_range(record@, seq, end, outgoing_tls@),
            decreases end - seq,
        {
            match self.try_decrypt_one_record_to_at(record, seq, outgoing_tls) {
                Ok(outcome) => {
                    return Ok(matched_outcome(outcome, seq));
                },
                Err(Error::DecryptError) => {},
                Err(e) => {
                    return Err(e);
                },
            }
            seq += 1;
        }
        Ok(DangerousBatchDecryptOutcome::NoMatch)
    }

    /// Tries the next incoming key on a record, with the sequence numbers from `first` up to
    /// `end`. Of the connection, only what the protocol state notes of the trials changes.
    pub(crate) fn try_decrypt_one_record_to_range_with_next_key(
        &mut self,
        record: &[u8],
        first: u64,
        end: u64,
        outgoing_tls: &mut [u8],
    ) -> (r: Result<DangerousBatchDecryptOutcome, Error>)
        requires
            old(self).wf(),
        ensures
            final(self).wf(),
            final(outgoing_tls)@.len() == old(outgoing_tls)@.len(),
            ({
                let (expected, conn) = tried_range_next::<Data, S>(
                    old(self)@,
                    record@,
                    first,
                    end,
                    old(outgoing_tls)@.len(),
                );
                &&& final(self)@ == conn
                &&& tried_range_as(r, expected, final(outgoing_tls)@)
            }),
            final(outgoing_tls)@ == left_by_next_range::<Data, S>(
                old(self)@,
                record@,
                first,
                end,
                old(outgoing_tls)@,
            ),
    {
        let ghost room = outgoing_tls@.len();
        let ghost all = tried_range_next::<Data, S>(self@, record@, first, end, room);
        let ghost left = left_by_next_range::<Data, S>(
            self@,
            record@,
            first,
            end,
            outgoing_tls@,
        );
        let mut seq: u64 = first;
        while seq < end
            invariant
                self.wf(),
                room == outgoing_tls@.len(),
                room == old(outgoing_tls)@.len(),
                all == tried_range_next::<Data, S>(old(self)@, record@, first, end, room),
                all == tried_range_next::<Data, S>(self@, record@, seq, end, room),
                left == left_by_next_range::<Data, S>(
                    old(self)@,
                    record@,
                    first,
                    end,
                    old(outgoing_tls)@,
                ),
                left == left_by_next_range::<Data, S>(self@, record@, seq, end, outgoing_tls@),
            decreases end - seq,
        {
            match self.try_decrypt_one_record_to_at_with_next_key(record, seq, outgoing_tls) {
                Ok(outcome) => {
                    return Ok(matched_outcome(outcome, seq));
                },
                Err(Error::DecryptError) => {},
                Err(e) => {
                    return Err(e);
                },
            }
            seq += 1;
        }
        Ok(DangerousBatchDecryptOutcome::NoMatch)
    }
}

} // verus!
