//! What only clients offer: the fast path under its own name, and opening records on trial.

use vstd::prelude::*;

use crate::conn::common_state::CommonView;
use crate::conn::model::{left_by_fast, run_fast, ConnectionView, CoreView};
use crate::conn::record_layer::RecordLayerView;
use crate::conn::state::{ClientConnectionData, State};
use crate::conn::trial::{
    left_by_next_range, left_by_next_trial, tried_as, tried_next, tried_range_as,
    tried_range_next, DangerousBatchDecryptOutcome, DangerousDecryptOutcome,
};
use crate::conn::unbuffered::{
    tells, ConnectionState, UnbufferedConnectionCommon, UnbufferedStatus,
};
use crate::error::Error;

verus! {

/// What committing the next incoming key does to a connection.
pub open spec fn committed_next<S: State<ClientConnectionData>>(
    conn: ConnectionView<S::Model>,
    matched_seq: u64,
) -> (Result<(), Error>, ConnectionView<S::Model>) {
    match conn.core.state {
        Err(e) => (Err(e), conn),
        Ok(model) => {
            let (r, model, common) = S::next_key_committed(model, conn.core.common, matched_seq);
            (
                r,
                ConnectionView {
                    core: CoreView { state: Ok(model), common, ..conn.core },
                    ..conn
                },
            )
        },
    }
}

impl<S: State<ClientConnectionData>> UnbufferedConnectionCommon<ClientConnectionData, S> {
    /// Decrypts TLS records from `incoming_tls` into `outcoming_tls`.
    ///
    /// This API allows decrypting from one buffer to another ("read A, write B"), enabling
    /// zero-copy patterns where multiple TLS records can be decrypted sequentially into the same
    /// destination buffer. It does what [`Self::process_tls_records_fast`] does.
    pub fn decrypt_to<'c>(
        &'c mut self,
        incoming_tls: &[u8],
        outcoming_tls: &mut [u8],
    ) -> (r: UnbufferedStatus<'c, 'c, ClientConnectionData, S>)
        requires
            old(self).wf(),
        ensures
            final(outcoming_tls)@.len() == old(outcoming_tls)@.len(),
            final(outcoming_tls)@ == left_by_fast::<ClientConnectionData, S>(
                old(self)@,
                incoming_tls@,
                old(outcoming_tls)@,
            ),
            ({
                let run = run_fast::<ClientConnectionData, S>(
                    old(self)@,
                    incoming_tls@,
                    old(outcoming_tls)@.len(),
                    0,
                );
                &&& tells(r, run, final(outcoming_tls)@, incoming_tls@)
                &&& match r.state {
                    Ok(ConnectionState::EncodeTlsData(h)) => *final(self) == *final(h.conn),
                    Ok(ConnectionState::TransmitTlsData(h)) => *final(self) == *final(h.conn),
                    Ok(ConnectionState::WriteTraffic(h)) => *final(self) == *final(h.conn),
                    Ok(ConnectionState::ReadTraffic(_)) => false,
                    Ok(ConnectionState::ReadEarlyData(_)) => false,
                    _ => final(self).wf() && final(self)@ == run.conn,
                }
            }),
    {
        self.process_tls_records_fast(incoming_tls, outcoming_tls)
    }

    /// Return the current inbound TLS record sequence number.
    ///
    /// This is intentionally exposed for kernel/DPDK-style external record scheduling. Callers
    /// that decrypt records out of order must only commit a sequence after the candidate record
    /// authenticates and the application data has been accepted.
    pub fn dangerous_read_seq(&self) -> (r: u64)
        ensures
            r == self@.core.common.record_layer.read_seq,
    {
        self.core.common_state.record_layer.read_seq()
    }

    /// Try decrypting exactly one complete TLS record with an explicit inbound record sequence
    /// number, without mutating the connection sequence state.
    ///
    /// `record` must include the 5-byte TLS record header. `outgoing_tls` receives plaintext on
    /// success. The outcome gives the plaintext payload length after TLS 1.3 inner-content
    /// unpadding.
    pub fn dangerous_try_decrypt_record_to_at(
        &mut self,
        record: &[u8],
        seq: u64,
        outgoing_tls: &mut [u8],
    ) -> (r: Result<DangerousDecryptOutcome, Error>)
        requires
            old(self).wf(),
        ensures
            final(self).wf(),
            final(self)@ == old(self)@,
            final(outgoing_tls)@.len() == old(outgoing_tls)@.len(),
            final(outgoing_tls)@ == old(self)@.left_by_trial(record@, seq, old(outgoing_tls)@),
            tried_as(
                r,
                old(self)@.tried_at(record@, seq, old(outgoing_tls)@.len()),
                final(outgoing_tls)@,
            ),
    {
        self.try_decrypt_one_record_to_at(record, seq, outgoing_tls)
    }

    /// Try decrypting exactly one complete TLS 1.3 record with the speculative next inbound
    /// traffic key and an explicit record sequence number.
    ///
    /// This does not switch traffic-key epochs or change the record-layer read sequence.
    /// [`Error::DecryptError`] specifically means AEAD authentication failed; framing,
    /// connection-state, and output-buffer errors remain distinguishable through their existing
    /// error variants. After this authenticates a record, the caller may explicitly commit that
    /// key and sequence with [`Self::dangerous_commit_next_inbound_key`].
    pub fn dangerous_try_decrypt_record_to_at_with_next_key(
        &mut self,
        record: &[u8],
        seq: u64,
        outgoing_tls: &mut [u8],
    ) -> (r: Result<DangerousDecryptOutcome, Error>)
        requires
            old(self).wf(),
        ensures
            final(self).wf(),
            final(outgoing_tls)@.len() == old(outgoing_tls)@.len(),
            final(self)@.core.common == old(self)@.core.common,
            ({
                let (expected, conn) = tried_next::<ClientConnectionData, S>(
                    old(self)@,
                    record@,
                    seq,
                    old(outgoing_tls)@.len(),
                );
                &&& final(self)@ == conn
                &&& tried_as(r, expected, final(outgoing_tls)@)
            }),
            final(outgoing_tls)@ == left_by_next_trial::<ClientConnectionData, S>(
                old(self)@,
                record@,
                seq,
                old(outgoing_tls)@,
            ),
    {
        self.try_decrypt_one_record_to_at_with_next_key(record, seq, outgoing_tls)
    }

    /// Try decrypting exactly one complete TLS record with each sequence number from `first` up
    /// to `end`, which is not tried itself, and stop at the first that authenticates it.
    ///
    /// The connection does not change.
    pub fn dangerous_try_decrypt_record_to_sequence_range(
        &mut self,
        record: &[u8],
        first: u64,
        end: u64,
        outgoing_tls: &mut [u8],
    ) -> (r: Result<DangerousBatchDecryptOutcome, Error>)
        requires
            old(self).wf(),
        ensures
            final(self).wf(),
            final(self)@ == old(self)@,
            final(outgoing_tls)@.len() == old(outgoing_tls)@.len(),
            final(outgoing_tls)@ == old(self)@.left_by_range(
                record@,
                first,
                end,
                old(outgoing_tls)@,
            ),
            tried_range_as(
                r,
                old(self)@.tried_range(record@, first, end, old(outgoing_tls)@.len()),
                final(outgoing_tls)@,
            ),
    {
        self.try_decrypt_one_record_to_range(record, first, end, outgoing_tls)
    }

    /// Try decrypting exactly one complete TLS 1.3 record with the speculative next inbound
    /// traffic key and each sequence number from `first` up to `end`, which is not tried itself,
    /// and stop at the first that authenticates it.
    ///
    /// This does not switch traffic-key epochs or change the record-layer read sequence.
    pub fn dangerous_try_decrypt_record_to_sequence_range_with_next_key(
        &mut self,
        record: &[u8],
        first: u64,
        end: u64,
        outgoing_tls: &mut [u8],
    ) -> (r: Result<DangerousBatchDecryptOutcome, Error>)
        requires
            old(self).wf(),
        ensures
            final(self).wf(),
            final(outgoing_tls)@.len() == old(outgoing_tls)@.len(),
            ({
                let (expected, conn) = tried_range_next::<ClientConnectionData, S>(
                    old(self)@,
                    record@,
                    first,
                    end,
                    old(outgoing_tls)@.len(),
                );
                &&& final(self)@ == conn
                &&& tried_range_as(r, expected, final(outgoing_tls)@)
            }),
            final(outgoing_tls)@ == left_by_next_range::<ClientConnectionData, S>(
                old(self)@,
                record@,
                first,
                end,
                old(outgoing_tls)@,
            ),
    {
        self.try_decrypt_one_record_to_range_with_next_key(record, first, end, outgoing_tls)
    }

    /// Commit the inbound TLS record sequence after an externally scheduled decrypt succeeds.
    pub fn dangerous_commit_read_seq(&mut self, next_seq: u64)
        requires
            old(self).wf(),
        ensures
            final(self).wf(),
            final(self)@ == (ConnectionView {
                core: CoreView {
                    common: CommonView {
                        record_layer: RecordLayerView {
                            read_seq: next_seq,
                            ..old(self)@.core.common.record_layer
                        },
                        ..old(self)@.core.common
                    },
                    ..old(self)@.core
                },
                ..old(self)@
            }),
    {
        self.core.common_state.record_layer.commit_read_seq_after_decrypt(next_seq);
    }

    /// Commit a successfully authenticated speculative next inbound traffic key, then set the
    /// read sequence to `matched_seq + 1`.
    ///
    /// The commit fails without changing the key epoch or sequence unless the same speculative
    /// key previously authenticated `matched_seq`. A successful commit also prepares the
    /// following inbound traffic key while keeping all traffic secrets internal.
    pub fn dangerous_commit_next_inbound_key(&mut self, matched_seq: u64) -> (r: Result<(), Error>)
        requires
            old(self).wf(),
        ensures
            final(self).wf(),
            (r, final(self)@) == committed_next::<S>(old(self)@, matched_seq),
    {
        match &mut self.core.state {
            Ok(state) => state.commit_next_inbound_traffic_key(
                &mut self.core.common_state,
                matched_seq,
            ),
            Err(error) => Err(*error),
        }
    }
}

} // verus!
