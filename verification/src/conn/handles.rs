//! What the caller does with a connection in each of its states.

use vstd::prelude::*;
use vstd::std_specs::convert::FromSpecImpl;

use crate::conn::common_state::{
    close_notify_message, fragment_count, record_opens, records_open, written_as, CommonView,
    EncryptError, InsufficientSizeError,
};
use crate::conn::model::{ConnectionView, CoreView};
use crate::conn::state::{ServerConnectionData, SideData, State};
use crate::conn::unbuffered::{
    AppDataRecord, ConnectionCore, ConnectionState, EncodeTlsData, ReadEarlyData, ReadTraffic,
    TransmitTlsData, WriteTraffic,
};
use crate::error::Error;
use crate::msgs::message::copy_at;

verus! {

impl<M> ConnectionView<M> {
    /// The connection with another state of what both sides share.
    pub open spec fn with_common(self, common: CommonView) -> Self {
        ConnectionView { core: CoreView { common, ..self.core }, ..self }
    }
}

impl<'c, 'i, Data: SideData, S: State<Data>> ReadTraffic<'c, 'i, Data, S> {
    /// Decrypts and returns the next available app-data record.
    pub fn next_record(&mut self) -> (r: Option<Result<AppDataRecord<'_>, Error>>)
        requires
            old(self).conn.wf(),
        ensures
            final(self).conn.wf(),
            *final(final(self).conn) == *final(old(self).conn),
            final(self).incoming_tls == old(self).incoming_tls,
            ({
                let common = old(self).conn@.core.common;
                match r {
                    Some(Ok(record)) => {
                        &&& common.received_plaintext.len() > 0
                        &&& record.discard == 0
                        &&& record.payload@ == common.received_plaintext[0]
                        &&& final(self).conn@ == old(self).conn@.with_common(
                            CommonView {
                                received_plaintext: common.received_plaintext.skip(1),
                                ..common
                            },
                        )
                    },
                    Some(Err(_)) => false,
                    None => {
                        &&& common.received_plaintext.len() == 0
                        &&& final(self).conn@ == old(self).conn@
                    },
                }
            }),
    {
        let ghost before = self.conn@;
        self.chunk = self.conn.core.common_state.received_plaintext.pop();
        assert(self.chunk is None ==> self.conn@ == before);
        match &self.chunk {
            Some(chunk) => Some(Ok(AppDataRecord { discard: 0, payload: chunk.as_slice() })),
            None => None,
        }
    }

    /// Returns the payload size of the next app-data record *without* decrypting it.
    ///
    /// Returns `None` if there are no more app-data records. A size is never zero.
    pub fn peek_len(&self) -> (r: Option<usize>)
        requires
            old(self.conn).wf(),
        ensures
            ({
                let received = old(self.conn)@.core.common.received_plaintext;
                match r {
                    Some(n) => received.len() > 0 && n == received[0].len() && n > 0,
                    None => received.len() == 0,
                }
            }),
    {
        self.conn.core.common_state.received_plaintext.peek_len()
    }
}

impl<'c, 'i, S: State<ServerConnectionData>> ReadEarlyData<'c, 'i, ServerConnectionData, S> {
    /// Decrypts and returns the next available app-data record.
    pub fn next_record(&mut self) -> (r: Option<Result<AppDataRecord<'_>, Error>>)
        requires
            old(self).conn.wf(),
        ensures
            final(self).conn.wf(),
            *final(final(self).conn) == *final(old(self).conn),
            final(self).incoming_tls == old(self).incoming_tls,
            ({
                let core = old(self).conn@.core;
                match r {
                    Some(Ok(record)) => {
                        &&& core.early_data.len() > 0
                        &&& record.discard == 0
                        &&& record.payload@ == core.early_data[0]
                        &&& final(self).conn@ == (ConnectionView {
                            core: CoreView { early_data: core.early_data.skip(1), ..core },
                            ..old(self).conn@
                        })
                    },
                    Some(Err(_)) => false,
                    None => {
                        &&& core.early_data.len() == 0
                        &&& final(self).conn@ == old(self).conn@
                    },
                }
            }),
    {
        self.chunk = self.conn.core.data.pop_early_data();
        match &self.chunk {
            Some(chunk) => Some(Ok(AppDataRecord { discard: 0, payload: chunk.as_slice() })),
            None => None,
        }
    }

    /// Returns the payload size of the next app-data record *without* decrypting it.
    ///
    /// Returns `None` if there are no more app-data records. A size is never zero.
    pub fn peek_len(&self) -> (r: Option<usize>)
        requires
            old(self.conn).wf(),
        ensures
            ({
                let received = old(self.conn)@.core.early_data;
                match r {
                    Some(n) => received.len() > 0 && n == received[0].len() && n > 0,
                    None => received.len() == 0,
                }
            }),
    {
        self.conn.core.data.peek_early_data()
    }
}

/// What asking for new traffic keys does. A connection that has ended cannot be asked.
pub open spec fn refreshed<Data: SideData, S: State<Data>>(core: CoreView<S::Model>) -> (
    Result<(), Error>,
    CoreView<S::Model>,
) {
    match core.state {
        Err(e) => (Err(e), core),
        Ok(model) => {
            let (r, model, common) = S::key_update_requested(model, core.common);
            (r, CoreView { state: Ok(model), common, ..core })
        },
    }
}

/// What is sent when new traffic keys are asked for opens at the peer, as far as the protocol state
/// says so.
pub open spec fn request_opens<Data: SideData, S: State<Data>>(core: CoreView<S::Model>) -> bool {
    core.state matches Ok(model) && S::key_update_request_opens(model, core.common)
}

/// New traffic keys are asked for, where they are due.
pub open spec fn perhaps_refreshed<Data: SideData, S: State<Data>>(
    core: CoreView<S::Model>,
) -> CoreView<S::Model> {
    if core.common.refresh_traffic_keys_pending {
        let common = CommonView { refresh_traffic_keys_pending: false, ..core.common };
        refreshed::<Data, S>(CoreView { common, ..core }).1
    } else {
        core
    }
}

impl<Data: SideData, S: State<Data>> ConnectionCore<Data, S> {
    /// Asks for new traffic keys.
    fn refresh_traffic_keys(&mut self) -> (r: Result<(), Error>)
        requires
            old(self).wf(),
        ensures
            final(self).wf(),
            final(self).hs_deframer == old(self).hs_deframer,
            old(self)@.common.record_layer.encrypter is Some
                ==> final(self)@.common.record_layer.encrypter is Some,
            (r, final(self)@) == refreshed::<Data, S>(old(self)@),
            r is Ok ==> request_opens::<Data, S>(old(self)@),
    {
        match &mut self.state {
            Ok(state) => state.send_key_update_request(&mut self.common_state),
            Err(e) => Err(*e),
        }
    }

    /// Asks for new traffic keys, where they are due.
    fn maybe_refresh_traffic_keys(&mut self)
        requires
            old(self).wf(),
        ensures
            final(self).wf(),
            final(self).hs_deframer == old(self).hs_deframer,
            old(self)@.common.record_layer.encrypter is Some
                ==> final(self)@.common.record_layer.encrypter is Some,
            final(self)@ == perhaps_refreshed::<Data, S>(old(self)@),
    {
        if self.common_state.refresh_traffic_keys_pending {
            self.common_state.refresh_traffic_keys_pending = false;
            let _ = self.refresh_traffic_keys();
        }
    }
}

impl<'c, Data: SideData, S: State<Data>> WriteTraffic<'c, Data, S> {
    /// Encrypts `application_data` into the `outgoing_tls` buffer.
    ///
    /// Returns the number of bytes that were written into `outgoing_tls`, or an error if the
    /// provided buffer is too small. In the error case, `outgoing_tls` is not modified.
    ///
    /// What is written opens to the application data again, fragment by fragment.
    pub fn encrypt(&mut self, application_data: &[u8], outgoing_tls: &mut [u8]) -> (r: Result<
        usize,
        EncryptError,
    >)
        requires
            old(self).conn.wf(),
            old(self).conn@.core.common.may_send_application_data,
        ensures
            final(self).conn.wf(),
            *final(final(self).conn) == *final(old(self).conn),
            ({
                let core = perhaps_refreshed::<Data, S>(old(self).conn@.core);
                let (common, written) = core.common.writing(
                    application_data@,
                    old(outgoing_tls)@.len(),
                );
                &&& final(self).conn@ == (ConnectionView {
                    core: CoreView { common, ..core },
                    ..old(self).conn@
                })
                &&& written_as(r, written, old(outgoing_tls)@, final(outgoing_tls)@)
                &&& r is Ok ==> records_open(
                    core.common.record_layer,
                    application_data@,
                    fragment_count(application_data@.len()),
                )
            }),
    {
        self.conn.core.maybe_refresh_traffic_keys();
        self.conn.core.common_state.write_plaintext(application_data, outgoing_tls)
    }

    /// Encrypts a close_notify warning alert in `outgoing_tls`.
    ///
    /// Returns the number of bytes that were written into `outgoing_tls`, or an error if the
    /// provided buffer is too small. In the error case, `outgoing_tls` is not modified.
    ///
    /// What is written opens to the alert again. A second call writes nothing.
    pub fn queue_close_notify(&mut self, outgoing_tls: &mut [u8]) -> (r: Result<
        usize,
        EncryptError,
    >)
        requires
            old(self).conn.wf(),
            old(self).conn@.core.common.may_send_application_data,
        ensures
            final(self).conn.wf(),
            *final(final(self).conn) == *final(old(self).conn),
            ({
                let (common, written) = old(self).conn@.core.common.closing(
                    old(outgoing_tls)@.len(),
                );
                &&& final(self).conn@ == old(self).conn@.with_common(common)
                &&& written_as(r, written, old(outgoing_tls)@, final(outgoing_tls)@)
            }),
            r is Ok && !old(self).conn@.core.common.has_sent_close_notify ==> record_opens(
                old(self).conn@.core.common.record_layer,
                close_notify_message(),
            ),
    {
        self.conn.core.common_state.eager_send_close_notify(outgoing_tls)
    }

    /// Arranges for a TLS1.3 `key_update` to be sent.
    ///
    /// This consumes the `WriteTraffic` state: to actually send the message, call
    /// [`UnbufferedConnectionCommon::process_tls_records`] again which will return a
    /// `ConnectionState::EncodeTlsData` that emits the `key_update` message.
    pub fn refresh_traffic_keys(self) -> (r: Result<(), Error>)
        requires
            old(self.conn).wf(),
        ensures
            final(self.conn).wf(),
            ({
                let (expected, core) = refreshed::<Data, S>(old(self.conn)@.core);
                &&& r == expected
                &&& final(self.conn)@ == (ConnectionView { core, ..old(self.conn)@ })
            }),
            r is Ok ==> request_opens::<Data, S>(old(self.conn)@.core),
    {
        self.conn.core.refresh_traffic_keys()
    }
}

/// Errors that may arise when encoding a handshake record.
#[derive(Clone, Copy, Debug, PartialEq, Eq, Structural)]
pub enum EncodeError {
    /// Provided buffer was too small.
    InsufficientSize(InsufficientSizeError),
    /// The handshake record has already been encoded; do not call `encode` again.
    AlreadyEncoded,
}

impl From<InsufficientSizeError> for EncodeError {
    fn from(v: InsufficientSizeError) -> (r: Self) {
        EncodeError::InsufficientSize(v)
    }
}

impl FromSpecImpl<InsufficientSizeError> for EncodeError {
    open spec fn obeys_from_spec() -> bool {
        true
    }

    open spec fn from_spec(v: InsufficientSizeError) -> Self {
        EncodeError::InsufficientSize(v)
    }
}

impl<'c, Data: SideData, S: State<Data>> EncodeTlsData<'c, Data, S> {
    /// Encodes a handshake record into the `outgoing_tls` buffer.
    ///
    /// Returns the number of bytes that were written into `outgoing_tls`, or an error if the
    /// provided buffer is too small. In the error case, `outgoing_tls` is not modified.
    ///
    /// A record is encoded once.
    pub fn encode(&mut self, outgoing_tls: &mut [u8]) -> (r: Result<usize, EncodeError>)
        requires
            old(self).conn.wf(),
        ensures
            final(self).conn.wf(),
            *final(final(self).conn) == *final(old(self).conn),
            match old(self).chunk {
                None => {
                    &&& r == Err::<usize, EncodeError>(EncodeError::AlreadyEncoded)
                    &&& final(self).chunk is None
                    &&& final(self).conn@ == old(self).conn@
                    &&& final(outgoing_tls)@ == old(outgoing_tls)@
                },
                Some(chunk) => if chunk@.len() > old(outgoing_tls)@.len() {
                    &&& r == Err::<usize, EncodeError>(
                        EncodeError::InsufficientSize(
                            InsufficientSizeError { required_size: chunk@.len() as usize },
                        ),
                    )
                    &&& final(self).chunk == old(self).chunk
                    &&& final(self).conn@ == old(self).conn@
                    &&& final(outgoing_tls)@ == old(outgoing_tls)@
                } else {
                    &&& r == Ok::<usize, EncodeError>(chunk@.len() as usize)
                    &&& final(self).chunk is None
                    &&& final(self).conn@ == (ConnectionView {
                        wants_write: true,
                        ..old(self).conn@
                    })
                    &&& final(outgoing_tls)@ == chunk@ + old(outgoing_tls)@.skip(
                        chunk@.len() as int,
                    )
                },
            },
    {
        let chunk = match self.chunk.take() {
            Some(chunk) => chunk,
            None => {
                return Err(EncodeError::AlreadyEncoded);
            },
        };
        let required_size: usize = chunk.len();
        if required_size > outgoing_tls.len() {
            self.chunk = Some(chunk);
            Err(EncodeError::from(InsufficientSizeError { required_size }))
        } else {
            let ghost before = outgoing_tls@;
            copy_at(outgoing_tls, 0, chunk.as_slice());
            assert(outgoing_tls@ =~= chunk@ + before.skip(chunk@.len() as int));
            self.conn.wants_write = true;
            Ok(required_size)
        }
    }
}

impl<'c, Data: SideData, S: State<Data>> TransmitTlsData<'c, Data, S> {
    /// Signals that the previously encoded TLS data has been transmitted.
    pub fn done(self)
        requires
            old(self.conn).wf(),
        ensures
            final(self.conn).wf(),
            final(self.conn)@ == (ConnectionView { wants_write: false, ..old(self.conn)@ }),
    {
        self.conn.wants_write = false;
    }

    /// Returns an adapter that allows encrypting application data.
    ///
    /// If allowed at this stage of the handshake process.
    pub fn may_encrypt_app_data(&mut self) -> (r: Option<WriteTraffic<'_, Data, S>>)
        requires
            old(self).conn.wf(),
        ensures
            *final(final(self).conn) == *final(old(self).conn),
            match r {
                Some(write) => {
                    &&& old(self).conn@.core.common.may_send_application_data
                    &&& *write.conn == *old(self).conn
                    &&& *final(self).conn == *final(write.conn)
                },
                None => {
                    &&& !old(self).conn@.core.common.may_send_application_data
                    &&& *final(self).conn == *old(self).conn
                },
            },
    {
        if self.conn.core.common_state.may_send_application_data {
            Some(WriteTraffic { conn: self.conn })
        } else {
            None
        }
    }
}

impl From<InsufficientSizeError> for EncryptError {
    fn from(v: InsufficientSizeError) -> (r: Self) {
        EncryptError::InsufficientSize(v)
    }
}

impl FromSpecImpl<InsufficientSizeError> for EncryptError {
    open spec fn obeys_from_spec() -> bool {
        true
    }

    open spec fn from_spec(v: InsufficientSizeError) -> Self {
        EncryptError::InsufficientSize(v)
    }
}

impl<'c, 'i, Data, S> From<ReadTraffic<'c, 'i, Data, S>> for ConnectionState<'c, 'i, Data, S> {
    fn from(v: ReadTraffic<'c, 'i, Data, S>) -> (r: Self) {
        ConnectionState::ReadTraffic(v)
    }
}

impl<'c, 'i, Data, S> FromSpecImpl<ReadTraffic<'c, 'i, Data, S>> for ConnectionState<'c, 'i, Data, S> {
    open spec fn obeys_from_spec() -> bool {
        true
    }

    open spec fn from_spec(v: ReadTraffic<'c, 'i, Data, S>) -> Self {
        ConnectionState::ReadTraffic(v)
    }
}

impl<'c, 'i, Data, S> From<ReadEarlyData<'c, 'i, Data, S>> for ConnectionState<'c, 'i, Data, S> {
    fn from(v: ReadEarlyData<'c, 'i, Data, S>) -> (r: Self) {
        ConnectionState::ReadEarlyData(v)
    }
}

impl<'c, 'i, Data, S> FromSpecImpl<ReadEarlyData<'c, 'i, Data, S>> for ConnectionState<'c, 'i, Data, S> {
    open spec fn obeys_from_spec() -> bool {
        true
    }

    open spec fn from_spec(v: ReadEarlyData<'c, 'i, Data, S>) -> Self {
        ConnectionState::ReadEarlyData(v)
    }
}

impl<'c, 'i, Data, S> From<EncodeTlsData<'c, Data, S>> for ConnectionState<'c, 'i, Data, S> {
    fn from(v: EncodeTlsData<'c, Data, S>) -> (r: Self) {
        ConnectionState::EncodeTlsData(v)
    }
}

impl<'c, 'i, Data, S> FromSpecImpl<EncodeTlsData<'c, Data, S>> for ConnectionState<'c, 'i, Data, S> {
    open spec fn obeys_from_spec() -> bool {
        true
    }

    open spec fn from_spec(v: EncodeTlsData<'c, Data, S>) -> Self {
        ConnectionState::EncodeTlsData(v)
    }
}

impl<'c, 'i, Data, S> From<TransmitTlsData<'c, Data, S>> for ConnectionState<'c, 'i, Data, S> {
    fn from(v: TransmitTlsData<'c, Data, S>) -> (r: Self) {
        ConnectionState::TransmitTlsData(v)
    }
}

impl<'c, 'i, Data, S> FromSpecImpl<TransmitTlsData<'c, Data, S>> for ConnectionState<'c, 'i, Data, S> {
    open spec fn obeys_from_spec() -> bool {
        true
    }

    open spec fn from_spec(v: TransmitTlsData<'c, Data, S>) -> Self {
        ConnectionState::TransmitTlsData(v)
    }
}

impl<'c, 'i, Data, S> ConnectionState<'c, 'i, Data, S> {
    /// The name of this state.
    pub open spec fn spec_name(&self) -> Seq<char> {
        match self {
            ConnectionState::ReadTraffic(_) => "ReadTraffic"@,
            ConnectionState::FastReadLen(_) => "FastReadLen"@,
            ConnectionState::PeerClosed => "PeerClosed"@,
            ConnectionState::Closed => "Closed"@,
            ConnectionState::ReadEarlyData(_) => "ReadEarlyData"@,
            ConnectionState::EncodeTlsData(_) => "EncodeTlsData"@,
            ConnectionState::TransmitTlsData(_) => "TransmitTlsData"@,
            ConnectionState::BlockedHandshake => "BlockedHandshake"@,
            ConnectionState::WriteTraffic(_) => "WriteTraffic"@,
        }
    }

    /// The name of this state.
    pub fn name(&self) -> (r: &'static str)
        ensures
            r@ == self.spec_name(),
    {
        match self {
            ConnectionState::ReadTraffic(..) => "ReadTraffic",
            ConnectionState::FastReadLen(..) => "FastReadLen",
            ConnectionState::PeerClosed => "PeerClosed",
            ConnectionState::Closed => "Closed",
            ConnectionState::ReadEarlyData(..) => "ReadEarlyData",
            ConnectionState::EncodeTlsData(..) => "EncodeTlsData",
            ConnectionState::TransmitTlsData(..) => "TransmitTlsData",
            ConnectionState::BlockedHandshake => "BlockedHandshake",
            ConnectionState::WriteTraffic(..) => "WriteTraffic",
        }
    }
}

/// The character of a decimal digit.
pub open spec fn digit(d: nat) -> char {
    if d == 0 {
        '0'
    } else if d == 1 {
        '1'
    } else if d == 2 {
        '2'
    } else if d == 3 {
        '3'
    } else if d == 4 {
        '4'
    } else if d == 5 {
        '5'
    } else if d == 6 {
        '6'
    } else if d == 7 {
        '7'
    } else if d == 8 {
        '8'
    } else {
        '9'
    }
}

/// A number in decimal digits.
pub open spec fn decimal(n: nat) -> Seq<char>
    decreases n,
{
    if n < 10 {
        seq![digit(n)]
    } else {
        decimal(n / 10).push(digit(n % 10))
    }
}

/// Writes a number in decimal digits behind `text`.
fn append_decimal(text: &mut String, n: usize)
    ensures
        final(text)@ == old(text)@ + decimal(n as nat),
    decreases n,
{
    if n >= 10 {
        append_decimal(text, n / 10);
    }
    let last: usize = n % 10;
    proof {
        reveal_strlit("0");
        reveal_strlit("1");
        reveal_strlit("2");
        reveal_strlit("3");
        reveal_strlit("4");
        reveal_strlit("5");
        reveal_strlit("6");
        reveal_strlit("7");
        reveal_strlit("8");
        reveal_strlit("9");
    }
    let d: &str = match last {
        0 => "0",
        1 => "1",
        2 => "2",
        3 => "3",
        4 => "4",
        5 => "5",
        6 => "6",
        7 => "7",
        8 => "8",
        _ => "9",
    };
    assert(d@ =~= seq![digit((n % 10) as nat)]);
    text.append(d);
    assert(text@ =~= old(text)@ + decimal(n as nat));
}

impl EncodeError {
    /// What this error says.
    pub open spec fn text(&self) -> Seq<char> {
        match self {
            EncodeError::InsufficientSize(e) => "cannot encode due to insufficient size, "@
                + decimal(e.required_size as nat) + " bytes are required"@,
            EncodeError::AlreadyEncoded => "cannot encode, data has already been encoded"@,
        }
    }

    /// What this error says.
    pub fn to_string(&self) -> (r: String)
        ensures
            r@ == self.text(),
    {
        match self {
            EncodeError::InsufficientSize(e) => {
                let mut text = String::from_str("cannot encode due to insufficient size, ");
                append_decimal(&mut text, e.required_size);
                text.append(" bytes are required");
                text
            },
            EncodeError::AlreadyEncoded => String::from_str(
                "cannot encode, data has already been encoded",
            ),
        }
    }
}

impl EncryptError {
    /// What this error says.
    pub open spec fn text(&self) -> Seq<char> {
        match self {
            EncryptError::InsufficientSize(e) => "cannot encrypt due to insufficient size, "@
                + decimal(e.required_size as nat) + " bytes are required"@,
            EncryptError::EncryptExhausted => "encrypter has been exhausted"@,
        }
    }

    /// What this error says.
    pub fn to_string(&self) -> (r: String)
        ensures
            r@ == self.text(),
    {
        match self {
            EncryptError::InsufficientSize(e) => {
                let mut text = String::from_str("cannot encrypt due to insufficient size, ");
                append_decimal(&mut text, e.required_size);
                text.append(" bytes are required");
                text
            },
            EncryptError::EncryptExhausted => String::from_str("encrypter has been exhausted"),
        }
    }
}

/// Numbers are written in decimal digits: ten times a number and another digit is written with that
/// digit behind it, and the digits are the characters that stand one after the other from `0` on.
pub proof fn law_numbers_are_written_in_decimal(n: nat, d: nat)
    requires
        d < 10,
    ensures
        digit(d) as u32 == '0' as u32 + d,
        decimal(d) == seq![digit(d)],
        n > 0 ==> decimal(10 * n + d) == decimal(n).push(digit(d)),
{
}

/// Replacing what both sides share replaces nothing else of a connection.
pub proof fn law_replacing_what_both_sides_share<M>(conn: ConnectionView<M>, common: CommonView)
    ensures
        ({
            let after = conn.with_common(common);
            &&& after.core.common == common
            &&& after.core.state == conn.core.state
            &&& after.core.early_data == conn.core.early_data
            &&& after.hs == conn.hs
            &&& after.outer_discard == conn.outer_discard
            &&& after.hs_fast == conn.hs_fast
            &&& after.wants_write == conn.wants_write
            &&& after.emitted_peer_closed_state == conn.emitted_peer_closed_state
        }),
{
}

} // verus!
