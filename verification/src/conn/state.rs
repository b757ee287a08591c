//! Messages as a protocol state sees them, and what a protocol state is.

use vstd::prelude::*;

use crate::conn::common_state::{CommonState, CommonView};
use crate::enums::{AlertDescription, AlertLevel, ContentType};
use crate::error::{Error, InvalidMessage};
use crate::msgs::buffers::ChunkVecBuffer;
use crate::msgs::handshake_buffer::{u24, HANDSHAKE_HEADER_LEN};
use crate::msgs::message::{InboundOpaqueMessageImmut, InboundPlainMessage, PlainMessageView};

verus! {

/// What a message says, once its payload was parsed.
#[verifier::ext_equal]
pub enum MessageView {
    Alert { level: AlertLevel, description: AlertDescription },
    Handshake { typ: u8, body: Seq<u8> },
    ChangeCipherSpec,
    ApplicationData(Seq<u8>),
}

/// A message whose payload was parsed.
#[derive(Clone, Copy, Debug)]
pub enum Message<'a> {
    Alert { level: AlertLevel, description: AlertDescription },
    Handshake { typ: u8, body: &'a [u8] },
    ChangeCipherSpec,
    ApplicationData(&'a [u8]),
}

impl<'a> View for Message<'a> {
    type V = MessageView;

    open spec fn view(&self) -> MessageView {
        match *self {
            Message::Alert { level, description } => MessageView::Alert { level, description },
            Message::Handshake { typ, body } => MessageView::Handshake { typ, body: body@ },
            Message::ChangeCipherSpec => MessageView::ChangeCipherSpec,
            Message::ApplicationData(payload) => MessageView::ApplicationData(payload@),
        }
    }
}

/// What a plain message says: an alert has two bytes, a handshake message a header and as many
/// bytes as the header says, and a change cipher spec message a single byte, which is one.
pub open spec fn parsed(m: PlainMessageView) -> Result<MessageView, InvalidMessage> {
    match m.typ {
        ContentType::Alert => if m.payload.len() < 2 {
            Err(InvalidMessage::MissingData)
        } else if m.payload.len() > 2 {
            Err(InvalidMessage::TrailingData)
        } else {
            Ok(
                MessageView::Alert {
                    level: AlertLevel::of(m.payload[0]),
                    description: AlertDescription::of(m.payload[1]),
                },
            )
        },
        ContentType::Handshake => if m.payload.len() < HANDSHAKE_HEADER_LEN {
            Err(InvalidMessage::MissingData)
        } else {
            let len = HANDSHAKE_HEADER_LEN + u24(m.payload[1], m.payload[2], m.payload[3]);
            if m.payload.len() < len {
                Err(InvalidMessage::MissingData)
            } else if m.payload.len() > len {
                Err(InvalidMessage::TrailingData)
            } else {
                Ok(
                    MessageView::Handshake {
                        typ: m.payload[0],
                        body: m.payload.skip(HANDSHAKE_HEADER_LEN as int),
                    },
                )
            }
        },
        ContentType::ChangeCipherSpec => if m.payload == seq![1u8] {
            Ok(MessageView::ChangeCipherSpec)
        } else {
            Err(InvalidMessage::InvalidCcs)
        },
        ContentType::ApplicationData => Ok(MessageView::ApplicationData(m.payload)),
        _ => Err(InvalidMessage::InvalidContentType),
    }
}

/// Is this the payload of a change cipher spec message?
pub fn is_valid_ccs(payload: &[u8]) -> (r: bool)
    ensures
        r == (payload@ == seq![1u8]),
{
    let r: bool = payload.len() == 1 && payload[0] == 1;
    assert(r ==> payload@ =~= seq![1u8]);
    r
}

/// Parses the payload of a plain message.
pub fn parse<'a>(m: &InboundPlainMessage<'a>) -> (r: Result<Message<'a>, InvalidMessage>)
    ensures
        match (r, parsed(m@)) {
            (Ok(msg), Ok(v)) => msg@ == v,
            (Err(e), Err(f)) => e == f,
            _ => false,
        },
{
    let payload = m.payload;
    match m.typ {
        ContentType::Alert => {
            if payload.len() < 2 {
                return Err(InvalidMessage::MissingData);
            }
            if payload.len() > 2 {
                return Err(InvalidMessage::TrailingData);
            }
            Ok(
                Message::Alert {
                    level: AlertLevel::from_byte(payload[0]),
                    description: AlertDescription::from_byte(payload[1]),
                },
            )
        },
        ContentType::Handshake => {
            if payload.len() < HANDSHAKE_HEADER_LEN {
                return Err(InvalidMessage::MissingData);
            }
            let body_len: usize = (payload[1] as usize) * 65536 + (payload[2] as usize) * 256 + (
            payload[3] as usize);
            let len: usize = HANDSHAKE_HEADER_LEN + body_len;
            if payload.len() < len {
                return Err(InvalidMessage::MissingData);
            }
            if payload.len() > len {
                return Err(InvalidMessage::TrailingData);
            }
            let body = vstd::slice::slice_subrange(payload, HANDSHAKE_HEADER_LEN, payload.len());
            assert(body@ =~= m@.payload.skip(HANDSHAKE_HEADER_LEN as int));
            Ok(Message::Handshake { typ: payload[0], body })
        },
        ContentType::ChangeCipherSpec => {
            if is_valid_ccs(payload) {
                Ok(Message::ChangeCipherSpec)
            } else {
                Err(InvalidMessage::InvalidCcs)
            }
        },
        ContentType::ApplicationData => Ok(Message::ApplicationData(payload)),
        _ => Err(InvalidMessage::InvalidContentType),
    }
}

/// What only one side of a connection has: here, the early data that it received.
pub trait SideData: Sized {
    /// The chunks of early data that the caller has not taken yet.
    spec fn early_data(&self) -> Seq<Seq<u8>>;

    /// No chunk of early data is empty.
    spec fn wf(&self) -> bool;

    /// Is there early data to be taken?
    fn early_data_available(&self) -> (r: bool)
        requires
            self.wf(),
        ensures
            r == (self.early_data().len() > 0),
    ;
}

/// The data of a client: it receives no early data.
pub struct ClientConnectionData;

impl SideData for ClientConnectionData {
    open spec fn early_data(&self) -> Seq<Seq<u8>> {
        Seq::empty()
    }

    open spec fn wf(&self) -> bool {
        true
    }

    fn early_data_available(&self) -> (r: bool) {
        false
    }
}

/// What became of a client's early data.
pub enum EarlyDataState {
    New,
    Accepted { received: ChunkVecBuffer },
    Rejected,
}

/// The data of a server.
pub struct ServerConnectionData {
    pub early_data: EarlyDataState,
}

impl SideData for ServerConnectionData {
    open spec fn early_data(&self) -> Seq<Seq<u8>> {
        match self.early_data {
            EarlyDataState::Accepted { received } => received@,
            _ => Seq::empty(),
        }
    }

    open spec fn wf(&self) -> bool {
        self.early_data matches EarlyDataState::Accepted { received } ==> received.wf()
    }

    fn early_data_available(&self) -> (r: bool) {
        match self.peek_early_data() {
            Some(_) => true,
            None => false,
        }
    }
}

impl ServerConnectionData {
    /// Length of the next chunk of early data.
    pub fn peek_early_data(&self) -> (r: Option<usize>)
        requires
            self.wf(),
        ensures
            match r {
                Some(n) => {
                    &&& self.early_data().len() > 0
                    &&& n == self.early_data()[0].len()
                    &&& n > 0
                },
                None => self.early_data().len() == 0,
            },
    {
        match &self.early_data {
            EarlyDataState::Accepted { received } => received.peek_len(),
            _ => None,
        }
    }

    /// Takes the next chunk of early data.
    pub fn pop_early_data(&mut self) -> (r: Option<Vec<u8>>)
        requires
            old(self).wf(),
        ensures
            final(self).wf(),
            match r {
                Some(chunk) => {
                    &&& old(self).early_data().len() > 0
                    &&& chunk@ == old(self).early_data()[0]
                    &&& final(self).early_data() == old(self).early_data().skip(1)
                },
                None => {
                    &&& old(self).early_data().len() == 0
                    &&& final(self).early_data() == old(self).early_data()
                },
            },
    {
        match &mut self.early_data {
            EarlyDataState::Accepted { received } => received.pop(),
            _ => None,
        }
    }
}

/// A protocol state: what the connection is waiting for, and what it does with the next message.
///
/// A state is a function of what it holds: what it makes of a message depends on nothing else.
pub trait State<Data: SideData>: Sized {
    /// What a state holds.
    type Model;

    /// What this state holds.
    spec fn model(&self) -> Self::Model;

    /// Is this state well formed?
    spec fn wf(&self) -> bool;

    /// What a state makes of a message: the next state, or the error with which the connection
    /// ends; and what becomes of what both sides share and of the early data.
    spec fn handled(
        model: Self::Model,
        common: CommonView,
        early_data: Seq<Seq<u8>>,
        msg: MessageView,
    ) -> (Result<Self::Model, Error>, CommonView, Seq<Seq<u8>>);

    /// Takes a message.
    fn handle(self, common: &mut CommonState, data: &mut Data, msg: Message<'_>) -> (r: Result<
        Self,
        Error,
    >)
        requires
            self.wf(),
            old(common).wf(),
            old(data).wf(),
        ensures
            final(common).wf(),
            final(data).wf(),
            ({
                let expected = Self::handled(
                    self.model(),
                    old(common)@,
                    old(data).early_data(),
                    msg@,
                );
                &&& final(common)@ == expected.1
                &&& final(data).early_data() == expected.2
                &&& match (r, expected.0) {
                    (Ok(next), Ok(model)) => next.wf() && next.model() == model,
                    (Err(e), Err(f)) => e == f,
                    _ => false,
                }
            }),
    ;

    /// What a request for new traffic keys does.
    spec fn key_update_requested(model: Self::Model, common: CommonView) -> (
        Result<(), Error>,
        Self::Model,
        CommonView,
    );

    /// Does what a request for new traffic keys sends open at the peer again?
    spec fn key_update_request_opens(model: Self::Model, common: CommonView) -> bool;

    /// Asks for new traffic keys. A connection that encrypts goes on encrypting.
    fn send_key_update_request(&mut self, common: &mut CommonState) -> (r: Result<(), Error>)
        requires
            old(self).wf(),
            old(common).wf(),
        ensures
            final(self).wf(),
            final(common).wf(),
            (r, final(self).model(), final(common)@) == Self::key_update_requested(
                old(self).model(),
                old(common)@,
            ),
            old(common)@.record_layer.encrypter is Some
                ==> final(common)@.record_layer.encrypter is Some,
            r is Ok ==> Self::key_update_request_opens(old(self).model(), old(common)@),
    ;

    /// What trying the next incoming key on a record gives, with `room` bytes for the plaintext.
    spec fn tried_with_next_key(
        model: Self::Model,
        payload: Seq<u8>,
        seq: u64,
        room: nat,
    ) -> (Result<PlainMessageView, Error>, Self::Model);

    /// What trying the next incoming key on a record leaves in the buffer `out`.
    spec fn left_by_next_key(
        model: Self::Model,
        payload: Seq<u8>,
        seq: u64,
        out: Seq<u8>,
    ) -> Seq<u8>;

    /// Tries the next incoming key on a record, as the one with sequence number `seq`.
    fn try_decrypt_with_next_inbound_traffic_key<'a>(
        &mut self,
        msg: &InboundOpaqueMessageImmut<'_>,
        seq: u64,
        out: &'a mut [u8],
    ) -> (r: Result<InboundPlainMessage<'a>, Error>)
        requires
            old(self).wf(),
        ensures
            final(self).wf(),
            final(out)@.len() == old(out)@.len(),
            final(out)@ == Self::left_by_next_key(
                old(self).model(),
                msg.payload@,
                seq,
                old(out)@,
            ),
            ({
                let expected = Self::tried_with_next_key(
                    old(self).model(),
                    msg.payload@,
                    seq,
                    old(out)@.len(),
                );
                &&& final(self).model() == expected.1
                &&& match (r, expected.0) {
                    (Ok(m), Ok(v)) => m@ == v && v.payload.len() <= old(out)@.len() && final(
                        out)@.take(v.payload.len() as int) == v.payload,
                    (Err(e), Err(f)) => e == f,
                    _ => false,
                }
            }),
    ;

    /// What making the next incoming key the current one does.
    spec fn next_key_committed(model: Self::Model, common: CommonView, matched_seq: u64) -> (
        Result<(), Error>,
        Self::Model,
        CommonView,
    );

    /// Makes the next incoming key the current one, after it has opened the record with sequence
    /// number `matched_seq`.
    fn commit_next_inbound_traffic_key(&mut self, common: &mut CommonState, matched_seq: u64) -> (r:
        Result<(), Error>)
        requires
            old(self).wf(),
            old(common).wf(),
        ensures
            final(self).wf(),
            final(common).wf(),
            (r, final(self).model(), final(common)@) == Self::next_key_committed(
                old(self).model(),
                old(common)@,
                matched_seq,
            ),
    ;
}

/// A server has the early data that it has accepted and not handed out yet, and none where it has
/// accepted none. A client never has any.
pub proof fn law_early_data_is_what_was_accepted(
    client: ClientConnectionData,
    server: ServerConnectionData,
)
    ensures
        client.early_data().len() == 0,
        server.early_data matches EarlyDataState::Accepted { received } ==> server.early_data()
            == received@,
        !(server.early_data is Accepted) ==> server.early_data().len() == 0,
{
}

} // verus!
