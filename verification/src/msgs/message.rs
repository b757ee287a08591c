//! Plain messages: what a record holds before protection and after it was removed.

use vstd::prelude::*;

use crate::enums::{ContentType, ProtocolVersion};

verus! {

/// What a plain message says.
#[verifier::ext_equal]
pub struct PlainMessageView {
    pub typ: ContentType,
    pub version: ProtocolVersion,
    pub payload: Seq<u8>,
}

/// A plain message from the peer; its payload is borrowed from the buffer it lies in.
#[derive(Clone, Copy, Debug)]
pub struct InboundPlainMessage<'a> {
    pub typ: ContentType,
    pub version: ProtocolVersion,
    pub payload: &'a [u8],
}

impl<'a> View for InboundPlainMessage<'a> {
    type V = PlainMessageView;

    open spec fn view(&self) -> PlainMessageView {
        PlainMessageView { typ: self.typ, version: self.version, payload: self.payload@ }
    }
}

/// Length of a record's header.
pub const HEADER_LEN: usize = 5;

/// The largest plaintext that one record holds.
pub const MAX_FRAGMENT_LEN: usize = 16384;

/// Writes `data` into `out`, from `pos` on.
pub fn copy_at(out: &mut [u8], pos: usize, data: &[u8])
    requires
        pos + data@.len() <= old(out)@.len(),
    ensures
        final(out)@ == old(out)@.take(pos as int) + data@ + old(out)@.skip(pos + data@.len()),
{
    let size: usize = out.len();
    let ghost before = out@;
    let mut i: usize = 0;
    while i < data.len()
        invariant
            i <= data@.len(),
            size == before.len(),
            out@.len() == before.len(),
            pos + data@.len() <= before.len(),
            forall|j: int| 0 <= j < pos ==> out@[j] == before[j],
            forall|j: int| pos <= j < pos + i ==> out@[j] == data@[j - pos],
            forall|j: int| pos + i <= j < before.len() ==> out@[j] == before[j],
        decreases data@.len() - i,
    {
        out[pos + i] = data[i];
        i += 1;
    }
    assert(out@ =~= before.take(pos as int) + data@ + before.skip(pos + data@.len()));
}

/// The chunks one behind the other.
pub open spec fn joined(chunks: Seq<&[u8]>) -> Seq<u8>
    decreases chunks.len(),
{
    if chunks.len() == 0 {
        Seq::empty()
    } else {
        joined(chunks.drop_last()) + chunks.last()@
    }
}

/// A payload to be sent, in one piece or in several.
#[derive(Clone, Copy, Debug)]
pub enum OutboundChunks<'a> {
    /// All of it in one piece.
    Single(&'a [u8]),
    /// The pieces in their order.
    Multiple(&'a [&'a [u8]]),
}

impl<'a> View for OutboundChunks<'a> {
    type V = Seq<u8>;

    open spec fn view(&self) -> Seq<u8> {
        match self {
            OutboundChunks::Single(chunk) => chunk@,
            OutboundChunks::Multiple(chunks) => joined(chunks@),
        }
    }
}

impl<'a> OutboundChunks<'a> {
    /// Length of the payload.
    pub fn len(&self) -> (r: usize)
        requires
            self@.len() <= usize::MAX,
        ensures
            r == self@.len(),
    {
        match self {
            OutboundChunks::Single(chunk) => chunk.len(),
            OutboundChunks::Multiple(chunks) => {
                let mut total: usize = 0;
                let mut i: usize = 0;
                while i < chunks.len()
                    invariant
                        i <= chunks@.len(),
                        joined(chunks@).len() <= usize::MAX,
                        total == joined(chunks@.take(i as int)).len(),
                    decreases chunks@.len() - i,
                {
                    proof {
                        lemma_joined_take(chunks@, i as int);
                    }
                    total += chunks[i].len();
                    i += 1;
                }
                assert(chunks@.take(i as int) =~= chunks@);
                total
            },
        }
    }

    /// Writes the payload behind what `vec` holds.
    pub fn copy_to_vec(&self, vec: &mut Vec<u8>)
        ensures
            final(vec)@ == old(vec)@ + self@,
    {
        match self {
            OutboundChunks::Single(chunk) => {
                vec.extend_from_slice(chunk);
                assert(vec@ =~= old(vec)@ + self@);
            },
            OutboundChunks::Multiple(chunks) => {
                let mut i: usize = 0;
                assert(vec@ =~= old(vec)@ + joined(chunks@.take(0)));
                while i < chunks.len()
                    invariant
                        i <= chunks@.len(),
                        vec@ == old(vec)@ + joined(chunks@.take(i as int)),
                    decreases chunks@.len() - i,
                {
                    proof {
                        lemma_joined_take(chunks@, i as int);
                    }
                    vec.extend_from_slice(chunks[i]);
                    i += 1;
                    assert(vec@ =~= old(vec)@ + joined(chunks@.take(i as int)));
                }
                assert(chunks@.take(i as int) =~= chunks@);
            },
        }
    }
}

proof fn lemma_joined_take(chunks: Seq<&[u8]>, i: int)
    requires
        0 <= i < chunks.len(),
    ensures
        joined(chunks.take(i + 1)) == joined(chunks.take(i)) + chunks[i]@,
        joined(chunks.take(i + 1)).len() <= joined(chunks).len(),
    decreases chunks.len(),
{
    assert(chunks.take(i + 1).drop_last() =~= chunks.take(i));
    if i + 1 < chunks.len() {
        lemma_joined_take(chunks.drop_last(), i);
        assert(chunks.drop_last().take(i + 1) =~= chunks.take(i + 1));
    } else {
        assert(chunks.take(i + 1) =~= chunks);
    }
}

/// A plain message to be sent.
#[derive(Clone, Copy, Debug)]
pub struct OutboundPlainMessage<'a> {
    pub typ: ContentType,
    pub version: ProtocolVersion,
    pub payload: OutboundChunks<'a>,
}

impl<'a> View for OutboundPlainMessage<'a> {
    type V = PlainMessageView;

    open spec fn view(&self) -> PlainMessageView {
        PlainMessageView { typ: self.typ, version: self.version, payload: self.payload@ }
    }
}

/// The bytes of a record: its header and its payload.
pub open spec fn record(typ: ContentType, version: ProtocolVersion, payload: Seq<u8>) -> Seq<u8> {
    seq![
        typ.byte(),
        (version.code() / 256) as u8,
        (version.code() % 256) as u8,
        ((payload.len() / 256) % 256) as u8,
        (payload.len() % 256) as u8,
    ] + payload
}

/// A record to be sent.
#[derive(Debug)]
pub struct OutboundOpaqueMessage {
    pub typ: ContentType,
    pub version: ProtocolVersion,
    pub payload: Vec<u8>,
}

impl View for OutboundOpaqueMessage {
    type V = PlainMessageView;

    open spec fn view(&self) -> PlainMessageView {
        PlainMessageView { typ: self.typ, version: self.version, payload: self.payload@ }
    }
}

impl OutboundOpaqueMessage {
    /// A record that is sent as it is.
    pub fn new(typ: ContentType, version: ProtocolVersion, payload: Vec<u8>) -> (r: Self)
        ensures
            r@ == (PlainMessageView { typ, version, payload: payload@ }),
    {
        Self { typ, version, payload }
    }

    /// The bytes of the record.
    pub fn encode(self) -> (r: Vec<u8>)
        ensures
            r@ == record(self.typ, self.version, self.payload@),
    {
        let len: usize = self.payload.len();
        let code: u16 = self.version.to_code();
        let mut bytes: Vec<u8> = Vec::new();
        bytes.push(self.typ.to_byte());
        bytes.push((code / 256) as u8);
        bytes.push((code % 256) as u8);
        bytes.push(((len / 256) % 256) as u8);
        bytes.push((len % 256) as u8);
        let mut payload = self.payload;
        bytes.append(&mut payload);
        assert(bytes@ =~= record(self.typ, self.version, self.payload@));
        bytes
    }
}

/// A record from the peer that is opened where it lies.
pub struct InboundOpaqueMessage<'a> {
    pub typ: ContentType,
    pub version: ProtocolVersion,
    pub payload: &'a mut [u8],
}

impl<'a> InboundOpaqueMessage<'a> {
    /// A record with the given payload.
    pub fn new(typ: ContentType, version: ProtocolVersion, payload: &'a mut [u8]) -> (r: Self)
        ensures
            r.typ == typ,
            r.version == version,
            r.payload@ == old(payload)@,
            final(r.payload)@ == final(payload)@,
    {
        Self { typ, version, payload }
    }
}

/// A record from the peer that is opened into another buffer.
#[derive(Clone, Copy, Debug)]
pub struct InboundOpaqueMessageImmut<'a> {
    pub typ: ContentType,
    pub version: ProtocolVersion,
    pub payload: &'a [u8],
}

impl<'a> View for InboundOpaqueMessageImmut<'a> {
    type V = PlainMessageView;

    open spec fn view(&self) -> PlainMessageView {
        PlainMessageView { typ: self.typ, version: self.version, payload: self.payload@ }
    }
}

impl<'a> InboundOpaqueMessageImmut<'a> {
    /// A record with the given payload.
    pub fn new(typ: ContentType, version: ProtocolVersion, payload: &'a [u8]) -> (r: Self)
        ensures
            r@ == (PlainMessageView { typ, version, payload: payload@ }),
    {
        Self { typ, version, payload }
    }
}

/// A record is its header and its payload: the header gives the content type, the version and the
/// length of the payload, in one, two and two bytes, the more significant byte first.
pub proof fn law_record_is_header_and_payload(
    typ: ContentType,
    version: ProtocolVersion,
    payload: Seq<u8>,
)
    ensures
        ({
            let bytes = record(typ, version, payload);
            &&& bytes.len() == 5 + payload.len()
            &&& bytes.skip(5) == payload
            &&& bytes[0] == typ.byte()
            &&& 256 * bytes[1] + bytes[2] == version.code()
            &&& payload.len() < 65536 ==> 256 * bytes[3] + bytes[4] == payload.len()
        }),
{
    assert(record(typ, version, payload).skip(5) =~= payload);
}

/// Pieces of a payload are taken one behind the other: another piece comes behind all that were
/// there, and no pieces are an empty payload.
pub proof fn law_pieces_come_one_behind_the_other(chunks: Seq<&[u8]>, last: &[u8])
    ensures
        joined(Seq::empty()) == Seq::<u8>::empty(),
        joined(chunks.push(last)) == joined(chunks) + last@,
{
    assert(chunks.push(last).drop_last() =~= chunks);
}

/// A payload in one piece is that piece; one in several pieces is the pieces in their order.
pub proof fn law_payload_is_its_pieces(piece: &[u8], pieces: &[&[u8]])
    ensures
        OutboundChunks::Single(piece)@ == piece@,
        OutboundChunks::Multiple(pieces)@ == joined(pieces@),
{
}

} // verus!
