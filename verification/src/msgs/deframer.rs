//! Finding records in a byte stream.

use vstd::prelude::*;

use crate::enums::{ContentType, ProtocolVersion};
use crate::error::{Error, InvalidMessage};
use crate::msgs::message::{InboundOpaqueMessageImmut, PlainMessageView, HEADER_LEN};

verus! {

/// A record's payload has to be shorter than this: the largest fragment and what protecting it
/// may add.
pub const MAX_PAYLOAD: usize = 18432;

/// What is found at the front of a byte stream.
#[verifier::ext_equal]
pub enum Framed {
    /// The beginning of a record, or nothing at all.
    Incomplete,
    /// Something that is no record.
    Invalid(InvalidMessage),
    /// A record; it takes up the header and the payload.
    Record(PlainMessageView),
}

/// The number that two bytes encode, the most significant one first.
pub open spec fn u16_of(a: u8, b: u8) -> u16 {
    (a * 256 + b) as u16
}

/// What is found at the front of `data`.
///
/// An unknown content type is found with the first byte, a version other than those of SSL 3
/// and TLS with the third, and the length with the fifth. Only application data may be empty.
pub open spec fn framed(data: Seq<u8>) -> Framed {
    if data.len() == 0 {
        Framed::Incomplete
    } else if ContentType::of(data[0]) is Unknown {
        Framed::Invalid(InvalidMessage::InvalidContentType)
    } else if data.len() < 3 {
        Framed::Incomplete
    } else if data[1] != 3 {
        Framed::Invalid(InvalidMessage::UnknownProtocolVersion)
    } else if data.len() < HEADER_LEN {
        Framed::Incomplete
    } else {
        let typ = ContentType::of(data[0]);
        let len = u16_of(data[3], data[4]);
        if typ != ContentType::ApplicationData && len == 0 {
            Framed::Invalid(InvalidMessage::InvalidEmptyPayload)
        } else if len >= MAX_PAYLOAD {
            Framed::Invalid(InvalidMessage::MessageTooLarge)
        } else if data.len() < HEADER_LEN + len {
            Framed::Incomplete
        } else {
            Framed::Record(
                PlainMessageView {
                    typ,
                    version: ProtocolVersion::of(u16_of(data[1], data[2])),
                    payload: data.subrange(HEADER_LEN as int, HEADER_LEN + len),
                },
            )
        }
    }
}

/// Length of a record on the wire.
pub open spec fn wire_len(record: PlainMessageView) -> nat {
    HEADER_LEN as nat + record.payload.len()
}

/// Walks over the records of a buffer, leaving it as it is.
pub struct DeframerIterImmut<'a> {
    pub buf: &'a [u8],
    pub consumed: usize,
}

impl<'a> DeframerIterImmut<'a> {
    /// No more was consumed than there is.
    pub open spec fn wf(&self) -> bool {
        self.consumed <= self.buf@.len()
    }

    /// The bytes that were not consumed yet.
    pub open spec fn rest(&self) -> Seq<u8> {
        self.buf@.skip(self.consumed as int)
    }

    /// Starts at the front of `buf`.
    pub fn new(buf: &'a [u8]) -> (r: Self)
        ensures
            r.wf(),
            r.buf@ == buf@,
            r.consumed == 0,
            r.rest() == buf@,
    {
        let r = DeframerIterImmut { buf, consumed: 0 };
        assert(r.rest() =~= buf@);
        r
    }

    /// How many bytes the records that were found take up.
    pub fn bytes_consumed(&self) -> (r: usize)
        ensures
            r == self.consumed,
    {
        self.consumed
    }

    /// The next record: none while it is incomplete, and an error where there is no record.
    pub fn next(&mut self) -> (r: Option<Result<InboundOpaqueMessageImmut<'a>, Error>>)
        requires
            old(self).wf(),
        ensures
            final(self).wf(),
            final(self).buf == old(self).buf,
            match framed(old(self).rest()) {
                Framed::Incomplete => r is None && final(self).consumed == old(self).consumed,
                Framed::Invalid(e) => {
                    &&& r == Some(
                        Err::<InboundOpaqueMessageImmut<'a>, Error>(Error::InvalidMessage(e)),
                    )
                    &&& final(self).consumed == old(self).consumed
                },
                Framed::Record(record) => {
                    &&& r matches Some(Ok(m))
                    &&& m@ == record
                    &&& final(self).consumed == old(self).consumed + wire_len(record)
                },
            },
    {
        let data = vstd::slice::slice_subrange(self.buf, self.consumed, self.buf.len());
        assert(data@ =~= self.rest());
        if data.len() == 0 {
            return None;
        }
        let typ = ContentType::from(data[0]);
        if let ContentType::Unknown(_) = typ {
            return Some(Err(Error::InvalidMessage(InvalidMessage::InvalidContentType)));
        }
        if data.len() < 3 {
            return None;
        }
        if data[1] != 3 {
            return Some(Err(Error::InvalidMessage(InvalidMessage::UnknownProtocolVersion)));
        }
        if data.len() < HEADER_LEN {
            return None;
        }
        let version = ProtocolVersion::from((data[1] as u16) * 256 + (data[2] as u16));
        let len: usize = (data[3] as usize) * 256 + (data[4] as usize);
        assert(len == u16_of(data@[3], data@[4]));
        if typ != ContentType::ApplicationData && len == 0 {
            return Some(Err(Error::InvalidMessage(InvalidMessage::InvalidEmptyPayload)));
        }
        if len >= MAX_PAYLOAD {
            return Some(Err(Error::InvalidMessage(InvalidMessage::MessageTooLarge)));
        }
        if data.len() - HEADER_LEN < len {
            return None;
        }
        let payload = vstd::slice::slice_subrange(data, HEADER_LEN, HEADER_LEN + len);
        self.consumed = self.consumed + HEADER_LEN + len;
        Some(Ok(InboundOpaqueMessageImmut::new(typ, version, payload)))
    }
}

/// A record that was encoded is found again, whatever follows it.
pub proof fn law_encoded_record_is_found(
    typ: ContentType,
    version: ProtocolVersion,
    payload: Seq<u8>,
    rest: Seq<u8>,
)
    requires
        !(typ is Unknown),
        version == ProtocolVersion::TLSv1_2,
        payload.len() < MAX_PAYLOAD,
        typ != ContentType::ApplicationData ==> payload.len() > 0,
    ensures
        framed(crate::msgs::message::record(typ, version, payload) + rest) == Framed::Record(
            PlainMessageView { typ, version, payload },
        ),
{
    let data = crate::msgs::message::record(typ, version, payload) + rest;
    assert(0x0303u16 / 256 == 3 && 0x0303u16 % 256 == 3);
    assert(u16_of(data[3], data[4]) == payload.len());
    assert(data.subrange(HEADER_LEN as int, HEADER_LEN + payload.len()) =~= payload);
}

/// The prefix of a record is never an error: it is found incomplete until its last byte has come.
pub proof fn law_prefix_of_record_is_incomplete(data: Seq<u8>, n: nat)
    requires
        framed(data) is Record,
        n < wire_len(framed(data)->Record_0),
    ensures
        framed(data.take(n as int)) == Framed::Incomplete,
{
}

/// What is found as a record is what lies there: encoding the record again gives the bytes it was
/// found in, and what follows them makes no difference. Its content type is known, its version is
/// one of SSL 3 or TLS, its payload is shorter than 18432 bytes, and only application data is
/// empty.
pub proof fn law_found_record_is_what_lies_there(data: Seq<u8>, tail: Seq<u8>)
    requires
        framed(data) is Record,
    ensures
        ({
            let found = framed(data)->Record_0;
            let bytes = crate::msgs::message::record(found.typ, found.version, found.payload);
            &&& wire_len(found) == bytes.len()
            &&& bytes.len() <= data.len()
            &&& bytes == data.take(bytes.len() as int)
            &&& framed(data + tail) == framed(data)
            &&& 20 <= data[0] <= 24
            &&& data[1] == 3
            &&& found.payload.len() < 18432
            &&& found.payload.len() == 0 ==> data[0] == 23
        }),
{
    let found = framed(data)->Record_0;
    let bytes = crate::msgs::message::record(found.typ, found.version, found.payload);
    assert(bytes =~= data.take(bytes.len() as int));
    assert((data + tail).subrange(
        HEADER_LEN as int,
        HEADER_LEN + found.payload.len(),
    ) =~= found.payload);
}

/// A record is found wherever one lies: five bytes of header with a known content type, the version
/// of SSL 3 or TLS, and a length below 18432 that is zero for application data only, with that many
/// bytes behind them.
pub proof fn law_record_is_found_where_one_lies(data: Seq<u8>)
    requires
        data.len() >= 5,
        20 <= data[0] <= 24,
        data[1] == 3,
        256 * data[3] + data[4] < 18432,
        data[0] != 23 ==> 256 * data[3] + data[4] > 0,
        data.len() >= 5 + 256 * data[3] + data[4],
    ensures
        framed(data) is Record,
        framed(data)->Record_0.payload == data.subrange(5, 5 + 256 * data[3] + data[4]),
        framed(data)->Record_0.typ.byte() == data[0],
        framed(data)->Record_0.version.code() == 256 * data[1] + data[2],
{
}

/// What is no record is refused as soon as it shows, with what is wrong with it, and whatever
/// follows: an unknown content type, then the version, then an empty payload and a payload that is
/// too large. Nothing else is refused, and nothing else is waited for but the bytes that are
/// missing.
pub proof fn law_junk_is_refused(data: Seq<u8>, tail: Seq<u8>)
    ensures
        framed(data) is Invalid ==> framed(data + tail) == framed(data),
        framed(data) == Framed::Invalid(InvalidMessage::InvalidContentType) <==> data.len() > 0
            && !(20 <= data[0] <= 24),
        framed(data) == Framed::Invalid(InvalidMessage::UnknownProtocolVersion) <==> data.len()
            >= 3 && 20 <= data[0] <= 24 && data[1] != 3,
        framed(data) == Framed::Invalid(InvalidMessage::InvalidEmptyPayload) <==> data.len() >= 5
            && 20 <= data[0] <= 24 && data[1] == 3 && data[0] != 23 && data[3] == 0 && data[4]
            == 0,
        framed(data) == Framed::Invalid(InvalidMessage::MessageTooLarge) <==> data.len() >= 5
            && 20 <= data[0] <= 24 && data[1] == 3 && 256 * data[3] + data[4] >= 18432,
        framed(data) == Framed::Incomplete <==> data.len() == 0 || (20 <= data[0] <= 24 && (
        data.len() < 3 || (data[1] == 3 && (data.len() < 5 || ((data[0] == 23 || data[3] > 0
            || data[4] > 0) && 256 * data[3] + data[4] < 18432 && data.len() < 5 + 256 * data[3]
            + data[4]))))),
{
}

} // verus!
