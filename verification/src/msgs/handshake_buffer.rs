//! The buffer in which handshake messages are put together.
//!
//! Handshake payloads are appended one behind the other, so a message that was spread over
//! several records lies in one piece once its last byte has come.

use vstd::prelude::*;

use crate::enums::{ContentType, ProtocolVersion};
use crate::error::Error;
use crate::msgs::message::{InboundPlainMessage, PlainMessageView};

verus! {

/// Length of a handshake message's header: its type and a length of three bytes.
pub const HANDSHAKE_HEADER_LEN: usize = 4;

/// Initial size of a handshake buffer: 64KB.
pub const DEFAULT_HS_BUFFER_SIZE: usize = 65536;

/// Size up to which a handshake buffer grows: 256KB, enough for large certificate chains.
pub const MAX_HS_BUFFER_SIZE: usize = 262144;

/// Why a payload was not appended.
pub open spec fn overflow_error() -> Error {
    Error::General("handshake buffer overflow (exceeds 256KB)")
}

/// The number that three bytes encode, the most significant one first.
pub open spec fn u24(a: u8, b: u8, c: u8) -> nat {
    (65536 * a + 256 * b + c) as nat
}

/// Length of the message that `data` starts with, header included, as its header gives it.
/// There is none while the header is incomplete.
pub open spec fn message_len(data: Seq<u8>) -> Option<nat> {
    if data.len() < HANDSHAKE_HEADER_LEN {
        None
    } else {
        Some(HANDSHAKE_HEADER_LEN as nat + u24(data[1], data[2], data[3]))
    }
}

/// Does `data` start with a complete message?
pub open spec fn message_ready(data: Seq<u8>) -> bool {
    message_len(data) matches Some(n) && n <= data.len()
}

/// Is `data` made of complete messages, with nothing left over?
pub open spec fn aligned(data: Seq<u8>) -> bool
    decreases data.len(),
{
    data.len() == 0 || (message_ready(data) && aligned(data.skip(message_len(data)->0 as int)))
}

/// The least of `p`, `2 * p`, `4 * p`, ... that is at least `n`.
pub open spec fn doubled_to(p: nat, n: nat) -> nat
    decreases
        (if p < n {
            n - p
        } else {
            0
        }),
{
    if p == 0 || p >= n {
        p
    } else {
        doubled_to(2 * p, n)
    }
}

/// The least power of two that is at least `n`.
pub open spec fn next_power_of_two(n: nat) -> nat {
    doubled_to(1, n)
}

/// What a handshake buffer holds.
#[verifier::ext_equal]
pub struct HandshakeBufferView {
    /// The bytes that were appended and not yet read.
    pub pending: Seq<u8>,
    /// The version that came with the latest payload.
    pub version: Option<ProtocolVersion>,
    /// How many bytes fit without growing.
    pub capacity: nat,
}

impl HandshakeBufferView {
    /// An empty buffer of the given size.
    pub open spec fn empty(capacity: nat) -> Self {
        HandshakeBufferView { pending: Seq::empty(), version: None, capacity }
    }

    /// Is there room for `n` more bytes, if need be after growing?
    pub open spec fn fits(self, n: nat) -> bool {
        self.pending.len() + n <= self.capacity || self.pending.len() + n <= MAX_HS_BUFFER_SIZE
    }

    /// The capacity once `n` more bytes have found room.
    pub open spec fn grown(self, n: nat) -> nat {
        let needed = self.pending.len() + n;
        if needed <= self.capacity {
            self.capacity
        } else if next_power_of_two(needed) <= MAX_HS_BUFFER_SIZE {
            next_power_of_two(needed)
        } else {
            MAX_HS_BUFFER_SIZE as nat
        }
    }

    /// The buffer after `payload` was handed to it: the version is taken over in any case,
    /// the bytes only where they fit.
    pub open spec fn appended(self, payload: Seq<u8>, version: ProtocolVersion) -> Self {
        if self.fits(payload.len()) {
            HandshakeBufferView {
                pending: self.pending + payload,
                version: Some(version),
                capacity: self.grown(payload.len()),
            }
        } else {
            HandshakeBufferView { version: Some(version), ..self }
        }
    }

    /// The message at the front, where it is complete.
    pub open spec fn front(self) -> PlainMessageView
        recommends
            message_ready(self.pending),
    {
        PlainMessageView {
            typ: ContentType::Handshake,
            version: match self.version {
                Some(version) => version,
                None => ProtocolVersion::TLSv1_2,
            },
            payload: self.pending.take(message_len(self.pending)->0 as int),
        }
    }

    /// The buffer after the message at the front was read.
    pub open spec fn advanced(self) -> Self
        recommends
            message_ready(self.pending),
    {
        HandshakeBufferView {
            pending: self.pending.skip(message_len(self.pending)->0 as int),
            ..self
        }
    }
}

/// Buffer for handshake messages.
///
/// It starts at 64KB and grows up to 256KB. What was read is dropped when room is needed.
pub struct HandshakeBuffer {
    /// The bytes, read ones and unused ones included.
    pub buffer: Vec<u8>,
    /// Where the next byte is written.
    pub write_pos: usize,
    /// Where the next byte is read.
    pub read_pos: usize,
    /// The version that came with the latest payload.
    pub version: Option<ProtocolVersion>,
}

impl View for HandshakeBuffer {
    type V = HandshakeBufferView;

    open spec fn view(&self) -> HandshakeBufferView {
        HandshakeBufferView {
            pending: self.buffer@.subrange(self.read_pos as int, self.write_pos as int),
            version: self.version,
            capacity: self.buffer@.len(),
        }
    }
}

impl Default for HandshakeBuffer {
    fn default() -> (r: Self)
        ensures
            r.wf(),
            r@ == HandshakeBufferView::empty(DEFAULT_HS_BUFFER_SIZE as nat),
            r.read_pos == 0,
            r.write_pos == 0,
    {
        Self::new()
    }
}

/// The bytes at the front of `data` give the length of the message there.
fn parse_u24(a: u8, b: u8, c: u8) -> (r: usize)
    ensures
        r == u24(a, b, c),
        r < 0x100_0000,
{
    (a as usize) * 65536 + (b as usize) * 256 + (c as usize)
}

/// The least power of two that is at least `n`, for `n` up to the size a buffer may have.
fn power_of_two_at_least(n: usize) -> (r: usize)
    requires
        n <= MAX_HS_BUFFER_SIZE,
    ensures
        r == next_power_of_two(n as nat),
{
    let mut p: usize = 1;
    while p < n
        invariant
            n <= MAX_HS_BUFFER_SIZE,
            1 <= p <= 2 * MAX_HS_BUFFER_SIZE,
            doubled_to(p as nat, n as nat) == next_power_of_two(n as nat),
        decreases 2 * MAX_HS_BUFFER_SIZE - p,
    {
        p = 2 * p;
    }
    p
}

impl HandshakeBuffer {
    /// The read position is behind the write position, and both lie in the buffer.
    pub open spec fn wf(self) -> bool {
        self.read_pos <= self.write_pos <= self.buffer@.len()
    }

    /// An empty buffer of the initial size.
    pub fn new() -> (r: Self)
        ensures
            r.wf(),
            r@ == HandshakeBufferView::empty(DEFAULT_HS_BUFFER_SIZE as nat),
            r.read_pos == 0,
            r.write_pos == 0,
    {
        Self::with_capacity(DEFAULT_HS_BUFFER_SIZE)
    }

    /// An empty buffer of the given size.
    pub fn with_capacity(size: usize) -> (r: Self)
        ensures
            r.wf(),
            r@ == HandshakeBufferView::empty(size as nat),
            r.read_pos == 0,
            r.write_pos == 0,
    {
        Self { buffer: vec![0u8; size], write_pos: 0, read_pos: 0, version: None }
    }

    /// How many bytes the buffer can hold without growing.
    pub fn capacity(&self) -> (r: usize)
        ensures
            r == self@.capacity,
    {
        self.buffer.len()
    }

    /// How many bytes are there to read.
    pub fn pending_len(&self) -> (r: usize)
        requires
            self.wf(),
        ensures
            r == self@.pending.len(),
    {
        self.write_pos - self.read_pos
    }

    /// The bytes that are there to read.
    pub fn pending(&self) -> (r: &[u8])
        requires
            self.wf(),
        ensures
            r@ == self@.pending,
    {
        vstd::slice::slice_subrange(self.buffer.as_slice(), self.read_pos, self.write_pos)
    }

    /// How many bytes can be written behind the ones that are there.
    pub fn available_space(&self) -> (r: usize)
        requires
            self.wf(),
        ensures
            r == self.buffer@.len() - self.write_pos,
    {
        self.buffer.len() - self.write_pos
    }

    /// Total length of the next message, header and body, once its header is complete.
    pub fn peek_message_len(&self) -> (r: Option<usize>)
        requires
            self.wf(),
        ensures
            match r {
                Some(n) => message_len(self@.pending) == Some(n as nat),
                None => message_len(self@.pending) is None,
            },
    {
        let pending = self.pending();
        if pending.len() < HANDSHAKE_HEADER_LEN {
            return None;
        }
        let len: usize = parse_u24(pending[1], pending[2], pending[3]);
        Some(HANDSHAKE_HEADER_LEN + len)
    }

    /// Moves the bytes that are there to read to the front of the buffer.
    fn compact(&mut self)
        requires
            old(self).wf(),
        ensures
            final(self).wf(),
            final(self)@ == old(self)@,
            final(self).read_pos == 0,
    {
        if self.read_pos > 0 {
            let from: usize = self.read_pos;
            let len: usize = self.write_pos - from;
            let ghost before = self.buffer@;
            let mut i: usize = 0;
            while i < len
                invariant
                    i <= len,
                    0 < from,
                    from + len == old(self).write_pos <= before.len(),
                    self.buffer@.len() == before.len(),
                    self.write_pos == old(self).write_pos,
                    self.version == old(self).version,
                    before == old(self).buffer@,
                    from == old(self).read_pos,
                    forall|j: int| 0 <= j < i ==> self.buffer@[j] == before[from + j],
                    forall|j: int| i <= j < before.len() ==> self.buffer@[j] == before[j],
                decreases len - i,
            {
                let b: u8 = self.buffer[from + i];
                self.buffer.set(i, b);
                i += 1;
            }
            self.write_pos = len;
            self.read_pos = 0;
            assert(self@.pending =~= old(self)@.pending);
        }
    }

    /// Appends a handshake payload, which may hold a part of a message or several messages.
    ///
    /// The version is always the one that came last: early handshake messages of TLS 1.3 carry
    /// the record version of TLS 1.2, encrypted ones that of TLS 1.3.
    ///
    /// Fails, with nothing appended, where the unread bytes would not fit into 256KB (or into
    /// the buffer as it is, if that is larger).
    pub fn append(&mut self, payload: &[u8], version: ProtocolVersion) -> (r: Result<(), Error>)
        requires
            old(self).wf(),
        ensures
            final(self).wf(),
            final(self)@ == old(self)@.appended(payload@, version),
            r == (if old(self)@.fits(payload@.len()) {
                Ok::<(), Error>(())
            } else {
                Err::<(), Error>(overflow_error())
            }),
            final(self).read_pos == (if old(self).write_pos + payload@.len() <= old(
                self).buffer@.len() {
                old(self).read_pos
            } else {
                0
            }),
    {
        self.version = Some(version);
        let ghost start = *self;
        assert(start@.pending == old(self)@.pending);

        if self.available_space() < payload.len() {
            self.compact();

            if self.available_space() < payload.len() {
                if self.write_pos > MAX_HS_BUFFER_SIZE
                    || payload.len() > MAX_HS_BUFFER_SIZE - self.write_pos {
                    return Err(Error::General("handshake buffer overflow (exceeds 256KB)"));
                }
                let needed: usize = self.write_pos + payload.len();
                let doubled: usize = power_of_two_at_least(needed);
                let new_size: usize = if doubled < MAX_HS_BUFFER_SIZE {
                    doubled
                } else {
                    MAX_HS_BUFFER_SIZE
                };
                proof {
                    lemma_doubled_to(1, needed as nat);
                }
                let ghost before = self@.pending;
                self.buffer.resize(new_size, 0);
                assert(self@.pending =~= before);
            }
        }
        let ghost roomy = *self;
        assert(roomy@.pending == old(self)@.pending);
        let start_pos: usize = self.write_pos;
        let size: usize = self.buffer.len();
        let mut i: usize = 0;
        while i < payload.len()
            invariant
                size == roomy.buffer@.len(),
                i <= payload@.len(),
                roomy.wf(),
                start_pos == roomy.write_pos,
                start_pos + payload@.len() <= roomy.buffer@.len(),
                self.buffer@.len() == roomy.buffer@.len(),
                self.write_pos == roomy.write_pos,
                self.read_pos == roomy.read_pos,
                self.version == roomy.version,
                forall|j: int| 0 <= j < start_pos ==> self.buffer@[j] == roomy.buffer@[j],
                forall|j: int|
                    start_pos <= j < start_pos + i ==> self.buffer@[j] == payload@[j - start_pos],
            decreases payload@.len() - i,
        {
            self.buffer.set(start_pos + i, payload[i]);
            i += 1;
        }
        assert(start_pos + payload@.len() <= size);
        self.write_pos = start_pos + payload.len();
        assert(self@.pending =~= old(self)@.pending + payload@);

        Ok(())
    }

    /// Is there a complete message to read?
    pub fn has_message_ready(&self) -> (r: bool)
        requires
            self.wf(),
        ensures
            r == message_ready(self@.pending),
    {
        match self.peek_message_len() {
            Some(len) => self.pending_len() >= len,
            None => false,
        }
    }

    /// Is there anything to read, complete or not?
    pub fn is_active(&self) -> (r: bool)
        requires
            self.wf(),
        ensures
            r == (self@.pending.len() > 0),
    {
        self.pending_len() > 0
    }

    /// Is the buffer empty, or filled with complete messages only?
    ///
    /// A record of another type may only come between two handshake messages, never inside one.
    pub fn is_aligned(&self) -> (r: bool)
        requires
            self.wf(),
        ensures
            r == aligned(self@.pending),
    {
        let pending = self.pending();
        let mut offset: usize = 0;
        assert(pending@.skip(0) =~= pending@);

        while offset < pending.len()
            invariant
                offset <= pending@.len(),
                pending@ == self@.pending,
                aligned(self@.pending) == aligned(pending@.skip(offset as int)),
            decreases pending@.len() - offset,
        {
            let ghost rest = pending@.skip(offset as int);
            if pending.len() - offset < HANDSHAKE_HEADER_LEN {
                return false;
            }
            let len: usize = parse_u24(
                pending[offset + 1],
                pending[offset + 2],
                pending[offset + 3],
            );
            let msg_len: usize = HANDSHAKE_HEADER_LEN + len;
            assert(message_len(rest) == Some(msg_len as nat));

            if pending.len() - offset < msg_len {
                return false;
            }
            assert(rest.skip(msg_len as int) =~= pending@.skip(offset + msg_len));
            offset += msg_len;
        }
        true
    }

    /// Reads the next message, where it is complete.
    pub fn next_message(&mut self) -> (r: Option<InboundPlainMessage<'_>>)
        requires
            old(self).wf(),
        ensures
            final(self).wf(),
            match r {
                Some(m) => {
                    &&& message_ready(old(self)@.pending)
                    &&& m@ == old(self)@.front()
                    &&& final(self)@ == old(self)@.advanced()
                    &&& final(self).buffer@ == old(self).buffer@
                    &&& final(self).read_pos == old(self).read_pos + m@.payload.len()
                    &&& final(self).write_pos == old(self).write_pos
                },
                None => !message_ready(old(self)@.pending) && *final(self) == *old(self),
            },
    {
        let msg_len: usize = match self.peek_message_len() {
            Some(len) => len,
            None => {
                return None;
            },
        };
        if self.pending_len() < msg_len {
            return None;
        }
        let start: usize = self.read_pos;
        let end: usize = start + msg_len;
        let ghost before = *self;

        self.read_pos = end;
        assert(self@.pending =~= before@.advanced().pending);
        assert(self.buffer@.subrange(start as int, end as int) =~= before@.front().payload);

        let version = match self.version {
            Some(version) => version,
            None => ProtocolVersion::TLSv1_2,
        };
        Some(
            InboundPlainMessage {
                typ: ContentType::Handshake,
                version,
                payload: vstd::slice::slice_subrange(self.buffer.as_slice(), start, end),
            },
        )
    }

    /// Forgets everything but the size of the buffer.
    pub fn clear(&mut self)
        ensures
            final(self).wf(),
            final(self)@ == HandshakeBufferView::empty(old(self)@.capacity),
            final(self).buffer@ == old(self).buffer@,
            final(self).read_pos == 0,
            final(self).write_pos == 0,
    {
        self.read_pos = 0;
        self.write_pos = 0;
        self.version = None;
    }
}

proof fn lemma_doubled_to(p: nat, n: nat)
    requires
        p >= 1,
    ensures
        doubled_to(p, n) >= n,
        doubled_to(p, n) == p || doubled_to(p, n) < 2 * n,
    decreases
        (if p < n {
            n - p
        } else {
            0
        }),
{
    if p < n {
        lemma_doubled_to(2 * p, n);
    }
}

/// Is `m` one complete message, no more and no less?
pub open spec fn complete_message(m: Seq<u8>) -> bool {
    message_len(m) == Some(m.len())
}

/// The messages one behind the other.
pub open spec fn concat(messages: Seq<Seq<u8>>) -> Seq<u8>
    decreases messages.len(),
{
    if messages.len() == 0 {
        Seq::empty()
    } else {
        messages[0] + concat(messages.skip(1))
    }
}

/// Are all of these complete messages?
pub open spec fn all_complete(messages: Seq<Seq<u8>>) -> bool {
    forall|i: int| 0 <= i < messages.len() ==> complete_message(#[trigger] messages[i])
}

/// The messages that aligned data is made of.
pub open spec fn split_messages(data: Seq<u8>) -> Seq<Seq<u8>>
    decreases data.len(),
{
    if !message_ready(data) {
        Seq::empty()
    } else {
        let n = message_len(data)->0 as int;
        seq![data.take(n)] + split_messages(data.skip(n))
    }
}

proof fn lemma_split_messages(data: Seq<u8>)
    requires
        aligned(data),
    ensures
        all_complete(split_messages(data)),
        concat(split_messages(data)) == data,
    decreases data.len(),
{
    if data.len() == 0 {
        assert(split_messages(data).len() == 0);
        assert(concat(split_messages(data)) =~= data);
    } else {
        let n = message_len(data)->0 as int;
        let rest = split_messages(data.skip(n));
        lemma_split_messages(data.skip(n));
        let all = split_messages(data);
        assert(all =~= seq![data.take(n)] + rest);
        assert(all.skip(1) =~= rest);
        assert(data.take(n) + data.skip(n) =~= data);
        assert forall|i: int| 0 <= i < all.len() implies complete_message(#[trigger] all[i]) by {
            if i > 0 {
                assert(all[i] == rest[i - 1]);
            }
        }
    }
}

/// Messages that were appended whole come out whole and in their order: the front of the buffer
/// is the first of them, and what is left behind it is the rest.
pub proof fn law_messages_come_out_in_order(buffer: HandshakeBufferView, messages: Seq<Seq<u8>>)
    requires
        messages.len() > 0,
        all_complete(messages),
        buffer.pending == concat(messages),
    ensures
        message_ready(buffer.pending),
        buffer.front().payload == messages[0],
        buffer.advanced().pending == concat(messages.skip(1)),
{
    let first = messages[0];
    assert(complete_message(first));
    let rest = concat(messages.skip(1));
    assert(buffer.pending == first + rest);
    assert(message_len(buffer.pending) == message_len(first));
    assert(buffer.front().payload =~= first);
    assert(buffer.advanced().pending =~= rest);
}

/// The buffer is aligned exactly where its bytes are complete messages one behind the other.
pub proof fn law_aligned_means_complete_messages(data: Seq<u8>)
    ensures
        aligned(data) <==> exists|messages: Seq<Seq<u8>>|
            all_complete(messages) && #[trigger] concat(messages) == data,
{
    if aligned(data) {
        lemma_split_messages(data);
        let messages = split_messages(data);
        assert(all_complete(messages) && concat(messages) == data);
    }
    assert forall|messages: Seq<Seq<u8>>|
        all_complete(messages) && #[trigger] concat(messages) == data implies aligned(data) by {
        lemma_concat_aligned(messages);
    }
}

proof fn lemma_concat_aligned(messages: Seq<Seq<u8>>)
    requires
        all_complete(messages),
    ensures
        aligned(concat(messages)),
    decreases messages.len(),
{
    if messages.len() > 0 {
        let first = messages[0];
        let rest = messages.skip(1);
        assert(complete_message(first));
        assert forall|i: int| 0 <= i < rest.len() implies complete_message(#[trigger] rest[i]) by {
            assert(rest[i] == messages[i + 1]);
        }
        lemma_concat_aligned(rest);
        let data = concat(messages);
        assert(message_len(data) == message_len(first));
        assert(data.skip(first.len() as int) =~= concat(rest));
    }
}

/// Aligned bytes behind aligned bytes are aligned: what comes in between two records cannot
/// break alignment.
pub proof fn law_aligned_append(a: Seq<u8>, b: Seq<u8>)
    requires
        aligned(a),
        aligned(b),
    ensures
        aligned(a + b),
    decreases a.len(),
{
    if a.len() == 0 {
        assert(a + b =~= b);
    } else {
        let n = message_len(a)->0 as int;
        law_aligned_append(a.skip(n), b);
        assert(message_len(a + b) == message_len(a));
        assert((a + b).skip(n) =~= a.skip(n) + b);
    }
}

/// Reading a message keeps an aligned buffer aligned, and an aligned buffer that is not empty
/// has a message to read.
pub proof fn law_aligned_read(buffer: HandshakeBufferView)
    requires
        aligned(buffer.pending),
        buffer.pending.len() > 0,
    ensures
        message_ready(buffer.pending),
        aligned(buffer.advanced().pending),
        buffer.advanced().pending.len() < buffer.pending.len(),
{
}

/// It does not matter into how many payloads handshake bytes are split.
pub proof fn law_append_in_pieces(
    buffer: HandshakeBufferView,
    a: Seq<u8>,
    b: Seq<u8>,
    version: ProtocolVersion,
)
    requires
        buffer.fits(a.len() + b.len()),
    ensures
        buffer.fits(a.len()),
        buffer.appended(a, version).fits(b.len()),
        buffer.appended(a, version).appended(b, version).pending == buffer.appended(
            a + b,
            version,
        ).pending,
        buffer.appended(a, version).appended(b, version).version == buffer.appended(
            a + b,
            version,
        ).version,
{
    lemma_doubled_to(1, buffer.pending.len() + a.len());
    assert(buffer.pending + (a + b) =~= buffer.pending + a + b);
}

/// The capacity never shrinks, holds what was appended, and grows beyond 256KB never.
pub proof fn law_capacity(buffer: HandshakeBufferView, payload: Seq<u8>, version: ProtocolVersion)
    requires
        buffer.pending.len() <= buffer.capacity,
    ensures
        buffer.appended(payload, version).pending.len() <= buffer.appended(payload, version).capacity,
        buffer.capacity <= buffer.appended(payload, version).capacity,
        buffer.appended(payload, version).capacity == buffer.capacity || buffer.appended(
            payload,
            version,
        ).capacity <= MAX_HS_BUFFER_SIZE,
{
    lemma_doubled_to(1, buffer.pending.len() + payload.len());
}

/// The message at the front is the one that its header speaks of: with a type, a length of three
/// bytes and as many bytes behind them, it is complete, it is given whole with the version that came
/// last, and exactly what follows it is left.
pub proof fn law_message_has_the_length_of_its_header(
    buffer: HandshakeBufferView,
    message: Seq<u8>,
    rest: Seq<u8>,
)
    requires
        buffer.pending == message + rest,
        message.len() >= 4,
        message.len() == 4 + 65536 * message[1] + 256 * message[2] + message[3],
    ensures
        message_ready(buffer.pending),
        buffer.front().payload == message,
        buffer.front().typ == ContentType::Handshake,
        buffer.version matches Some(version) ==> buffer.front().version == version,
        buffer.version is None ==> buffer.front().version == ProtocolVersion::TLSv1_2,
        buffer.advanced().pending == rest,
        buffer.advanced().version == buffer.version,
        buffer.advanced().capacity == buffer.capacity,
{
    assert(message_len(buffer.pending) == Some(message.len()));
    assert(buffer.front().payload =~= message);
    assert(buffer.advanced().pending =~= rest);
}

/// A message is complete exactly where its header and as many bytes as the header says are there; its
/// length is known with its header.
pub proof fn law_message_is_complete_with_its_last_byte(data: Seq<u8>)
    ensures
        data.len() < 4 ==> message_len(data) is None,
        data.len() >= 4 ==> message_len(data) == Some(
            (4 + 65536 * data[1] + 256 * data[2] + data[3]) as nat,
        ),
        message_ready(data) <==> data.len() >= 4 && data.len() >= 4 + 65536 * data[1] + 256
            * data[2] + data[3],
{
}

/// Handshake bytes are gathered behind those that are there, as long as there are no more than
/// 256KB of them, or the buffer is that large already. Where they do not fit, those that are there
/// stay. The version is taken over in any case.
pub proof fn law_payloads_are_gathered(
    buffer: HandshakeBufferView,
    payload: Seq<u8>,
    version: ProtocolVersion,
)
    ensures
        ({
            let after = buffer.appended(payload, version);
            let n = buffer.pending.len() + payload.len();
            &&& buffer.fits(payload.len()) <==> n <= 262144 || n <= buffer.capacity
            &&& buffer.fits(payload.len()) ==> after.pending == buffer.pending + payload
            &&& !buffer.fits(payload.len()) ==> after.pending == buffer.pending && after.capacity
                == buffer.capacity
            &&& after.version == Some(version)
        }),
{
}

/// A buffer grows only where it has to: to the next power of two that is enough, and no further
/// than 256KB.
pub proof fn law_buffer_grows_to_a_power_of_two(
    buffer: HandshakeBufferView,
    payload: Seq<u8>,
    version: ProtocolVersion,
)
    requires
        buffer.fits(payload.len()),
    ensures
        ({
            let n = buffer.pending.len() + payload.len();
            let capacity = buffer.appended(payload, version).capacity;
            &&& n <= buffer.capacity ==> capacity == buffer.capacity
            &&& n > buffer.capacity ==> {
                &&& n <= capacity < 2 * n
                &&& capacity <= 262144
                &&& exists|k: nat| capacity == vstd::arithmetic::power2::pow2(k)
            }
        }),
{
    let n = buffer.pending.len() + payload.len();
    if n > buffer.capacity {
        vstd::arithmetic::power2::lemma2_to64();
        lemma_doubled_is_power(0, n);
    }
}

proof fn lemma_doubled_is_power(k: nat, n: nat)
    requires
        0 < n <= 262144,
        vstd::arithmetic::power2::pow2(k) < 2 * n,
    ensures
        ({
            let p = doubled_to(vstd::arithmetic::power2::pow2(k), n);
            &&& n <= p < 2 * n
            &&& p <= 262144
            &&& exists|j: nat| p == vstd::arithmetic::power2::pow2(j)
        }),
    decreases 2 * n - vstd::arithmetic::power2::pow2(k),
{
    let p = vstd::arithmetic::power2::pow2(k);
    vstd::arithmetic::power2::lemma_pow2_pos(k);
    if p < n {
        vstd::arithmetic::power2::lemma_pow2_unfold(k + 1);
        lemma_doubled_is_power(k + 1, n);
    } else {
        vstd::arithmetic::power2::lemma2_to64();
        if p > 262144 {
            if k <= 18 {
                lemma_pow2_monotone(k, 18);
            } else {
                lemma_pow2_monotone(19, k);
            }
        }
    }
}

proof fn lemma_pow2_monotone(a: nat, b: nat)
    requires
        a <= b,
    ensures
        vstd::arithmetic::power2::pow2(a) <= vstd::arithmetic::power2::pow2(b),
    decreases b - a,
{
    if a < b {
        lemma_pow2_monotone(a, (b - 1) as nat);
        vstd::arithmetic::power2::lemma_pow2_unfold(b);
        vstd::arithmetic::power2::lemma_pow2_pos((b - 1) as nat);
    }
}

} // verus!
