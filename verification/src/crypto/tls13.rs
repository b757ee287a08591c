//! Record protection of TLS 1.3.
//!
//! ChaCha20-Poly1305 works on `aead::LessSafeKey`; AES-GCM works on the TLS record keys of
//! `aws-lc-rs`, which take nonces only in increasing order. A traffic key is kept as bytes, and the
//! key of `aws-lc-rs` is made of them for each record; the order of nonces is kept beside them, in
//! [`NonceOrder`].

use vstd::prelude::*;

use crate::crypto::aead::{
    less_safe_open, less_safe_open_gather, less_safe_opened, less_safe_seal, less_safe_sealed,
    tls_record_open, tls_record_opened, tls_record_seal, tls_record_sealed, zeroes, Algorithm,
    NONCE_LEN, TAG_LEN,
};
use crate::crypto::cipher::{
    find_unpadded_len, make_tls13_aad, nonce, tls13_aad, unpadded, AeadKey, Iv, Nonce,
};
use crate::enums::{ContentType, ProtocolVersion};
use crate::error::{Error, PeerMisbehaved};
use crate::msgs::message::{
    copy_at, InboundOpaqueMessage, InboundOpaqueMessageImmut, InboundPlainMessage,
    OutboundOpaqueMessage, OutboundPlainMessage, PlainMessageView, MAX_FRAGMENT_LEN,
};

verus! {

/// A traffic key with all that goes into protecting a record besides its sequence number.
#[verifier::ext_equal]
pub struct KeyView {
    pub alg: Algorithm,
    pub key: Seq<u8>,
    pub iv: Seq<u8>,
}

impl KeyView {
    /// The key and the initialisation vector have the lengths that the algorithm wants.
    pub open spec fn wf(self) -> bool {
        self.key.len() == self.alg.spec_key_len() && self.iv.len() == NONCE_LEN
    }
}

/// What is encrypted of a message: its payload and the byte of its content type.
pub open spec fn inner_plaintext(msg: PlainMessageView) -> Seq<u8> {
    msg.payload.push(msg.typ.byte())
}

/// The payload of the record with sequence number `seq` that `LessSafeKey` makes of `inner`.
pub open spec fn aead_sealed(key: KeyView, seq: u64, inner: Seq<u8>) -> Option<Seq<u8>> {
    less_safe_sealed(
        key.alg,
        key.key,
        nonce(key.iv, seq),
        tls13_aad(inner.len() + TAG_LEN as nat),
        inner,
    )
}

/// What `LessSafeKey` finds in the payload of the record with sequence number `seq`.
pub open spec fn aead_opened(key: KeyView, seq: u64, payload: Seq<u8>) -> Option<Seq<u8>> {
    less_safe_opened(key.alg, key.key, nonce(key.iv, seq), tls13_aad(payload.len()), payload)
}

/// The payload of the record with sequence number `seq` that a TLS record key makes of `inner`.
pub open spec fn gcm_sealed(key: KeyView, seq: u64, inner: Seq<u8>) -> Option<Seq<u8>> {
    tls_record_sealed(
        key.alg,
        key.key,
        nonce(key.iv, seq),
        tls13_aad(inner.len() + TAG_LEN as nat),
        inner,
    )
}

/// What a TLS record key finds in the payload of the record with sequence number `seq`.
pub open spec fn gcm_opened(key: KeyView, seq: u64, payload: Seq<u8>) -> Option<Seq<u8>> {
    tls_record_opened(key.alg, key.key, nonce(key.iv, seq), tls13_aad(payload.len()), payload)
}

/// What opening a record in place gives, from the length of its payload and what was found in it.
///
/// A payload that is shorter than a tag is not tried. What was found may be one byte longer than
/// the largest fragment, and the message in it no longer than that fragment.
pub open spec fn opened_in_place(len: nat, found: Option<Seq<u8>>) -> Result<
    PlainMessageView,
    Error,
> {
    if len < TAG_LEN || found is None {
        Err(Error::DecryptError)
    } else if found->0.len() > MAX_FRAGMENT_LEN + 1 {
        Err(Error::PeerSentOversizedRecord)
    } else {
        match unpadded(found->0) {
            None => Err(Error::PeerMisbehaved(PeerMisbehaved::IllegalTlsInnerPlaintext)),
            Some((typ, payload)) => if payload.len() > MAX_FRAGMENT_LEN {
                Err(Error::PeerSentOversizedRecord)
            } else {
                Ok(PlainMessageView { typ, version: ProtocolVersion::TLSv1_3, payload })
            },
        }
    }
}

/// What opening a record into a buffer of `room` bytes gives, from the length of its payload and
/// what was found in it.
pub open spec fn opened_to(len: nat, room: nat, found: Option<Seq<u8>>) -> Result<
    PlainMessageView,
    Error,
> {
    if len < TAG_LEN {
        Err(Error::DecryptError)
    } else if room < len - TAG_LEN {
        Err(Error::General("output buffer too small"))
    } else if found is None {
        Err(Error::DecryptError)
    } else {
        match unpadded(found->0) {
            None => Err(Error::DecryptError),
            Some((typ, payload)) => Ok(
                PlainMessageView { typ, version: ProtocolVersion::TLSv1_3, payload },
            ),
        }
    }
}

/// What opening a record into a buffer of `room` bytes finds, before its content type and padding
/// are looked at.
pub open spec fn opened_inner(len: nat, room: nat, found: Option<Seq<u8>>) -> Result<
    Seq<u8>,
    Error,
> {
    if len < TAG_LEN {
        Err(Error::DecryptError)
    } else if room < len - TAG_LEN {
        Err(Error::General("output buffer too small"))
    } else {
        match found {
            None => Err(Error::DecryptError),
            Some(plain) => Ok(plain),
        }
    }
}

/// What opening a record on trial gives: `DecryptError` says that it does not authenticate, and
/// nothing else. A record that authenticates, and holds nothing but padding, is told apart.
pub open spec fn tried_to(len: nat, room: nat, found: Option<Seq<u8>>) -> Result<
    PlainMessageView,
    Error,
> {
    match opened_inner(len, room, found) {
        Err(e) => Err(e),
        Ok(plain) => match unpadded(plain) {
            None => Err(Error::PeerMisbehaved(PeerMisbehaved::IllegalTlsInnerPlaintext)),
            Some((typ, payload)) => Ok(
                PlainMessageView { typ, version: ProtocolVersion::TLSv1_3, payload },
            ),
        },
    }
}

/// Does `r` give the length of what was to be found, which lies at the front of `out`?
pub open spec fn agrees_inner(
    r: Result<usize, Error>,
    expected: Result<Seq<u8>, Error>,
    out: Seq<u8>,
) -> bool {
    match (r, expected) {
        (Ok(n), Ok(plain)) => n == plain.len() && n <= out.len() && out.take(n as int) == plain,
        (Err(e), Err(f)) => e == f,
        _ => false,
    }
}

/// The buffer `out` with other bytes at its front, up to byte `n`.
pub open spec fn over(front: Seq<u8>, n: nat, out: Seq<u8>) -> Seq<u8> {
    Seq::new(
        out.len(),
        |i: int|
            if i < n {
                front[i]
            } else {
                out[i]
            },
    )
}

/// What opening a record into the buffer `out` leaves there, from the length of its payload and
/// what was found in it: all that was found, its content type and padding included. Where there
/// was not enough room, nothing was tried. Where nothing was found, the room for it is cleared or
/// left alone.
pub open spec fn left_in(out: Seq<u8>, len: nat, found: Option<Seq<u8>>, clears: bool) -> Seq<u8> {
    if len < TAG_LEN || out.len() < len - TAG_LEN {
        out
    } else {
        let n = (len - TAG_LEN) as nat;
        match found {
            Some(plain) => over(plain, n, out),
            None => if clears {
                over(zeroes(n), n, out)
            } else {
                out
            },
        }
    }
}

/// What is found in a record is shorter than its payload by the length of the tag.
pub open spec fn found_fits(len: nat, room: nat, found: Option<Seq<u8>>) -> bool {
    len >= TAG_LEN && room >= len - TAG_LEN && found is Some ==> found->0.len() + TAG_LEN == len
}

/// Does `r` say what `expected` says?
pub open spec fn agrees(
    r: Result<InboundPlainMessage<'_>, Error>,
    expected: Result<PlainMessageView, Error>,
) -> bool {
    match (r, expected) {
        (Ok(m), Ok(v)) => m@ == v,
        (Err(e), Err(f)) => e == f,
        _ => false,
    }
}

/// Opening in place and opening into a buffer give the same, wherever there is room for the
/// plaintext and the record is no larger than the protocol allows: a message that one of them
/// gives, the other gives too, and what one refuses, the other refuses.
pub proof fn law_opening_to_matches_opening_in_place(len: nat, room: nat, found: Option<Seq<u8>>)
    requires
        len >= TAG_LEN,
        room >= len - TAG_LEN,
        found is Some ==> found->0.len() <= MAX_FRAGMENT_LEN + 1,
    ensures
        opened_to(len, room, found) is Ok <==> opened_in_place(len, found) is Ok,
        opened_to(len, room, found) is Ok ==> opened_to(len, room, found) == opened_in_place(
            len,
            found,
        ),
{
    if let Some(data) = found {
        crate::crypto::cipher::lemma_unpadded_len(data);
    }
}

/// Encrypts messages with `aead::LessSafeKey`.
pub struct AeadMessageEncrypter {
    pub alg: Algorithm,
    pub enc_key: AeadKey,
    pub iv: Iv,
}

impl View for AeadMessageEncrypter {
    type V = KeyView;

    open spec fn view(&self) -> KeyView {
        KeyView { alg: self.alg, key: self.enc_key@, iv: self.iv@ }
    }
}

impl AeadMessageEncrypter {
    /// Encrypts `msg` as the record with sequence number `seq`.
    ///
    /// Messages of less than 4GB are always encrypted, and what comes out opens to what went in.
    pub fn encrypt(&mut self, msg: OutboundPlainMessage<'_>, seq: u64) -> (r: Result<
        OutboundOpaqueMessage,
        Error,
    >)
        requires
            old(self)@.wf(),
            msg@.payload.len() + 1 + TAG_LEN <= usize::MAX,
        ensures
            final(self)@ == old(self)@,
            match r {
                Ok(m) => {
                    &&& m.typ == ContentType::ApplicationData
                    &&& m.version == ProtocolVersion::TLSv1_2
                    &&& m.payload@.len() == msg@.payload.len() + 1 + TAG_LEN
                    &&& aead_sealed(old(self)@, seq, inner_plaintext(msg@)) == Some(m.payload@)
                    &&& aead_opened(old(self)@, seq, m.payload@) == Some(inner_plaintext(msg@))
                },
                Err(e) => {
                    &&& e == Error::EncryptError
                    &&& aead_sealed(old(self)@, seq, inner_plaintext(msg@)) is None
                },
            },
            inner_plaintext(msg@).len() < 0x1_0000_0000 ==> r is Ok,
    {
        let total_len: usize = self.encrypted_payload_len(msg.payload.len());
        let nonce = Nonce::new(&self.iv, seq);
        let aad = make_tls13_aad(total_len);
        let mut payload: Vec<u8> = Vec::new();
        msg.payload.copy_to_vec(&mut payload);
        payload.push(msg.typ.to_byte());
        assert(payload@ =~= inner_plaintext(msg@));

        match less_safe_seal(self.alg, self.enc_key.as_slice(), nonce.0, aad, &mut payload) {
            Ok(_) => Ok(
                OutboundOpaqueMessage::new(
                    ContentType::ApplicationData,
                    ProtocolVersion::TLSv1_2,
                    payload,
                ),
            ),
            Err(_) => Err(Error::EncryptError),
        }
    }

    /// Length of the record payload that a message payload of `payload_len` bytes becomes.
    pub fn encrypted_payload_len(&self, payload_len: usize) -> (r: usize)
        requires
            payload_len + 1 + TAG_LEN <= usize::MAX,
        ensures
            r == payload_len + 1 + TAG_LEN,
    {
        payload_len + 1 + self.alg.tag_len()
    }
}

/// Decrypts messages with `aead::LessSafeKey`.
pub struct AeadMessageDecrypter {
    pub alg: Algorithm,
    pub dec_key: AeadKey,
    pub iv: Iv,
}

impl View for AeadMessageDecrypter {
    type V = KeyView;

    open spec fn view(&self) -> KeyView {
        KeyView { alg: self.alg, key: self.dec_key@, iv: self.iv@ }
    }
}

/// Takes the content type and the padding off an opened record.
fn into_tls13_unpadded_message<'a>(plain: &'a [u8]) -> (r: Result<InboundPlainMessage<'a>, Error>)
    ensures
        agrees(r, opened_in_place((plain@.len() + TAG_LEN) as nat, Some(plain@))),
{
    if plain.len() > MAX_FRAGMENT_LEN + 1 {
        return Err(Error::PeerSentOversizedRecord);
    }
    let n: usize = find_unpadded_len(plain);
    if n == 0 {
        return Err(Error::PeerMisbehaved(PeerMisbehaved::IllegalTlsInnerPlaintext));
    }
    if n - 1 > MAX_FRAGMENT_LEN {
        return Err(Error::PeerSentOversizedRecord);
    }
    let payload = vstd::slice::slice_subrange(plain, 0, n - 1);
    assert(payload@ =~= plain@.take(n - 1));
    Ok(
        InboundPlainMessage {
            typ: ContentType::from(plain[n - 1]),
            version: ProtocolVersion::TLSv1_3,
            payload,
        },
    )
}

/// Finds the content type behind the payload of an opened record, skipping the padding.
fn unpad_opened<'a>(plain: &'a [u8]) -> (r: Result<InboundPlainMessage<'a>, Error>)
    ensures
        agrees(
            r,
            opened_to((plain@.len() + TAG_LEN) as nat, plain@.len(), Some(plain@)),
        ),
        r matches Ok(m) ==> m.payload@.len() < plain@.len() && m.payload@ == plain@.take(
            m.payload@.len() as int,
        ),
{
    let n: usize = find_unpadded_len(plain);
    if n == 0 {
        return Err(Error::DecryptError);
    }
    let payload = vstd::slice::slice_subrange(plain, 0, n - 1);
    assert(payload@ =~= plain@.take(n - 1));
    Ok(
        InboundPlainMessage {
            typ: ContentType::from(plain[n - 1]),
            version: ProtocolVersion::TLSv1_3,
            payload,
        },
    )
}

impl AeadMessageDecrypter {
    /// Opens the record with sequence number `seq` where it lies. The tag stays behind what was
    /// found; where the record does not authenticate, all but the tag is cleared.
    pub fn decrypt<'a>(&mut self, msg: InboundOpaqueMessage<'a>, seq: u64) -> (r: Result<
        InboundPlainMessage<'a>,
        Error,
    >)
        requires
            old(self)@.wf(),
        ensures
            final(self)@ == old(self)@,
            agrees(
                r,
                opened_in_place(
                    old(msg.payload)@.len(),
                    aead_opened(old(self)@, seq, old(msg.payload)@),
                ),
            ),
            final(msg.payload)@ == left_in(
                old(msg.payload)@,
                old(msg.payload)@.len(),
                aead_opened(old(self)@, seq, old(msg.payload)@),
                true,
            ),
    {
        let payload: &'a mut [u8] = msg.payload;
        if payload.len() < self.alg.tag_len() {
            return Err(Error::DecryptError);
        }
        let nonce = Nonce::new(&self.iv, seq);
        let aad = make_tls13_aad(payload.len());
        let plain_len: usize = match less_safe_open(
            self.alg,
            self.dec_key.as_slice(),
            nonce.0,
            aad,
            payload,
        ) {
            Ok(n) => n,
            Err(_) => {
                return Err(Error::DecryptError);
            },
        };
        proof {
            let before = old(msg.payload)@;
            let found = aead_opened(old(self)@, seq, before);
            assert(payload@ =~= payload@.take(plain_len as int) + payload@.skip(plain_len as int));
            assert(payload@ =~= left_in(before, before.len(), found, true));
        }
        let opened: &'a [u8] = payload;
        let plain = vstd::slice::slice_subrange(opened, 0, plain_len);
        assert(plain@ =~= opened@.take(plain_len as int));
        into_tls13_unpadded_message(plain)
    }

    /// Opens the record with sequence number `seq` into `out`; gives the length of what was found,
    /// its content type and padding included.
    fn open_to(
        &mut self,
        msg: &InboundOpaqueMessageImmut<'_>,
        seq: u64,
        out: &mut [u8],
    ) -> (r: Result<usize, Error>)
        requires
            old(self)@.wf(),
        ensures
            final(self)@ == old(self)@,
            final(self).alg == old(self).alg,
            agrees_inner(
                r,
                opened_inner(
                    msg.payload@.len(),
                    old(out)@.len(),
                    aead_opened(old(self)@, seq, msg.payload@),
                ),
                final(out)@,
            ),
            final(out)@.len() == old(out)@.len(),
            found_fits(
                msg.payload@.len(),
                old(out)@.len(),
                aead_opened(old(self)@, seq, msg.payload@),
            ),
            final(out)@ == left_in(
                old(out)@,
                msg.payload@.len(),
                aead_opened(old(self)@, seq, msg.payload@),
                true,
            ),
    {
        let tag_len: usize = self.alg.tag_len();
        if msg.payload.len() < tag_len {
            return Err(Error::DecryptError);
        }
        let ciphertext_len: usize = msg.payload.len() - tag_len;
        let ciphertext = vstd::slice::slice_subrange(msg.payload, 0, ciphertext_len);
        let tag = vstd::slice::slice_subrange(msg.payload, ciphertext_len, msg.payload.len());
        assert(ciphertext@ + tag@ =~= msg.payload@);

        if out.len() < ciphertext_len {
            return Err(Error::General("output buffer too small"));
        }
        let nonce = Nonce::new(&self.iv, seq);
        let aad = make_tls13_aad(msg.payload.len());
        let (front, _rest) = out.split_at_mut(ciphertext_len);
        let opened = less_safe_open_gather(
            self.alg,
            self.dec_key.as_slice(),
            nonce.0,
            aad,
            (ciphertext, tag),
            front,
        );
        match opened {
            Ok(_) => {
                assert(out@.take(ciphertext_len as int) =~= aead_opened(
                    self@,
                    seq,
                    msg.payload@,
                )->0);
                Ok(ciphertext_len)
            },
            Err(_) => Err(Error::DecryptError),
        }
    }

    /// Opens the record with sequence number `seq` into `out`.
    ///
    /// Where it fails to authenticate, the room for the plaintext is filled with zero bytes; where
    /// `out` is too small, or the record too short, `out` is left as it was. No byte of `out`
    /// behind the plaintext is touched.
    pub fn decrypt_to<'a>(
        &mut self,
        msg: &InboundOpaqueMessageImmut<'_>,
        seq: u64,
        out: &'a mut [u8],
    ) -> (r: Result<InboundPlainMessage<'a>, Error>)
        requires
            old(self)@.wf(),
        ensures
            final(self)@ == old(self)@,
            agrees(
                r,
                opened_to(
                    msg.payload@.len(),
                    old(out)@.len(),
                    aead_opened(old(self)@, seq, msg.payload@),
                ),
            ),
            final(out)@.len() == old(out)@.len(),
            r matches Ok(m) ==> {
                &&& m.payload@.len() <= old(out)@.len()
                &&& m.payload@ == final(out)@.take(m.payload@.len() as int)
            },
            found_fits(
                msg.payload@.len(),
                old(out)@.len(),
                aead_opened(old(self)@, seq, msg.payload@),
            ),
            final(out)@ == left_in(
                old(out)@,
                msg.payload@.len(),
                aead_opened(old(self)@, seq, msg.payload@),
                true,
            ),
    {
        match self.open_to(msg, seq, out) {
            Err(e) => Err(e),
            Ok(n) => {
                let opened: &'a [u8] = out;
                let plain = vstd::slice::slice_subrange(opened, 0, n);
                assert(plain@ =~= opened@.take(n as int));
                unpad_opened(plain)
            },
        }
    }
}

/// What a TLS record key remembers of the nonces it has sealed with.
///
/// Sequence numbers are counted from the first one that was used, by exclusive or; the count has
/// to increase from one record to the next, and never reaches the largest number.
#[derive(Clone, Copy, Debug)]
pub struct NonceOrder {
    /// The sequence number of the first record.
    pub first: Option<u64>,
    /// The least count that is accepted next.
    pub min_next: u64,
}

impl NonceOrder {
    /// The order of a key that has sealed nothing.
    pub open spec fn fresh() -> Self {
        NonceOrder { first: None, min_next: 0 }
    }

    /// The count that a sequence number stands for.
    pub open spec fn count(self, seq: u64) -> u64 {
        match self.first {
            Some(first) => seq ^ first,
            None => 0,
        }
    }

    /// May a record with this sequence number be sealed?
    pub open spec fn accepts(self, seq: u64) -> bool {
        self.min_next <= self.count(seq) < u64::MAX
    }

    /// The order after a record with this sequence number was sealed, or refused.
    pub open spec fn after(self, seq: u64) -> Self {
        NonceOrder {
            first: match self.first {
                Some(first) => Some(first),
                None => Some(seq),
            },
            min_next: if self.accepts(seq) {
                (self.count(seq) + 1) as u64
            } else {
                self.min_next
            },
        }
    }

    /// The order of a key that has sealed nothing.
    pub fn new() -> (r: Self)
        ensures
            r == NonceOrder::fresh(),
    {
        NonceOrder { first: None, min_next: 0 }
    }

    /// Notes that a record with this sequence number is sealed; says whether it may be.
    pub fn advance(&mut self, seq: u64) -> (r: bool)
        ensures
            r == old(self).accepts(seq),
            *final(self) == old(self).after(seq),
    {
        let count: u64 = match self.first {
            Some(first) => seq ^ first,
            None => {
                self.first = Some(seq);
                0
            },
        };
        if count == u64::MAX || count < self.min_next {
            return false;
        }
        self.min_next = count + 1;
        true
    }
}

/// A TLS record key never seals two records with one sequence number: once a number was accepted,
/// it is refused for good, whatever else is sealed in between.
pub proof fn law_sequence_numbers_are_used_once(order: NonceOrder, seq: u64, others: Seq<u64>)
    requires
        order.accepts(seq),
    ensures
        !order_after(order.after(seq), others).accepts(seq),
    decreases others.len(),
{
    let first = order.after(seq);
    lemma_order_after(first, others);
    if order.first is None {
        assert(seq ^ seq == 0u64) by (bit_vector);
    }
}

/// The order after records with these sequence numbers.
pub open spec fn order_after(order: NonceOrder, others: Seq<u64>) -> NonceOrder
    decreases others.len(),
{
    if others.len() == 0 {
        order
    } else {
        order_after(order, others.drop_last()).after(others.last())
    }
}

proof fn lemma_order_after(order: NonceOrder, others: Seq<u64>)
    requires
        order.first is Some,
    ensures
        order_after(order, others).first == order.first,
        order_after(order, others).min_next >= order.min_next,
    decreases others.len(),
{
    if others.len() > 0 {
        lemma_order_after(order, others.drop_last());
    }
}

/// Encrypts messages with `aead::TlsRecordSealingKey`.
pub struct GcmMessageEncrypter {
    pub alg: Algorithm,
    pub enc_key: AeadKey,
    pub iv: Iv,
    pub order: NonceOrder,
}

impl View for GcmMessageEncrypter {
    type V = KeyView;

    open spec fn view(&self) -> KeyView {
        KeyView { alg: self.alg, key: self.enc_key@, iv: self.iv@ }
    }
}

impl GcmMessageEncrypter {
    /// Encrypts `msg` as the record with sequence number `seq`.
    ///
    /// Refused where sequence numbers do not increase. Other messages of less than 4GB are always
    /// encrypted, and what comes out opens to what went in.
    pub fn encrypt(&mut self, msg: OutboundPlainMessage<'_>, seq: u64) -> (r: Result<
        OutboundOpaqueMessage,
        Error,
    >)
        requires
            old(self)@.wf(),
            old(self).alg.is_gcm(),
            msg@.payload.len() + 1 + TAG_LEN <= usize::MAX,
        ensures
            final(self)@ == old(self)@,
            final(self).order == old(self).order.after(seq),
            match r {
                Ok(m) => {
                    &&& old(self).order.accepts(seq)
                    &&& m.typ == ContentType::ApplicationData
                    &&& m.version == ProtocolVersion::TLSv1_2
                    &&& m.payload@.len() == msg@.payload.len() + 1 + TAG_LEN
                    &&& gcm_sealed(old(self)@, seq, inner_plaintext(msg@)) == Some(m.payload@)
                    &&& gcm_opened(old(self)@, seq, m.payload@) == Some(inner_plaintext(msg@))
                },
                Err(e) => {
                    &&& e == Error::EncryptError
                    &&& !old(self).order.accepts(seq) || gcm_sealed(
                        old(self)@,
                        seq,
                        inner_plaintext(msg@),
                    ) is None
                },
            },
            old(self).order.accepts(seq) && inner_plaintext(msg@).len() < 0x1_0000_0000
                ==> r is Ok,
    {
        let total_len: usize = self.encrypted_payload_len(msg.payload.len());
        let nonce = Nonce::new(&self.iv, seq);
        let aad = make_tls13_aad(total_len);
        let mut payload: Vec<u8> = Vec::new();
        msg.payload.copy_to_vec(&mut payload);
        payload.push(msg.typ.to_byte());
        assert(payload@ =~= inner_plaintext(msg@));

        if !self.order.advance(seq) {
            return Err(Error::EncryptError);
        }
        match tls_record_seal(self.alg, self.enc_key.as_slice(), nonce.0, aad, &mut payload) {
            Ok(_) => Ok(
                OutboundOpaqueMessage::new(
                    ContentType::ApplicationData,
                    ProtocolVersion::TLSv1_2,
                    payload,
                ),
            ),
            Err(_) => Err(Error::EncryptError),
        }
    }

    /// Length of the record payload that a message payload of `payload_len` bytes becomes.
    pub fn encrypted_payload_len(&self, payload_len: usize) -> (r: usize)
        requires
            payload_len + 1 + TAG_LEN <= usize::MAX,
        ensures
            r == payload_len + 1 + TAG_LEN,
    {
        payload_len + 1 + self.alg.tag_len()
    }
}

/// Decrypts messages with `aead::TlsRecordOpeningKey`.
pub struct GcmMessageDecrypter {
    pub alg: Algorithm,
    pub dec_key: AeadKey,
    pub iv: Iv,
}

impl View for GcmMessageDecrypter {
    type V = KeyView;

    open spec fn view(&self) -> KeyView {
        KeyView { alg: self.alg, key: self.dec_key@, iv: self.iv@ }
    }
}

impl GcmMessageDecrypter {
    /// Opens the record with sequence number `seq` where it lies. The tag stays behind what was
    /// found; where the record does not authenticate, all but the tag is cleared.
    pub fn decrypt<'a>(&mut self, msg: InboundOpaqueMessage<'a>, seq: u64) -> (r: Result<
        InboundPlainMessage<'a>,
        Error,
    >)
        requires
            old(self)@.wf(),
            old(self).alg.is_gcm(),
        ensures
            final(self)@ == old(self)@,
            agrees(
                r,
                opened_in_place(
                    old(msg.payload)@.len(),
                    gcm_opened(old(self)@, seq, old(msg.payload)@),
                ),
            ),
            final(msg.payload)@ == left_in(
                old(msg.payload)@,
                old(msg.payload)@.len(),
                gcm_opened(old(self)@, seq, old(msg.payload)@),
                true,
            ),
    {
        let payload: &'a mut [u8] = msg.payload;
        if payload.len() < self.alg.tag_len() {
            return Err(Error::DecryptError);
        }
        let nonce = Nonce::new(&self.iv, seq);
        let aad = make_tls13_aad(payload.len());
        let plain_len: usize = match tls_record_open(
            self.alg,
            self.dec_key.as_slice(),
            nonce.0,
            aad,
            payload,
        ) {
            Ok(n) => n,
            Err(_) => {
                return Err(Error::DecryptError);
            },
        };
        proof {
            let before = old(msg.payload)@;
            let found = gcm_opened(old(self)@, seq, before);
            assert(payload@ =~= payload@.take(plain_len as int) + payload@.skip(plain_len as int));
            assert(payload@ =~= left_in(before, before.len(), found, true));
        }
        let opened: &'a [u8] = payload;
        let plain = vstd::slice::slice_subrange(opened, 0, plain_len);
        assert(plain@ =~= opened@.take(plain_len as int));
        into_tls13_unpadded_message(plain)
    }

    /// Opens the record with sequence number `seq` into `out`; gives the length of what was found,
    /// its content type and padding included.
    fn open_to(
        &mut self,
        msg: &InboundOpaqueMessageImmut<'_>,
        seq: u64,
        out: &mut [u8],
    ) -> (r: Result<usize, Error>)
        requires
            old(self)@.wf(),
            old(self).alg.is_gcm(),
        ensures
            final(self)@ == old(self)@,
            final(self).alg == old(self).alg,
            agrees_inner(
                r,
                opened_inner(
                    msg.payload@.len(),
                    old(out)@.len(),
                    gcm_opened(old(self)@, seq, msg.payload@),
                ),
                final(out)@,
            ),
            final(out)@.len() == old(out)@.len(),
            found_fits(
                msg.payload@.len(),
                old(out)@.len(),
                gcm_opened(old(self)@, seq, msg.payload@),
            ),
            final(out)@ == left_in(
                old(out)@,
                msg.payload@.len(),
                gcm_opened(old(self)@, seq, msg.payload@),
                false,
            ),
    {
        let tag_len: usize = self.alg.tag_len();
        if msg.payload.len() < tag_len {
            return Err(Error::DecryptError);
        }
        let ciphertext_len: usize = msg.payload.len() - tag_len;

        if out.len() < ciphertext_len {
            return Err(Error::General("output buffer too small"));
        }
        let nonce = Nonce::new(&self.iv, seq);
        let aad = make_tls13_aad(msg.payload.len());
        // TLS record keys open in place only, so the record is opened on the side.
        let mut opened: Vec<u8> = vstd::slice::slice_to_vec(msg.payload);
        let plain_len: usize = match tls_record_open(
            self.alg,
            self.dec_key.as_slice(),
            nonce.0,
            aad,
            opened.as_mut_slice(),
        ) {
            Ok(n) => n,
            Err(_) => {
                return Err(Error::DecryptError);
            },
        };
        let plain = vstd::slice::slice_subrange(opened.as_slice(), 0, plain_len);
        assert(plain@ =~= opened@.take(plain_len as int));
        copy_at(out, 0, plain);
        assert(out@.take(plain_len as int) =~= plain@);
        Ok(plain_len)
    }

    /// Opens the record with sequence number `seq` into `out`.
    ///
    /// Where it fails, but for a record that holds nothing but padding, `out` is left as it was.
    /// No byte of `out` behind the plaintext is touched.
    pub fn decrypt_to<'a>(
        &mut self,
        msg: &InboundOpaqueMessageImmut<'_>,
        seq: u64,
        out: &'a mut [u8],
    ) -> (r: Result<InboundPlainMessage<'a>, Error>)
        requires
            old(self)@.wf(),
            old(self).alg.is_gcm(),
        ensures
            final(self)@ == old(self)@,
            agrees(
                r,
                opened_to(
                    msg.payload@.len(),
                    old(out)@.len(),
                    gcm_opened(old(self)@, seq, msg.payload@),
                ),
            ),
            final(out)@.len() == old(out)@.len(),
            r matches Ok(m) ==> {
                &&& m.payload@.len() <= old(out)@.len()
                &&& m.payload@ == final(out)@.take(m.payload@.len() as int)
            },
            found_fits(
                msg.payload@.len(),
                old(out)@.len(),
                gcm_opened(old(self)@, seq, msg.payload@),
            ),
            final(out)@ == left_in(
                old(out)@,
                msg.payload@.len(),
                gcm_opened(old(self)@, seq, msg.payload@),
                false,
            ),
    {
        match self.open_to(msg, seq, out) {
            Err(e) => Err(e),
            Ok(n) => {
                let opened: &'a [u8] = out;
                let plain = vstd::slice::slice_subrange(opened, 0, n);
                assert(plain@ =~= opened@.take(n as int));
                unpad_opened(plain)
            },
        }
    }
}

/// The payload of the record with sequence number `seq` that a key makes of `inner`.
pub open spec fn sealed(key: KeyView, seq: u64, inner: Seq<u8>) -> Option<Seq<u8>> {
    if key.alg.is_gcm() {
        gcm_sealed(key, seq, inner)
    } else {
        aead_sealed(key, seq, inner)
    }
}

/// What a key finds in the payload of the record with sequence number `seq`.
pub open spec fn opened(key: KeyView, seq: u64, payload: Seq<u8>) -> Option<Seq<u8>> {
    if key.alg.is_gcm() {
        gcm_opened(key, seq, payload)
    } else {
        aead_opened(key, seq, payload)
    }
}

/// What is in the buffer `out` after a key was tried on the payload of the record with sequence
/// number `seq`. AES-GCM leaves it alone where the record does not authenticate, the others clear
/// the room for the plaintext.
pub open spec fn buffer_after(key: KeyView, seq: u64, payload: Seq<u8>, out: Seq<u8>) -> Seq<u8> {
    left_in(out, payload.len(), opened(key, seq, payload), !key.alg.is_gcm())
}

/// What the payload of the record with sequence number `seq` is after a key was tried on it where
/// it lies: all that was found, with the tag behind it. Where the record does not authenticate,
/// all but the tag is cleared.
pub open spec fn payload_after(key: KeyView, seq: u64, payload: Seq<u8>) -> Seq<u8> {
    left_in(payload, payload.len(), opened(key, seq, payload), true)
}

/// What an encrypter is: its key, and for AES-GCM the order of the nonces it has used.
#[verifier::ext_equal]
pub struct EncrypterView {
    pub key: KeyView,
    pub order: NonceOrder,
}

impl EncrypterView {
    /// Will a record with this sequence number be sealed?
    pub open spec fn accepts(self, seq: u64) -> bool {
        self.key.alg.is_gcm() ==> self.order.accepts(seq)
    }

    /// The encrypter after it was given a record with this sequence number.
    pub open spec fn after(self, seq: u64) -> Self {
        EncrypterView {
            order: if self.key.alg.is_gcm() {
                self.order.after(seq)
            } else {
                self.order
            },
            ..self
        }
    }
}

/// Encrypts the messages of one direction.
pub enum MessageEncrypter {
    Aead(AeadMessageEncrypter),
    Gcm(GcmMessageEncrypter),
}

impl View for MessageEncrypter {
    type V = EncrypterView;

    open spec fn view(&self) -> EncrypterView {
        match self {
            MessageEncrypter::Aead(e) => EncrypterView { key: e@, order: NonceOrder::fresh() },
            MessageEncrypter::Gcm(e) => EncrypterView { key: e@, order: e.order },
        }
    }
}

impl MessageEncrypter {
    /// Each AEAD has its own kind of encrypter, and the key fits it.
    pub open spec fn wf(&self) -> bool {
        &&& self@.key.wf()
        &&& self is Gcm <==> self@.key.alg.is_gcm()
    }

    /// Encrypts `msg` as the record with sequence number `seq`.
    pub fn encrypt(&mut self, msg: OutboundPlainMessage<'_>, seq: u64) -> (r: Result<
        OutboundOpaqueMessage,
        Error,
    >)
        requires
            old(self).wf(),
            msg@.payload.len() + 1 + TAG_LEN <= usize::MAX,
        ensures
            final(self).wf(),
            final(self)@ == old(self)@.after(seq),
            match r {
                Ok(m) => {
                    &&& old(self)@.accepts(seq)
                    &&& m.typ == ContentType::ApplicationData
                    &&& m.version == ProtocolVersion::TLSv1_2
                    &&& m.payload@.len() == msg@.payload.len() + 1 + TAG_LEN
                    &&& sealed(old(self)@.key, seq, inner_plaintext(msg@)) == Some(m.payload@)
                    &&& opened(old(self)@.key, seq, m.payload@) == Some(inner_plaintext(msg@))
                },
                Err(e) => {
                    &&& e == Error::EncryptError
                    &&& !old(self)@.accepts(seq) || sealed(
                        old(self)@.key,
                        seq,
                        inner_plaintext(msg@),
                    ) is None
                },
            },
            old(self)@.accepts(seq) && inner_plaintext(msg@).len() < 0x1_0000_0000 ==> r is Ok,
    {
        match self {
            MessageEncrypter::Aead(e) => e.encrypt(msg, seq),
            MessageEncrypter::Gcm(e) => e.encrypt(msg, seq),
        }
    }

    /// Length of the record payload that a message payload of `payload_len` bytes becomes.
    pub fn encrypted_payload_len(&self, payload_len: usize) -> (r: usize)
        requires
            payload_len + 1 + TAG_LEN <= usize::MAX,
        ensures
            r == payload_len + 1 + TAG_LEN,
    {
        match self {
            MessageEncrypter::Aead(e) => e.encrypted_payload_len(payload_len),
            MessageEncrypter::Gcm(e) => e.encrypted_payload_len(payload_len),
        }
    }
}

/// Decrypts the messages of one direction.
pub enum MessageDecrypter {
    Aead(AeadMessageDecrypter),
    Gcm(GcmMessageDecrypter),
}

impl View for MessageDecrypter {
    type V = KeyView;

    open spec fn view(&self) -> KeyView {
        match self {
            MessageDecrypter::Aead(d) => d@,
            MessageDecrypter::Gcm(d) => d@,
        }
    }
}

impl MessageDecrypter {
    /// Each AEAD has its own kind of decrypter, and the key fits it.
    pub open spec fn wf(&self) -> bool {
        &&& self@.wf()
        &&& self is Gcm <==> self@.alg.is_gcm()
    }

    /// Opens the record with sequence number `seq` where it lies. The tag stays behind what was
    /// found; where the record does not authenticate, all but the tag is cleared.
    pub fn decrypt<'a>(&mut self, msg: InboundOpaqueMessage<'a>, seq: u64) -> (r: Result<
        InboundPlainMessage<'a>,
        Error,
    >)
        requires
            old(self).wf(),
        ensures
            final(self).wf(),
            final(self)@ == old(self)@,
            agrees(
                r,
                opened_in_place(
                    old(msg.payload)@.len(),
                    opened(old(self)@, seq, old(msg.payload)@),
                ),
            ),
            final(msg.payload)@ == payload_after(old(self)@, seq, old(msg.payload)@),
    {
        match self {
            MessageDecrypter::Aead(d) => d.decrypt(msg, seq),
            MessageDecrypter::Gcm(d) => d.decrypt(msg, seq),
        }
    }

    /// Opens the record with sequence number `seq` into `out`.
    pub fn decrypt_to<'a>(
        &mut self,
        msg: &InboundOpaqueMessageImmut<'_>,
        seq: u64,
        out: &'a mut [u8],
    ) -> (r: Result<InboundPlainMessage<'a>, Error>)
        requires
            old(self).wf(),
        ensures
            final(self).wf(),
            final(self)@ == old(self)@,
            agrees(
                r,
                opened_to(
                    msg.payload@.len(),
                    old(out)@.len(),
                    opened(old(self)@, seq, msg.payload@),
                ),
            ),
            final(out)@.len() == old(out)@.len(),
            r matches Ok(m) ==> {
                &&& m.payload@.len() <= old(out)@.len()
                &&& m.payload@ == final(out)@.take(m.payload@.len() as int)
            },
            found_fits(
                msg.payload@.len(),
                old(out)@.len(),
                opened(old(self)@, seq, msg.payload@),
            ),
            final(out)@ == buffer_after(old(self)@, seq, msg.payload@, old(out)@),
    {
        match self {
            MessageDecrypter::Aead(d) => d.decrypt_to(msg, seq, out),
            MessageDecrypter::Gcm(d) => d.decrypt_to(msg, seq, out),
        }
    }

    /// Opens the record with sequence number `seq` into `out`, on trial: a record that
    /// authenticates and holds nothing but padding is told apart from one that does not
    /// authenticate.
    pub fn try_decrypt_to<'a>(
        &mut self,
        msg: &InboundOpaqueMessageImmut<'_>,
        seq: u64,
        out: &'a mut [u8],
    ) -> (r: Result<InboundPlainMessage<'a>, Error>)
        requires
            old(self).wf(),
        ensures
            final(self).wf(),
            final(self)@ == old(self)@,
            agrees(
                r,
                tried_to(
                    msg.payload@.len(),
                    old(out)@.len(),
                    opened(old(self)@, seq, msg.payload@),
                ),
            ),
            final(out)@.len() == old(out)@.len(),
            r matches Ok(m) ==> {
                &&& m.payload@.len() <= old(out)@.len()
                &&& m.payload@ == final(out)@.take(m.payload@.len() as int)
            },
            final(out)@ == buffer_after(old(self)@, seq, msg.payload@, old(out)@),
    {
        let found = match self {
            MessageDecrypter::Aead(d) => d.open_to(msg, seq, out),
            MessageDecrypter::Gcm(d) => d.open_to(msg, seq, out),
        };
        match found {
            Err(e) => Err(e),
            Ok(n) => {
                let opened: &'a [u8] = out;
                let plain = vstd::slice::slice_subrange(opened, 0, n);
                assert(plain@ =~= opened@.take(n as int));
                match unpad_opened(plain) {
                    Ok(m) => Ok(m),
                    Err(_) => Err(
                        Error::PeerMisbehaved(PeerMisbehaved::IllegalTlsInnerPlaintext),
                    ),
                }
            },
        }
    }
}

/// What was encrypted as a record with some sequence number is what opening that record gives.
/// `payload` is what `encrypt` returned for `msg`: it opens to the inner plaintext.
pub proof fn law_decrypt_to_undoes_encrypt(
    key: KeyView,
    seq: u64,
    msg: PlainMessageView,
    payload: Seq<u8>,
    room: nat,
)
    requires
        payload.len() == msg.payload.len() + 1 + TAG_LEN,
        opened(key, seq, payload) == Some(inner_plaintext(msg)),
        msg.typ.byte() != 0,
        room > msg.payload.len(),
    ensures
        opened_to(payload.len(), room, opened(key, seq, payload)) == Ok::<PlainMessageView, Error>(
            PlainMessageView {
                typ: ContentType::of(msg.typ.byte()),
                version: ProtocolVersion::TLSv1_3,
                payload: msg.payload,
            },
        ),
        msg.payload.len() <= MAX_FRAGMENT_LEN ==> opened_in_place(
            payload.len(),
            opened(key, seq, payload),
        ) == opened_to(payload.len(), room, opened(key, seq, payload)),
{
    let zeros = Seq::new(0, |i: int| 0u8);
    crate::crypto::cipher::law_padding_is_skipped(msg.payload, msg.typ.byte(), 0);
    assert(msg.payload.push(msg.typ.byte()) + zeros =~= inner_plaintext(msg));
    assert(Seq::new(0, |i: int| 0u8) =~= zeros);
}

/// Traffic keys in the form in which they leave the library.
pub enum ConnectionTrafficSecrets {
    Aes128Gcm { key: AeadKey, iv: Iv },
    Aes256Gcm { key: AeadKey, iv: Iv },
    Chacha20Poly1305 { key: AeadKey, iv: Iv },
}

impl View for ConnectionTrafficSecrets {
    type V = KeyView;

    open spec fn view(&self) -> KeyView {
        match self {
            ConnectionTrafficSecrets::Aes128Gcm { key, iv } => KeyView {
                alg: Algorithm::Aes128Gcm,
                key: key@,
                iv: iv@,
            },
            ConnectionTrafficSecrets::Aes256Gcm { key, iv } => KeyView {
                alg: Algorithm::Aes256Gcm,
                key: key@,
                iv: iv@,
            },
            ConnectionTrafficSecrets::Chacha20Poly1305 { key, iv } => KeyView {
                alg: Algorithm::Chacha20Poly1305,
                key: key@,
                iv: iv@,
            },
        }
    }
}

/// The error of an operation that an AEAD does not support.
#[derive(Clone, Copy, Debug, PartialEq, Eq, Structural)]
pub struct UnsupportedOperationError;

impl Algorithm {
    /// An encrypter with the given key, which has to be of the length that this AEAD wants.
    pub fn encrypter(self, key: AeadKey, iv: Iv) -> (r: MessageEncrypter)
        requires
            key@.len() == self.spec_key_len(),
        ensures
            r.wf(),
            r@ == (EncrypterView {
                key: KeyView { alg: self, key: key@, iv: iv@ },
                order: NonceOrder::fresh(),
            }),
    {
        match self {
            Algorithm::Chacha20Poly1305 => MessageEncrypter::Aead(
                AeadMessageEncrypter { alg: self, enc_key: key, iv },
            ),
            _ => MessageEncrypter::Gcm(
                GcmMessageEncrypter { alg: self, enc_key: key, iv, order: NonceOrder::new() },
            ),
        }
    }

    /// A decrypter with the given key, which has to be of the length that this AEAD wants.
    pub fn decrypter(self, key: AeadKey, iv: Iv) -> (r: MessageDecrypter)
        requires
            key@.len() == self.spec_key_len(),
        ensures
            r.wf(),
            r@ == (KeyView { alg: self, key: key@, iv: iv@ }),
    {
        match self {
            Algorithm::Chacha20Poly1305 => MessageDecrypter::Aead(
                AeadMessageDecrypter { alg: self, dec_key: key, iv },
            ),
            _ => MessageDecrypter::Gcm(GcmMessageDecrypter { alg: self, dec_key: key, iv }),
        }
    }

    /// The given key in the form in which it leaves the library.
    pub fn extract_keys(self, key: AeadKey, iv: Iv) -> (r: Result<
        ConnectionTrafficSecrets,
        UnsupportedOperationError,
    >)
        ensures
            r matches Ok(secrets) && secrets@ == (KeyView { alg: self, key: key@, iv: iv@ }),
    {
        match self {
            Algorithm::Chacha20Poly1305 => Ok(
                ConnectionTrafficSecrets::Chacha20Poly1305 { key, iv },
            ),
            Algorithm::Aes128Gcm => Ok(ConnectionTrafficSecrets::Aes128Gcm { key, iv }),
            Algorithm::Aes256Gcm => Ok(ConnectionTrafficSecrets::Aes256Gcm { key, iv }),
        }
    }

    /// Is this AEAD approved by FIPS 140-3, and is `aws-lc-rs` in a mode that provides it?
    ///
    /// ChaCha20-Poly1305 is not approved. For AES-GCM the answer is that of the build, see
    /// [`Algorithm::fips_with`].
    pub fn fips(self) -> (r: bool)
        ensures
            self == Algorithm::Chacha20Poly1305 ==> !r,
    {
        self.fips_with(fips())
    }

    /// Is this AEAD approved by FIPS 140-3, in a build that is a FIPS module or is not?
    pub fn fips_with(self, module: bool) -> (r: bool)
        ensures
            r == (self.is_gcm() && module),
    {
        match self {
            Algorithm::Chacha20Poly1305 => false,
            _ => module,
        }
    }
}

/// Calls `aws_lc_rs::try_fips_mode`: is the library that was linked a FIPS module? Nothing is
/// said of the answer, which is the build's.
#[verifier::external_body]
pub(crate) fn fips() -> (r: bool) {
    aws_lc_rs::try_fips_mode().is_ok()
}

/// A record is sealed and opened with its own nonce and its own header, by the key of its
/// algorithm: a TLS record key for AES-GCM, and a plain key for ChaCha20-Poly1305.
pub proof fn law_records_are_protected_with_their_header(
    key: KeyView,
    seq: u64,
    inner: Seq<u8>,
    payload: Seq<u8>,
)
    requires
        payload.len() == inner.len() + 16,
        payload.len() < 65536,
    ensures
        ({
            let header = crate::msgs::message::record(
                ContentType::ApplicationData,
                ProtocolVersion::TLSv1_2,
                payload,
            ).take(5);
            let number = nonce(key.iv, seq);
            if key.alg == Algorithm::Chacha20Poly1305 {
                &&& sealed(key, seq, inner) == less_safe_sealed(
                    key.alg,
                    key.key,
                    number,
                    header,
                    inner,
                )
                &&& opened(key, seq, payload) == less_safe_opened(
                    key.alg,
                    key.key,
                    number,
                    header,
                    payload,
                )
            } else {
                &&& sealed(key, seq, inner) == tls_record_sealed(
                    key.alg,
                    key.key,
                    number,
                    header,
                    inner,
                )
                &&& opened(key, seq, payload) == tls_record_opened(
                    key.alg,
                    key.key,
                    number,
                    header,
                    payload,
                )
            }
        }),
{
    crate::crypto::cipher::law_aad_is_the_header(payload);
}

/// What is sealed of a message is its payload with the number of its content type behind it.
pub proof fn law_type_stands_behind_the_payload(msg: PlainMessageView)
    ensures
        inner_plaintext(msg).len() == msg.payload.len() + 1,
        inner_plaintext(msg).drop_last() == msg.payload,
        inner_plaintext(msg).last() == msg.typ.byte(),
{
    assert(inner_plaintext(msg).drop_last() =~= msg.payload);
}

/// What a record holds is given, however it is opened, and whatever padding it has: a payload with
/// the number of its content type behind it, of no more than 16384 bytes, comes out as a message of
/// TLS 1.3, wherever there is room for all that was found.
pub proof fn law_opened_message_is_given(payload: Seq<u8>, typ: u8, zeros: nat, room: nat)
    requires
        typ != 0,
        payload.len() + 1 + zeros <= 16385,
        room >= payload.len() + 1 + zeros,
    ensures
        ({
            let found = Some(payload.push(typ) + Seq::new(zeros, |i: int| 0u8));
            let len = payload.len() + 1 + zeros + 16;
            let message = Ok::<PlainMessageView, Error>(
                PlainMessageView {
                    typ: ContentType::of(typ),
                    version: ProtocolVersion::TLSv1_3,
                    payload,
                },
            );
            &&& opened_in_place(len, found) == message
            &&& opened_to(len, room, found) == message
            &&& tried_to(len, room, found) == message
        }),
{
    crate::crypto::cipher::law_padding_is_skipped(payload, typ, zeros);
}

/// What cannot be opened is refused, and each reason has its error: a record that is too short for
/// a tag or does not authenticate, one that holds nothing but padding, one that is larger than the
/// protocol allows where it is opened in place, and one for which the buffer is too small.
pub proof fn law_refused_records_are_told_apart(len: nat, room: nat, found: Option<Seq<u8>>)
    requires
        found matches Some(plain) ==> plain.len() + 16 == len,
    ensures
        ({
            let decrypt = Err::<PlainMessageView, Error>(Error::DecryptError);
            let empty = Err::<PlainMessageView, Error>(
                Error::PeerMisbehaved(PeerMisbehaved::IllegalTlsInnerPlaintext),
            );
            let large = Err::<PlainMessageView, Error>(Error::PeerSentOversizedRecord);
            let small = Err::<PlainMessageView, Error>(Error::General("output buffer too small"));
            let padding = found is Some && forall|i: int|
                0 <= i < found->0.len() ==> found->0[i] == 0;
            &&& opened_in_place(len, found) == decrypt <==> found is None
            &&& opened_in_place(len, found) == large <==> found is Some && found->0.len() > 16385
            &&& opened_in_place(len, found) == empty <==> padding && found->0.len() <= 16385
            &&& opened_to(len, room, found) == small <==> len > room + 16
            &&& opened_to(len, room, found) == decrypt <==> len <= room + 16 && (found is None
                || padding)
            &&& tried_to(len, room, found) == small <==> len > room + 16
            &&& tried_to(len, room, found) == decrypt <==> len <= room + 16 && found is None
            &&& tried_to(len, room, found) == empty <==> len <= room + 16 && padding
        }),
{
    if let Some(plain) = found {
        crate::crypto::cipher::law_only_padding_holds_nothing(plain);
        crate::crypto::cipher::lemma_unpadded_len(plain);
    }
}

/// A payload that is shorter than a tag is not tried, and nothing is written.
pub proof fn law_short_records_are_not_tried(
    len: nat,
    room: nat,
    found: Option<Seq<u8>>,
    out: Seq<u8>,
    clears: bool,
)
    requires
        len < 16,
    ensures
        opened_in_place(len, found) == Err::<PlainMessageView, Error>(Error::DecryptError),
        opened_to(len, room, found) == Err::<PlainMessageView, Error>(Error::DecryptError),
        tried_to(len, room, found) == Err::<PlainMessageView, Error>(Error::DecryptError),
        left_in(out, len, found, clears) == out,
{
}

/// What was found lies at the front of the buffer, and the rest of the buffer is what it was. Where
/// nothing was found the room for it is cleared, or all is left alone; where there was no room,
/// nothing is touched.
pub proof fn law_what_was_found_lies_in_front(
    out: Seq<u8>,
    len: nat,
    found: Option<Seq<u8>>,
    clears: bool,
)
    requires
        len >= 16,
        found matches Some(plain) ==> plain.len() + 16 == len,
    ensures
        out.len() + 16 < len ==> left_in(out, len, found, clears) == out,
        out.len() + 16 >= len ==> left_in(out, len, found, clears) == (match found {
            Some(plain) => plain,
            None => if clears {
                Seq::new((len - 16) as nat, |i: int| 0u8)
            } else {
                out.take(len - 16)
            },
        }) + out.skip(len - 16),
{
    if out.len() + 16 >= len {
        assert(left_in(out, len, found, clears) =~= (match found {
            Some(plain) => plain,
            None => if clears {
                Seq::new((len - 16) as nat, |i: int| 0u8)
            } else {
                out.take(len - 16)
            },
        }) + out.skip(len - 16));
    }
}

/// Trying a key on a record leaves what was found with that key and that sequence number: in the
/// buffer, where there is one, and in the payload itself, where the record is opened in place. Of
/// the algorithms, only AES-GCM leaves the buffer alone where nothing was found.
pub proof fn law_trying_a_key_leaves_what_it_found(
    key: KeyView,
    seq: u64,
    payload: Seq<u8>,
    out: Seq<u8>,
)
    ensures
        buffer_after(key, seq, payload, out) == left_in(
            out,
            payload.len(),
            opened(key, seq, payload),
            key.alg == Algorithm::Chacha20Poly1305,
        ),
        payload_after(key, seq, payload) == left_in(
            payload,
            payload.len(),
            opened(key, seq, payload),
            true,
        ),
{
}

/// The result of opening a record says what was to be said: the same message, or the same error.
pub proof fn law_results_say_what_was_found(
    r: Result<InboundPlainMessage<'_>, Error>,
    expected: Result<PlainMessageView, Error>,
)
    requires
        agrees(r, expected),
    ensures
        r is Ok <==> expected is Ok,
        r matches Ok(m) ==> {
            &&& m.typ == expected->Ok_0.typ
            &&& m.version == expected->Ok_0.version
            &&& m.payload@ == expected->Ok_0.payload
        },
        r matches Err(e) ==> expected == Err::<PlainMessageView, Error>(e),
{
}

/// The nonces of a TLS record key only increase, counted from its first one: a fresh key takes any
/// sequence number, and after it has taken one, exactly those that count more; but never the largest
/// count. One that was refused changes nothing for a key that is in use.
pub proof fn law_nonces_only_increase(order: NonceOrder, seq: u64, later: u64)
    requires
        order.first is None ==> order.min_next == 0,
    ensures
        order.first is None ==> order.accepts(seq),
        order.accepts(seq) ==> ({
            let first = match order.first {
                Some(first) => first,
                None => seq,
            };
            &&& order.after(seq).first == Some(first)
            &&& order.after(seq).accepts(later) <==> (seq ^ first) < (later ^ first) < u64::MAX
        }),
        order.first is Some && !order.accepts(seq) ==> order.after(seq) == order,
{
    assert(seq ^ seq == 0) by (bit_vector);
}

} // verus!
