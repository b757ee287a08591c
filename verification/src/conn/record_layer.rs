//! The record layer: the keys of both directions and the sequence numbers of their records.

use vstd::prelude::*;

use crate::crypto::aead::TAG_LEN;
use crate::crypto::tls13::{
    agrees, buffer_after, inner_plaintext, opened, opened_in_place, opened_to, payload_after,
    sealed, tried_to, EncrypterView, KeyView, MessageDecrypter, MessageEncrypter, NonceOrder,
};
use crate::enums::{ContentType, ProtocolVersion};
use crate::error::Error;
use crate::msgs::message::{
    record, InboundOpaqueMessage, InboundOpaqueMessageImmut, InboundPlainMessage,
    OutboundPlainMessage, PlainMessageView, HEADER_LEN, MAX_FRAGMENT_LEN,
};

verus! {

/// From this sequence number on a key should be replaced.
pub const SEQ_SOFT_LIMIT: u64 = 0xffff_ffff_ffff_0000;

/// From this sequence number on nothing is encrypted any more.
pub const SEQ_HARD_LIMIT: u64 = 0xffff_ffff_ffff_fffe;

/// What a record layer is.
#[verifier::ext_equal]
pub struct RecordLayerView {
    /// The key of outgoing records, once they are encrypted.
    pub encrypter: Option<EncrypterView>,
    /// The key of incoming records, once they are encrypted.
    pub decrypter: Option<KeyView>,
    /// The sequence number at which the outgoing key is due to be replaced.
    pub write_seq_max: u64,
    /// The sequence number of the next outgoing record.
    pub write_seq: u64,
    /// The sequence number of the next incoming record.
    pub read_seq: u64,
    /// Was any incoming record decrypted yet?
    pub has_decrypted: bool,
}

/// What is to be done before a record is encrypted.
#[derive(Clone, Copy, Debug, PartialEq, Eq, Structural)]
pub enum PreEncryptAction {
    Nothing,
    RefreshOrClose,
    Refuse,
}

impl RecordLayerView {
    /// Are the sequence numbers of the outgoing key used up?
    pub open spec fn exhausted(self) -> bool {
        self.write_seq >= SEQ_HARD_LIMIT
    }

    /// What is to be done before `add` more records than the next one are encrypted.
    pub open spec fn pre_encrypt_action(self, add: nat) -> PreEncryptAction {
        if self.write_seq + add == self.write_seq_max {
            PreEncryptAction::RefreshOrClose
        } else if self.write_seq + add >= SEQ_HARD_LIMIT {
            PreEncryptAction::Refuse
        } else {
            PreEncryptAction::Nothing
        }
    }

    /// The bytes of the record that `msg` is encrypted as.
    pub open spec fn encrypted(self, msg: PlainMessageView) -> Seq<u8> {
        record(
            ContentType::ApplicationData,
            ProtocolVersion::TLSv1_2,
            sealed(self.encrypter->0.key, self.write_seq, inner_plaintext(msg))->0,
        )
    }

    /// The record layer after one more record was encrypted.
    pub open spec fn after_encrypt(self) -> Self {
        RecordLayerView {
            encrypter: Some(self.encrypter->0.after(self.write_seq)),
            write_seq: (self.write_seq + 1) as u64,
            ..self
        }
    }

    /// The record layer after one more record was decrypted.
    pub open spec fn after_decrypt(self) -> Self {
        RecordLayerView { read_seq: (self.read_seq + 1) as u64, has_decrypted: true, ..self }
    }

    /// What opening a record in place gives. The last sequence number is never used.
    pub open spec fn incoming(self, payload: Seq<u8>) -> Result<PlainMessageView, Error> {
        if self.read_seq == u64::MAX {
            Err(Error::DecryptError)
        } else {
            opened_in_place(payload.len(), opened(self.decrypter->0, self.read_seq, payload))
        }
    }

    /// What opening a record into a buffer of `room` bytes gives. The last sequence number is
    /// never used.
    pub open spec fn incoming_to(self, payload: Seq<u8>, room: nat) -> Result<
        PlainMessageView,
        Error,
    > {
        if self.read_seq == u64::MAX {
            Err(Error::DecryptError)
        } else {
            opened_to(payload.len(), room, opened(self.decrypter->0, self.read_seq, payload))
        }
    }

    /// What opening a record in place makes of its payload.
    pub open spec fn incoming_after(self, payload: Seq<u8>) -> Seq<u8> {
        if self.read_seq == u64::MAX {
            payload
        } else {
            payload_after(self.decrypter->0, self.read_seq, payload)
        }
    }

    /// What opening a record into the buffer `out` leaves there.
    pub open spec fn incoming_left(self, payload: Seq<u8>, out: Seq<u8>) -> Seq<u8> {
        if self.read_seq == u64::MAX {
            out
        } else {
            buffer_after(self.decrypter->0, self.read_seq, payload, out)
        }
    }

    /// The record layer with a new outgoing key, which is good for `max` records.
    pub open spec fn with_encrypter(self, key: KeyView, max: u64) -> Self {
        RecordLayerView {
            encrypter: Some(EncrypterView { key, order: NonceOrder::fresh() }),
            write_seq: 0,
            write_seq_max: if max < SEQ_SOFT_LIMIT {
                max
            } else {
                SEQ_SOFT_LIMIT
            },
            ..self
        }
    }

    /// The record layer with a new incoming key.
    pub open spec fn with_decrypter(self, key: KeyView) -> Self {
        RecordLayerView { decrypter: Some(key), read_seq: 0, ..self }
    }

    /// A record layer that neither encrypts nor decrypts.
    pub open spec fn initial() -> Self {
        RecordLayerView {
            encrypter: None,
            decrypter: None,
            write_seq_max: 0,
            write_seq: 0,
            read_seq: 0,
            has_decrypted: false,
        }
    }
}

/// Has the encrypter seen exactly the records before `write_seq`?
pub open spec fn in_step(encrypter: EncrypterView, write_seq: u64) -> bool {
    encrypter.key.alg.is_gcm() ==> if write_seq == 0 {
        encrypter.order == NonceOrder::fresh()
    } else {
        encrypter.order == NonceOrder { first: Some(0), min_next: write_seq }
    }
}

proof fn lemma_in_step(encrypter: EncrypterView, write_seq: u64)
    requires
        in_step(encrypter, write_seq),
        write_seq < SEQ_HARD_LIMIT,
    ensures
        encrypter.accepts(write_seq),
        in_step(encrypter.after(write_seq), (write_seq + 1) as u64),
{
    assert(write_seq ^ 0u64 == write_seq) by (bit_vector);
}

/// The keys of both directions and the sequence numbers of their records.
pub struct RecordLayer {
    pub message_encrypter: Option<MessageEncrypter>,
    pub message_decrypter: Option<MessageDecrypter>,
    pub write_seq_max: u64,
    pub write_seq: u64,
    pub read_seq: u64,
    pub has_decrypted: bool,
}

impl View for RecordLayer {
    type V = RecordLayerView;

    open spec fn view(&self) -> RecordLayerView {
        RecordLayerView {
            encrypter: match self.message_encrypter {
                Some(e) => Some(e@),
                None => None,
            },
            decrypter: match self.message_decrypter {
                Some(d) => Some(d@),
                None => None,
            },
            write_seq_max: self.write_seq_max,
            write_seq: self.write_seq,
            read_seq: self.read_seq,
            has_decrypted: self.has_decrypted,
        }
    }
}

impl RecordLayer {
    /// The keys fit their algorithms, the encrypter is in step with the sequence number, and a
    /// key is due to be replaced before its sequence numbers are used up.
    pub open spec fn wf(&self) -> bool {
        &&& self.message_encrypter matches Some(e) ==> e.wf() && in_step(e@, self.write_seq)
        &&& self.message_decrypter matches Some(d) ==> d.wf()
        &&& self.write_seq_max <= SEQ_SOFT_LIMIT
    }

    /// A record layer that neither encrypts nor decrypts.
    pub fn new() -> (r: Self)
        ensures
            r.wf(),
            r@ == RecordLayerView::initial(),
    {
        Self {
            message_encrypter: None,
            message_decrypter: None,
            write_seq_max: 0,
            write_seq: 0,
            read_seq: 0,
            has_decrypted: false,
        }
    }

    /// Are outgoing records encrypted?
    pub fn is_encrypting(&self) -> (r: bool)
        ensures
            r == (self@.encrypter is Some),
    {
        match self.message_encrypter {
            Some(_) => true,
            None => false,
        }
    }

    /// Are incoming records encrypted?
    pub fn is_decrypting(&self) -> (r: bool)
        ensures
            r == (self@.decrypter is Some),
    {
        match self.message_decrypter {
            Some(_) => true,
            None => false,
        }
    }

    /// The sequence number of the next incoming record.
    pub fn read_seq(&self) -> (r: u64)
        ensures
            r == self@.read_seq,
    {
        self.read_seq
    }

    /// What is to be done before `add` more records than the next one are encrypted.
    pub fn pre_encrypt_action(&self, add: u64) -> (r: PreEncryptAction)
        requires
            self.wf(),
        ensures
            r == self@.pre_encrypt_action(add as nat),
    {
        let seq: u64 = self.write_seq.saturating_add(add);
        if seq == self.write_seq_max {
            PreEncryptAction::RefreshOrClose
        } else if seq >= SEQ_HARD_LIMIT {
            PreEncryptAction::Refuse
        } else {
            PreEncryptAction::Nothing
        }
    }

    /// Length of the record that a message payload of `payload_len` bytes is encrypted as.
    pub fn encrypted_len(&self, payload_len: usize) -> (r: usize)
        requires
            self@.encrypter is Some,
            payload_len <= MAX_FRAGMENT_LEN,
        ensures
            r == HEADER_LEN + payload_len + 1 + TAG_LEN,
    {
        match &self.message_encrypter {
            Some(e) => HEADER_LEN + e.encrypted_payload_len(payload_len),
            None => 0,
        }
    }

    /// Encrypts a message that fits into one record; gives the bytes of the record.
    ///
    /// What the record holds opens to the message again.
    pub fn encrypt_outgoing(&mut self, plain: OutboundPlainMessage<'_>) -> (r: Vec<u8>)
        requires
            old(self).wf(),
            old(self)@.encrypter is Some,
            !old(self)@.exhausted(),
            plain@.payload.len() <= MAX_FRAGMENT_LEN,
        ensures
            final(self).wf(),
            final(self)@ == old(self)@.after_encrypt(),
            r@ == old(self)@.encrypted(plain@),
            r@.len() == HEADER_LEN + plain@.payload.len() + 1 + TAG_LEN,
            opened(old(self)@.encrypter->0.key, old(self)@.write_seq, r@.skip(HEADER_LEN as int))
                == Some(inner_plaintext(plain@)),
    {
        proof {
            lemma_in_step(self@.encrypter->0, self.write_seq);
        }
        let seq: u64 = self.write_seq;
        self.write_seq = seq + 1;
        match &mut self.message_encrypter {
            Some(e) => match e.encrypt(plain, seq) {
                Ok(m) => {
                    let ghost payload = m.payload@;
                    let bytes = m.encode();
                    assert(bytes@.skip(HEADER_LEN as int) =~= payload);
                    bytes
                },
                Err(_) => Vec::new(),
            },
            None => Vec::new(),
        }
    }

    /// Opens an incoming record where it lies. Where that fails nothing changes but its payload.
    pub fn decrypt_incoming<'a>(&mut self, encr: InboundOpaqueMessage<'a>) -> (r: Result<
        InboundPlainMessage<'a>,
        Error,
    >)
        requires
            old(self).wf(),
            old(self)@.decrypter is Some,
        ensures
            final(self).wf(),
            agrees(r, old(self)@.incoming(old(encr.payload)@)),
            final(encr.payload)@ == old(self)@.incoming_after(old(encr.payload)@),
            final(self)@ == (if r is Ok {
                old(self)@.after_decrypt()
            } else {
                old(self)@
            }),
    {
        if self.read_seq == u64::MAX {
            return Err(Error::DecryptError);
        }
        let r = match &mut self.message_decrypter {
            Some(d) => d.decrypt(encr, self.read_seq),
            None => Err(Error::DecryptError),
        };
        if r.is_ok() {
            self.read_seq += 1;
            self.has_decrypted = true;
        }
        r
    }

    /// Opens an incoming record into `out`. Where that fails nothing changes but `out`.
    pub fn decrypt_incoming_to<'a>(
        &mut self,
        encr: &InboundOpaqueMessageImmut<'_>,
        out: &'a mut [u8],
    ) -> (r: Result<InboundPlainMessage<'a>, Error>)
        requires
            old(self).wf(),
            old(self)@.decrypter is Some,
        ensures
            final(self).wf(),
            agrees(r, old(self)@.incoming_to(encr.payload@, old(out)@.len())),
            final(self)@ == (if r is Ok {
                old(self)@.after_decrypt()
            } else {
                old(self)@
            }),
            final(out)@.len() == old(out)@.len(),
            final(out)@ == old(self)@.incoming_left(encr.payload@, old(out)@),
            r matches Ok(m) ==> {
                &&& m.payload@.len() <= old(out)@.len()
                &&& m.payload@ == final(out)@.take(m.payload@.len() as int)
            },
    {
        if self.read_seq == u64::MAX {
            return Err(Error::DecryptError);
        }
        let r = match &mut self.message_decrypter {
            Some(d) => d.decrypt_to(encr, self.read_seq, out),
            None => Err(Error::DecryptError),
        };
        if r.is_ok() {
            self.read_seq += 1;
            self.has_decrypted = true;
        }
        r
    }

    /// Tries to open a record as the one with sequence number `seq`, into `out`. There is nothing
    /// to try with while incoming records are not encrypted. The record layer does not change.
    pub fn try_decrypt_incoming_to_at<'a>(
        &mut self,
        encr: &InboundOpaqueMessageImmut<'_>,
        seq: u64,
        out: &'a mut [u8],
    ) -> (r: Result<Option<InboundPlainMessage<'a>>, Error>)
        requires
            old(self).wf(),
        ensures
            final(self).wf(),
            final(self)@ == old(self)@,
            final(out)@.len() == old(out)@.len(),
            final(out)@ == (match old(self)@.decrypter {
                None => old(out)@,
                Some(key) => buffer_after(key, seq, encr.payload@, old(out)@),
            }),
            match old(self)@.decrypter {
                None => r matches Ok(None),
                Some(key) => match tried_to(
                    encr.payload@.len(),
                    old(out)@.len(),
                    opened(key, seq, encr.payload@),
                ) {
                    Ok(v) => {
                        &&& r matches Ok(Some(m))
                        &&& m@ == v
                        &&& v.payload.len() <= old(out)@.len()
                        &&& final(out)@.take(v.payload.len() as int) == v.payload
                    },
                    Err(e) => r matches Err(f) && e == f,
                },
            },
    {
        match &mut self.message_decrypter {
            Some(d) => match d.try_decrypt_to(encr, seq, out) {
                Ok(m) => Ok(Some(m)),
                Err(e) => Err(e),
            },
            None => Ok(None),
        }
    }

    /// Sets the sequence number of the next incoming record.
    pub fn commit_read_seq_after_decrypt(&mut self, next_seq: u64)
        requires
            old(self).wf(),
        ensures
            final(self).wf(),
            final(self)@ == (RecordLayerView { read_seq: next_seq, ..old(self)@ }),
    {
        self.read_seq = next_seq;
    }

    /// Takes a new outgoing key, which is good for `max_messages` records.
    pub fn set_message_encrypter(&mut self, encrypter: MessageEncrypter, max_messages: u64)
        requires
            old(self).wf(),
            encrypter.wf(),
            encrypter@.order == NonceOrder::fresh(),
        ensures
            final(self).wf(),
            final(self)@ == old(self)@.with_encrypter(encrypter@.key, max_messages),
    {
        self.message_encrypter = Some(encrypter);
        self.write_seq = 0;
        self.write_seq_max = if max_messages < SEQ_SOFT_LIMIT {
            max_messages
        } else {
            SEQ_SOFT_LIMIT
        };
    }

    /// Takes a new incoming key.
    pub fn set_message_decrypter(&mut self, decrypter: MessageDecrypter)
        requires
            old(self).wf(),
            decrypter.wf(),
        ensures
            final(self).wf(),
            final(self)@ == old(self)@.with_decrypter(decrypter@),
    {
        self.message_decrypter = Some(decrypter);
        self.read_seq = 0;
    }
}

/// A message goes out as a record of application data of TLS 1.2, whatever it is: sealed with the
/// outgoing key and the next sequence number, with the number of its content type behind its
/// payload. The number after it is next, and nothing else changes but the order of nonces.
pub proof fn law_messages_go_out_sealed(layer: RecordLayerView, msg: PlainMessageView)
    requires
        layer.encrypter is Some,
        layer.write_seq < u64::MAX,
    ensures
        layer.encrypted(msg) == record(
            ContentType::ApplicationData,
            ProtocolVersion::TLSv1_2,
            sealed(layer.encrypter->0.key, layer.write_seq, msg.payload.push(msg.typ.byte()))->0,
        ),
        layer.after_encrypt().encrypter is Some,
        layer.after_encrypt().encrypter->0.key == layer.encrypter->0.key,
        layer.after_encrypt() == (RecordLayerView {
            write_seq: (layer.write_seq + 1) as u64,
            encrypter: layer.after_encrypt().encrypter,
            ..layer
        }),
{
}

/// A record comes in with the incoming key and the next sequence number, as long as that is not the
/// last number there is. Once a record was opened, the number after it is next, and nothing else
/// changes.
pub proof fn law_records_come_in_by_number(layer: RecordLayerView, payload: Seq<u8>, out: Seq<u8>)
    requires
        layer.decrypter is Some,
    ensures
        ({
            let found = opened(layer.decrypter->0, layer.read_seq, payload);
            let refused = Err::<PlainMessageView, Error>(Error::DecryptError);
            if layer.read_seq < 0xffff_ffff_ffff_ffff {
                &&& layer.incoming(payload) == opened_in_place(payload.len(), found)
                &&& layer.incoming_to(payload, out.len()) == opened_to(
                    payload.len(),
                    out.len(),
                    found,
                )
                &&& layer.incoming_after(payload) == payload_after(
                    layer.decrypter->0,
                    layer.read_seq,
                    payload,
                )
                &&& layer.incoming_left(payload, out) == buffer_after(
                    layer.decrypter->0,
                    layer.read_seq,
                    payload,
                    out,
                )
                &&& layer.after_decrypt() == (RecordLayerView {
                    read_seq: (layer.read_seq + 1) as u64,
                    has_decrypted: true,
                    ..layer
                })
            } else {
                &&& layer.incoming(payload) == refused
                &&& layer.incoming_to(payload, out.len()) == refused
                &&& layer.incoming_after(payload) == payload
                &&& layer.incoming_left(payload, out) == out
            }
        }),
{
}

/// A new key starts at sequence number zero and touches the other direction in nothing. An outgoing
/// key is due to be replaced after as many records as it is good for, and in any case 65534 records
/// before its numbers are used up.
pub proof fn law_new_keys_start_at_zero(layer: RecordLayerView, key: KeyView, max: u64)
    ensures
        ({
            let out = layer.with_encrypter(key, max);
            let into = layer.with_decrypter(key);
            &&& out.encrypter is Some
            &&& out.encrypter->0.key == key
            &&& forall|seq: u64| seq < u64::MAX ==> #[trigger] out.encrypter->0.accepts(seq)
            &&& out.write_seq == 0
            &&& out.write_seq_max == (if max < 0xffff_ffff_ffff_0000 {
                max
            } else {
                0xffff_ffff_ffff_0000
            })
            &&& out.decrypter == layer.decrypter
            &&& out.read_seq == layer.read_seq
            &&& out.has_decrypted == layer.has_decrypted
            &&& into == (RecordLayerView { decrypter: Some(key), read_seq: 0, ..layer })
        }),
{
}

/// Before a record is encrypted a key may be due to be replaced, which is at exactly one sequence
/// number; the last two numbers are not used any more.
pub proof fn law_limits_of_a_key(layer: RecordLayerView, add: nat)
    ensures
        layer.pre_encrypt_action(add) == PreEncryptAction::RefreshOrClose <==> layer.write_seq
            + add == layer.write_seq_max,
        layer.pre_encrypt_action(add) == PreEncryptAction::Refuse <==> layer.write_seq + add
            != layer.write_seq_max && layer.write_seq + add >= 0xffff_ffff_ffff_fffe,
        layer.exhausted() <==> layer.write_seq >= 0xffff_ffff_ffff_fffe,
{
}

/// A record layer starts without keys, with both sequence numbers at zero.
pub proof fn law_record_layer_starts_without_keys()
    ensures
        ({
            let layer = RecordLayerView::initial();
            &&& layer.encrypter is None
            &&& layer.decrypter is None
            &&& layer.write_seq == 0
            &&& layer.read_seq == 0
            &&& !layer.has_decrypted
        }),
{
}

} // verus!
