//! The parts that every TLS 1.3 record protection shares: keys, nonces, additional data and the
//! padding of the inner plaintext.

use vstd::prelude::*;

use crate::crypto::aead::{AAD_LEN, NONCE_LEN};
use crate::enums::{ContentType, ProtocolVersion};
use crate::msgs::message::record;

verus! {

/// A traffic key.
pub struct AeadKey {
    pub bytes: Vec<u8>,
}

impl View for AeadKey {
    type V = Seq<u8>;

    open spec fn view(&self) -> Seq<u8> {
        self.bytes@
    }
}

impl AeadKey {
    /// A key that is made of these bytes.
    pub fn new(bytes: &[u8]) -> (r: Self)
        ensures
            r@ == bytes@,
    {
        AeadKey { bytes: vstd::slice::slice_to_vec(bytes) }
    }

    /// The bytes of the key.
    pub fn as_slice(&self) -> (r: &[u8])
        ensures
            r@ == self@,
    {
        self.bytes.as_slice()
    }
}

/// The initialisation vector that goes with a traffic key.
#[derive(Clone, Copy, Debug)]
pub struct Iv(pub [u8; NONCE_LEN]);

impl View for Iv {
    type V = Seq<u8>;

    open spec fn view(&self) -> Seq<u8> {
        self.0@
    }
}

impl Iv {
    /// An initialisation vector that is made of these bytes.
    pub fn new(value: [u8; NONCE_LEN]) -> (r: Self)
        ensures
            r@ == value@,
    {
        Iv(value)
    }

    /// The first bytes of `value`, as an initialisation vector.
    pub fn copy(value: &[u8]) -> (r: Self)
        requires
            value@.len() == NONCE_LEN,
        ensures
            r@ == value@,
    {
        let mut iv: [u8; NONCE_LEN] = [0u8; NONCE_LEN];
        let mut i: usize = 0;
        while i < NONCE_LEN
            invariant
                i <= NONCE_LEN,
                value@.len() == NONCE_LEN,
                forall|j: int| 0 <= j < i ==> iv@[j] == value@[j],
            decreases NONCE_LEN - i,
        {
            iv[i] = value[i];
            i += 1;
        }
        assert(iv@ =~= value@);
        Iv(iv)
    }
}

/// Byte `i` of the nonce that a sequence number makes: four zero bytes, then the number, the
/// most significant byte first.
pub open spec fn seq_byte(seq: u64, i: int) -> u8 {
    if i < 4 {
        0
    } else {
        ((seq >> ((8 * (11 - i)) as u64)) & 0xff) as u8
    }
}

/// The nonce of the record with the given sequence number: the initialisation vector, with the
/// number folded in.
pub open spec fn nonce(iv: Seq<u8>, seq: u64) -> Seq<u8> {
    Seq::new(NONCE_LEN as nat, |i: int| iv[i] ^ seq_byte(seq, i))
}

/// The nonce of a record.
pub struct Nonce(pub [u8; NONCE_LEN]);

impl Nonce {
    /// The nonce for the record with sequence number `seq`.
    pub fn new(iv: &Iv, seq: u64) -> (r: Self)
        ensures
            r.0@ == nonce(iv@, seq),
    {
        let mut bytes: [u8; NONCE_LEN] = iv.0;
        let mut i: usize = 4;
        while i < NONCE_LEN
            invariant
                4 <= i <= NONCE_LEN,
                forall|j: int| 4 <= j < i ==> bytes@[j] == iv@[j] ^ seq_byte(seq, j),
                forall|j: int| 0 <= j < 4 ==> bytes@[j] == iv@[j],
                forall|j: int| i <= j < NONCE_LEN ==> bytes@[j] == iv@[j],
            decreases NONCE_LEN - i,
        {
            let shift: u64 = 8 * (11 - i as u64);
            let b: u8 = ((seq >> shift) & 0xff) as u8;
            bytes[i] = bytes[i] ^ b;
            i += 1;
        }
        proof {
            assert forall|j: int| 0 <= j < NONCE_LEN implies bytes@[j] == nonce(iv@, seq)[j] by {
                let b = iv@[j];
                assert(b ^ 0u8 == b) by (bit_vector);
            }
            assert(bytes@ =~= nonce(iv@, seq));
        }
        Nonce(bytes)
    }
}

/// No two records under one key get the same nonce.
pub proof fn law_nonce_unique(iv: Seq<u8>, a: u64, b: u64)
    requires
        a != b,
    ensures
        nonce(iv, a) != nonce(iv, b),
{
    if nonce(iv, a) == nonce(iv, b) {
        assert forall|i: int| 4 <= i < 12 implies #[trigger] seq_byte(a, i) == seq_byte(b, i) by {
            let v = iv[i];
            let x = seq_byte(a, i);
            let y = seq_byte(b, i);
            assert(nonce(iv, a)[i] == v ^ x);
            assert(nonce(iv, b)[i] == v ^ y);
            assert(v ^ x == v ^ y ==> x == y) by (bit_vector);
        }
        assert(seq_byte(a, 4) == seq_byte(b, 4));
        assert(seq_byte(a, 5) == seq_byte(b, 5));
        assert(seq_byte(a, 6) == seq_byte(b, 6));
        assert(seq_byte(a, 7) == seq_byte(b, 7));
        assert(seq_byte(a, 8) == seq_byte(b, 8));
        assert(seq_byte(a, 9) == seq_byte(b, 9));
        assert(seq_byte(a, 10) == seq_byte(b, 10));
        assert(seq_byte(a, 11) == seq_byte(b, 11));
        assert(a == b) by (bit_vector)
            requires
                ((a >> 56) & 0xff) as u8 == ((b >> 56) & 0xff) as u8,
                ((a >> 48) & 0xff) as u8 == ((b >> 48) & 0xff) as u8,
                ((a >> 40) & 0xff) as u8 == ((b >> 40) & 0xff) as u8,
                ((a >> 32) & 0xff) as u8 == ((b >> 32) & 0xff) as u8,
                ((a >> 24) & 0xff) as u8 == ((b >> 24) & 0xff) as u8,
                ((a >> 16) & 0xff) as u8 == ((b >> 16) & 0xff) as u8,
                ((a >> 8) & 0xff) as u8 == ((b >> 8) & 0xff) as u8,
                ((a >> 0) & 0xff) as u8 == ((b >> 0) & 0xff) as u8,
        ;
    }
}

/// The header that a record with an encrypted payload of `len` bytes has: application data of
/// TLS 1.2, whatever is inside. It is what the record authenticates besides its payload.
pub open spec fn tls13_aad(len: nat) -> Seq<u8> {
    seq![0x17u8, 0x03u8, 0x03u8, ((len / 256) % 256) as u8, (len % 256) as u8]
}

/// The additional data of a record with an encrypted payload of `len` bytes.
pub fn make_tls13_aad(len: usize) -> (r: [u8; AAD_LEN])
    ensures
        r@ == tls13_aad(len as nat),
{
    let r: [u8; AAD_LEN] = [0x17, 0x03, 0x03, ((len / 256) % 256) as u8, (len % 256) as u8];
    assert(r@ =~= tls13_aad(len as nat));
    r
}

/// Length of `data` without the zero bytes at its end.
pub open spec fn unpadded_len(data: Seq<u8>) -> nat
    decreases data.len(),
{
    if data.len() == 0 {
        0
    } else if data.last() != 0 {
        data.len()
    } else {
        unpadded_len(data.drop_last())
    }
}

/// The inner plaintext of a record: the payload, the byte of its content type, and any number of
/// zero bytes. There is none where all bytes are zero.
pub open spec fn unpadded(data: Seq<u8>) -> Option<(ContentType, Seq<u8>)> {
    let n = unpadded_len(data);
    if n == 0 {
        None
    } else {
        Some((ContentType::of(data[n - 1]), data.take(n - 1)))
    }
}

/// Length of `data` up to and with its last byte that is not zero.
pub fn find_unpadded_len(data: &[u8]) -> (r: usize)
    ensures
        r == unpadded_len(data@),
        r <= data@.len(),
        r > 0 ==> data@[r - 1] != 0,
{
    let mut n: usize = data.len();
    assert(data@.take(n as int) =~= data@);
    while n > 0 && data[n - 1] == 0
        invariant
            n <= data@.len(),
            unpadded_len(data@) == unpadded_len(data@.take(n as int)),
        decreases n,
    {
        assert(data@.take(n as int).drop_last() =~= data@.take(n - 1));
        n -= 1;
    }
    proof {
        lemma_unpadded_len(data@.take(n as int));
    }
    n
}

pub proof fn lemma_unpadded_len(data: Seq<u8>)
    ensures
        unpadded_len(data) <= data.len(),
        unpadded_len(data) > 0 ==> data[unpadded_len(data) - 1] != 0,
        forall|i: int| unpadded_len(data) <= i < data.len() ==> data[i] == 0,
    decreases data.len(),
{
    if data.len() > 0 && data.last() == 0 {
        lemma_unpadded_len(data.drop_last());
        let n = unpadded_len(data);
        assert forall|i: int| n <= i < data.len() implies data[i] == 0 by {
            if i < data.len() - 1 {
                assert(data[i] == data.drop_last()[i]);
            }
        }
    }
}

/// Padding does not change what an inner plaintext holds: any number of zero bytes behind the
/// content type is skipped, and the payload is found as it was, zero bytes at its own end
/// included.
pub proof fn law_padding_is_skipped(payload: Seq<u8>, typ: u8, zeros: nat)
    requires
        typ != 0,
    ensures
        unpadded(payload.push(typ) + Seq::new(zeros, |i: int| 0u8)) == Some(
            (ContentType::of(typ), payload),
        ),
    decreases zeros,
{
    let data = payload.push(typ) + Seq::new(zeros, |i: int| 0u8);
    if zeros == 0 {
        assert(data =~= payload.push(typ));
        assert(data.take(data.len() - 1) =~= payload);
    } else {
        law_padding_is_skipped(payload, typ, (zeros - 1) as nat);
        let shorter = payload.push(typ) + Seq::new((zeros - 1) as nat, |i: int| 0u8);
        assert(data.drop_last() =~= shorter);
        lemma_unpadded_len(shorter);
        let n = unpadded_len(shorter);
        assert(data.take(n - 1) =~= shorter.take(n - 1));
    }
}

/// The nonce of a record has twelve bytes: the first four of the initialisation vector as they are,
/// and the other eight with the sequence number folded in by exclusive or, so that folding them out
/// again gives the number, its most significant byte first.
pub proof fn law_nonce_folds_the_number_in(iv: Seq<u8>, seq: u64)
    ensures
        nonce(iv, seq).len() == 12,
        forall|i: int| 0 <= i < 4 ==> nonce(iv, seq)[i] == iv[i],
        ({
            let b = |i: int| (nonce(iv, seq)[i] ^ iv[i]) as nat;
            seq == 0x100_0000_0000_0000 * b(4) + 0x1_0000_0000_0000 * b(5) + 0x100_0000_0000 * b(6)
                + 0x1_0000_0000 * b(7) + 0x100_0000 * b(8) + 0x1_0000 * b(9) + 0x100 * b(10) + b(11)
        }),
{
    let bytes = nonce(iv, seq);
    assert forall|i: int| 0 <= i < 4 implies bytes[i] == iv[i] by {
        let v = iv[i];
        assert(v ^ 0u8 == v) by (bit_vector);
    }
    assert forall|i: int| 4 <= i < 12 implies #[trigger] bytes[i] ^ iv[i] == seq_byte(seq, i) by {
        let v = iv[i];
        let x = seq_byte(seq, i);
        assert((v ^ x) ^ v == x) by (bit_vector);
    }
    assert(bytes[4] ^ iv[4] == seq_byte(seq, 4));
    assert(bytes[5] ^ iv[5] == seq_byte(seq, 5));
    assert(bytes[6] ^ iv[6] == seq_byte(seq, 6));
    assert(bytes[7] ^ iv[7] == seq_byte(seq, 7));
    assert(bytes[8] ^ iv[8] == seq_byte(seq, 8));
    assert(bytes[9] ^ iv[9] == seq_byte(seq, 9));
    assert(bytes[10] ^ iv[10] == seq_byte(seq, 10));
    assert(bytes[11] ^ iv[11] == seq_byte(seq, 11));
    assert(seq == 0x100_0000_0000_0000 * (((seq >> 56) & 0xff) as u8) + 0x1_0000_0000_0000 * (((seq
        >> 48) & 0xff) as u8) + 0x100_0000_0000 * (((seq >> 40) & 0xff) as u8) + 0x1_0000_0000 * (((
    seq >> 32) & 0xff) as u8) + 0x100_0000 * (((seq >> 24) & 0xff) as u8) + 0x1_0000 * (((seq >> 16)
        & 0xff) as u8) + 0x100 * (((seq >> 8) & 0xff) as u8) + (((seq >> 0) & 0xff) as u8))
        by (bit_vector);
}

/// What a record authenticates besides its payload is the header that it is sent with: its five
/// bytes are the content type of application data, the version of TLS 1.2, and the length of the
/// payload, the more significant byte first.
pub proof fn law_aad_is_the_header(payload: Seq<u8>)
    requires
        payload.len() < 65536,
    ensures
        ({
            let aad = tls13_aad(payload.len());
            &&& aad == record(
                ContentType::ApplicationData,
                ProtocolVersion::TLSv1_2,
                payload,
            ).take(5)
            &&& aad.len() == 5
            &&& aad[0] == 23 && aad[1] == 3 && aad[2] == 3
            &&& 256 * aad[3] + aad[4] == payload.len()
        }),
{
    assert(0x0303u16 / 256 == 3 && 0x0303u16 % 256 == 3);
    assert(tls13_aad(payload.len()) =~= record(
        ContentType::ApplicationData,
        ProtocolVersion::TLSv1_2,
        payload,
    ).take(5));
}

/// There is no inner plaintext exactly where all bytes are padding.
pub proof fn law_only_padding_holds_nothing(data: Seq<u8>)
    ensures
        unpadded(data) is None <==> forall|i: int| 0 <= i < data.len() ==> data[i] == 0,
{
    lemma_unpadded_len(data);
}

} // verus!
