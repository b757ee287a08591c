//! Traffic secrets of TLS 1.3 and the keys that are derived from them.

use vstd::prelude::*;

use crate::crypto::aead::NONCE_LEN;
use crate::crypto::cipher::{AeadKey, Iv};
use crate::crypto::hkdf::{hkdf_expanded, AwsLcHkdf, AwsLcHkdfExpander, OkmBlock};
use crate::crypto::suites::Tls13CipherSuite;
use crate::crypto::tls13::KeyView;
use crate::msgs::message::joined;

verus! {

/// The prefix of all labels: `tls13 `.
pub open spec fn label_prefix() -> Seq<u8> {
    seq![0x74u8, 0x6cu8, 0x73u8, 0x31u8, 0x33u8, 0x20u8]
}

/// The label of keys: `key`.
pub open spec fn key_label() -> Seq<u8> {
    seq![0x6bu8, 0x65u8, 0x79u8]
}

/// The label of initialisation vectors: `iv`.
pub open spec fn iv_label() -> Seq<u8> {
    seq![0x69u8, 0x76u8]
}

/// The label of the next traffic secret: `traffic upd`.
pub open spec fn update_label() -> Seq<u8> {
    seq![
        0x74u8,
        0x72u8,
        0x61u8,
        0x66u8,
        0x66u8,
        0x69u8,
        0x63u8,
        0x20u8,
        0x75u8,
        0x70u8,
        0x64u8,
    ]
}

/// What tells the outputs of `len` bytes with different labels apart: the length in two bytes,
/// the label with its prefix and its length, and an empty context with its length.
pub open spec fn label_info(label: Seq<u8>, len: nat) -> Seq<u8> {
    seq![(len / 256) as u8, (len % 256) as u8, (6 + label.len()) as u8] + label_prefix() + label
        + seq![0u8]
}

/// The output of `len` bytes that a secret gives under a label.
pub open spec fn expand_label(
    suite: Tls13CipherSuite,
    secret: Seq<u8>,
    label: Seq<u8>,
    len: nat,
) -> Seq<u8> {
    hkdf_expanded(suite.hash, secret, label_info(label, len), len)
}

/// The traffic key that belongs to a traffic secret.
pub open spec fn traffic_key(suite: Tls13CipherSuite, secret: Seq<u8>) -> KeyView {
    KeyView {
        alg: suite.aead_alg,
        key: expand_label(suite, secret, key_label(), suite.aead_alg.spec_key_len()),
        iv: expand_label(suite, secret, iv_label(), NONCE_LEN as nat),
    }
}

/// The traffic secret that follows a traffic secret.
pub open spec fn next_secret(suite: Tls13CipherSuite, secret: Seq<u8>) -> Seq<u8> {
    expand_label(suite, secret, update_label(), suite.hash.spec_len())
}

/// The info of a label, as bytes.
fn encode_label_info(label: &[u8], len: usize) -> (r: Vec<u8>)
    requires
        label@.len() <= 249,
        len <= 0xffff,
    ensures
        r@ == label_info(label@, len as nat),
        r@.len() == label@.len() + 10,
{
    let mut info: Vec<u8> = Vec::new();
    info.push((len / 256) as u8);
    info.push((len % 256) as u8);
    info.push((6 + label.len()) as u8);
    info.push(0x74);
    info.push(0x6c);
    info.push(0x73);
    info.push(0x31);
    info.push(0x33);
    info.push(0x20);
    info.extend_from_slice(label);
    info.push(0);
    assert(info@ =~= label_info(label@, len as nat));
    info
}

/// Expands a secret under a label into `out`.
fn expand_label_to(expander: &AwsLcHkdfExpander, label: &[u8], out: &mut [u8])
    requires
        expander.wf(),
        label@.len() <= 249,
        old(out)@.len() <= 64,
    ensures
        final(out)@ == hkdf_expanded(
            expander.alg,
            expander@,
            label_info(label@, old(out)@.len()),
            old(out)@.len(),
        ),
        final(out)@.len() == old(out)@.len(),
{
    let info: Vec<u8> = encode_label_info(label, out.len());
    let pieces = [info.as_slice()];
    let pieces: &[&[u8]] = vstd::array::array_as_slice(&pieces);
    proof {
        assert(pieces@.drop_last() =~= Seq::empty());
        assert(joined(pieces@.drop_last()) =~= Seq::empty());
        assert(joined(pieces@) =~= info@);
    }
    let r = expander.expand_slice(pieces, out);
    assert(r is Ok);
}

/// Derives the traffic key that belongs to a traffic secret.
pub fn derive_traffic_key(suite: Tls13CipherSuite, secret: &OkmBlock) -> (r: (AeadKey, Iv))
    requires
        secret.wf(),
    ensures
        r.0@ == traffic_key(suite, secret@).key,
        r.1@ == traffic_key(suite, secret@).iv,
        traffic_key(suite, secret@).wf(),
{
    let expander = AwsLcHkdf(suite.hash).expander_for_okm(secret);
    let mut key: Vec<u8> = vec![0u8; suite.aead_alg.key_len()];
    let label: [u8; 3] = [0x6b, 0x65, 0x79];
    assert(label@ =~= key_label());
    expand_label_to(&expander, vstd::array::array_as_slice(&label), key.as_mut_slice());
    let label: [u8; 2] = [0x69, 0x76];
    assert(label@ =~= iv_label());
    let mut iv: Vec<u8> = vec![0u8; NONCE_LEN];
    expand_label_to(&expander, vstd::array::array_as_slice(&label), iv.as_mut_slice());
    (AeadKey { bytes: key }, Iv::copy(iv.as_slice()))
}

/// Derives the traffic secret that follows a traffic secret.
pub fn derive_next_secret(suite: Tls13CipherSuite, secret: &OkmBlock) -> (r: OkmBlock)
    requires
        secret.wf(),
    ensures
        r.wf(),
        r@ == next_secret(suite, secret@),
{
    let expander = AwsLcHkdf(suite.hash).expander_for_okm(secret);
    let mut next: Vec<u8> = vec![0u8; expander.hash_len()];
    let label: [u8; 11] = [
        0x74, 0x72, 0x61, 0x66, 0x66, 0x69, 0x63, 0x20, 0x75, 0x70, 0x64,
    ];
    assert(label@ =~= update_label());
    expand_label_to(&expander, vstd::array::array_as_slice(&label), next.as_mut_slice());
    OkmBlock { bytes: next }
}

} // verus!
