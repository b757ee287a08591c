//! Key derivation of TLS 1.3, over the HKDF and HMAC of `aws-lc-rs`.

use aws_lc_rs::error::Unspecified;
use aws_lc_rs::hkdf;
use aws_lc_rs::hkdf::KeyType;
use aws_lc_rs::hmac;
use vstd::prelude::*;

use crate::crypto::aead::zeroes;
use crate::crypto::tls13::fips;
use crate::msgs::message::joined;

verus! {

/// The hashes of the TLS 1.3 cipher suites.
#[derive(Clone, Copy, Debug, PartialEq, Eq, Structural)]
pub enum HashAlgorithm {
    Sha256,
    Sha384,
}

/// The longest block that any hash makes.
pub const MAX_LEN: usize = 64;

impl HashAlgorithm {
    /// Length of the hash's output, in bytes.
    pub open spec fn spec_len(self) -> nat {
        match self {
            HashAlgorithm::Sha256 => 32,
            HashAlgorithm::Sha384 => 48,
        }
    }

    /// Calls the `len` that `hkdf::Algorithm` has as a `KeyType`: the length of the output of its
    /// hash, 32 bytes for SHA-256 and 48 bytes for SHA-384.
    #[verifier::external_body]
    pub(crate) fn len(self) -> (r: usize)
        ensures
            r == self.spec_len(),
    {
        match self {
            HashAlgorithm::Sha256 => hkdf::HKDF_SHA256.len(),
            HashAlgorithm::Sha384 => hkdf::HKDF_SHA384.len(),
        }
    }
}

/// The length of the output that `hkdf::Prk::expand` is asked for.
pub struct Len(pub usize);

impl KeyType for Len {
    /// The length that was asked for.
    fn len(&self) -> (r: usize)
        ensures
            r == self.0,
    {
        self.0
    }
}

/// The pseudorandom key that `hkdf::Salt::extract` makes of a secret.
pub uninterp spec fn hkdf_extracted(
    hash: HashAlgorithm,
    salt: Seq<u8>,
    secret: Seq<u8>,
) -> Seq<u8>;

/// The output of `len` bytes that `hkdf::Prk::expand` makes of a pseudorandom key.
pub uninterp spec fn hkdf_expanded(
    hash: HashAlgorithm,
    prk: Seq<u8>,
    info: Seq<u8>,
    len: nat,
) -> Seq<u8>;

/// The tag that `hmac::sign` gives a message.
pub uninterp spec fn hmac_signed(
    hash: HashAlgorithm,
    key: Seq<u8>,
    message: Seq<u8>,
) -> Seq<u8>;

/// Calls `hkdf::Prk::expand`, and `fill` on what it returns, for the pseudorandom key that
/// `hkdf::Salt::extract` makes of `secret`.
///
/// It fails exactly where more than 255 times the hash's length is asked for, and leaves `out` as
/// it was. The pieces of `info` are taken one behind the other.
#[verifier::external_body]
fn expand_extracted(
    hash: HashAlgorithm,
    salt: &[u8],
    secret: &[u8],
    info: &[&[u8]],
    out: &mut [u8],
) -> (r: Result<(), Unspecified>)
    requires
        joined(info@).len() <= usize::MAX,
    ensures
        r is Ok <==> old(out)@.len() <= 255 * hash.spec_len(),
        final(out)@.len() == old(out)@.len(),
        r is Ok ==> final(out)@ == hkdf_expanded(
            hash,
            hkdf_extracted(hash, salt@, secret@),
            joined(info@),
            old(out)@.len(),
        ),
        r is Err ==> final(out)@ == old(out)@,
{
    let alg = match hash {
        HashAlgorithm::Sha256 => hkdf::HKDF_SHA256,
        HashAlgorithm::Sha384 => hkdf::HKDF_SHA384,
    };
    let prk = hkdf::Salt::new(alg, salt).extract(secret);
    prk.expand(info, Len(out.len())).and_then(|okm| okm.fill(out))
}

/// Calls `hkdf::Prk::expand`, and `fill` on what it returns, for the pseudorandom key that
/// `hkdf::Prk::new_less_safe` takes as it is.
///
/// It fails exactly where more than 255 times the hash's length is asked for, and leaves `out` as
/// it was. The pieces of `info` are taken one behind the other. A key of more than 64 bytes would
/// panic.
#[verifier::external_body]
fn expand_given(
    hash: HashAlgorithm,
    prk: &[u8],
    info: &[&[u8]],
    out: &mut [u8],
) -> (r: Result<(), Unspecified>)
    requires
        prk@.len() <= MAX_LEN,
        joined(info@).len() <= usize::MAX,
    ensures
        r is Ok <==> old(out)@.len() <= 255 * hash.spec_len(),
        final(out)@.len() == old(out)@.len(),
        r is Ok ==> final(out)@ == hkdf_expanded(hash, prk@, joined(info@), old(out)@.len()),
        r is Err ==> final(out)@ == old(out)@,
{
    let alg = match hash {
        HashAlgorithm::Sha256 => hkdf::HKDF_SHA256,
        HashAlgorithm::Sha384 => hkdf::HKDF_SHA384,
    };
    let prk = hkdf::Prk::new_less_safe(alg, prk);
    prk.expand(info, Len(out.len())).and_then(|okm| okm.fill(out))
}

/// Calls `hmac::sign` on a key that `hmac::Key::new` makes of `key`. The tag depends on the
/// arguments alone and is as long as the hash's output.
#[verifier::external_body]
fn sign(hash: HashAlgorithm, key: &[u8], message: &[u8]) -> (r: Vec<u8>)
    ensures
        r@ == hmac_signed(hash, key@, message@),
        r@.len() == hash.spec_len(),
{
    let alg = match hash {
        HashAlgorithm::Sha256 => hmac::HMAC_SHA256,
        HashAlgorithm::Sha384 => hmac::HMAC_SHA384,
    };
    hmac::sign(&hmac::Key::new(alg, key), message).as_ref().to_vec()
}

/// A block of key material, at most as long as the longest hash.
pub struct OkmBlock {
    pub bytes: Vec<u8>,
}

impl View for OkmBlock {
    type V = Seq<u8>;

    open spec fn view(&self) -> Seq<u8> {
        self.bytes@
    }
}

impl OkmBlock {
    /// The block is no longer than the longest hash.
    pub open spec fn wf(&self) -> bool {
        self@.len() <= MAX_LEN
    }

    /// A block that is made of these bytes.
    pub fn new(bytes: &[u8]) -> (r: Self)
        requires
            bytes@.len() <= MAX_LEN,
        ensures
            r.wf(),
            r@ == bytes@,
    {
        OkmBlock { bytes: vstd::slice::slice_to_vec(bytes) }
    }
}

/// An authentication tag.
pub struct Tag {
    pub bytes: Vec<u8>,
}

/// The error of asking for more output than HKDF can make.
#[derive(Clone, Copy, Debug, PartialEq, Eq, Structural)]
pub struct OutputLengthError;

/// A pseudorandom key: one that is extracted from a secret, or one that was given.
pub enum Prk {
    Extracted { salt: Vec<u8>, secret: Vec<u8> },
    Given(Vec<u8>),
}

/// HKDF with one of the hashes.
#[derive(Clone, Copy, Debug)]
pub struct AwsLcHkdf(pub HashAlgorithm);

impl AwsLcHkdf {
    /// Extracts from a secret of zero bytes, as many as the hash is long. Where no salt is given
    /// it is made of as many zero bytes, too.
    pub fn extract_from_zero_ikm(&self, salt: Option<&[u8]>) -> (r: AwsLcHkdfExpander)
        ensures
            r.wf(),
            r.alg == self.0,
            r@ == hkdf_extracted(
                self.0,
                match salt {
                    Some(salt) => salt@,
                    None => zeroes(self.0.spec_len()),
                },
                zeroes(self.0.spec_len()),
            ),
    {
        let zero: Vec<u8> = vec![0u8; self.0.len()];
        assert(zero@ =~= zeroes(self.0.spec_len()));
        self.extract_from_secret(salt, zero.as_slice())
    }

    /// Extracts from a secret. Where no salt is given it is made of zero bytes, as many as the
    /// hash is long.
    pub fn extract_from_secret(&self, salt: Option<&[u8]>, secret: &[u8]) -> (r: AwsLcHkdfExpander)
        ensures
            r.wf(),
            r.alg == self.0,
            r@ == hkdf_extracted(
                self.0,
                match salt {
                    Some(salt) => salt@,
                    None => zeroes(self.0.spec_len()),
                },
                secret@,
            ),
    {
        let salt: Vec<u8> = match salt {
            Some(salt) => vstd::slice::slice_to_vec(salt),
            None => {
                let zero: Vec<u8> = vec![0u8; self.0.len()];
                assert(zero@ =~= zeroes(self.0.spec_len()));
                zero
            },
        };
        AwsLcHkdfExpander {
            alg: self.0,
            prk: Prk::Extracted { salt, secret: vstd::slice::slice_to_vec(secret) },
        }
    }

    /// Takes a block of key material as pseudorandom key.
    pub fn expander_for_okm(&self, okm: &OkmBlock) -> (r: AwsLcHkdfExpander)
        requires
            okm.wf(),
        ensures
            r.wf(),
            r.alg == self.0,
            r@ == okm@,
    {
        AwsLcHkdfExpander {
            alg: self.0,
            prk: Prk::Given(vstd::slice::slice_to_vec(okm.bytes.as_slice())),
        }
    }

    /// Signs `message` with HMAC.
    pub fn hmac_sign(&self, key: &OkmBlock, message: &[u8]) -> (r: Tag)
        ensures
            r.bytes@ == hmac_signed(self.0, key@, message@),
            r.bytes@.len() == self.0.spec_len(),
    {
        Tag { bytes: sign(self.0, key.bytes.as_slice(), message) }
    }

    /// Is `aws-lc-rs` a FIPS module? The answer is the build's.
    pub fn fips(&self) -> (r: bool) {
        fips()
    }
}

/// A pseudorandom key, ready to be expanded.
pub struct AwsLcHkdfExpander {
    pub alg: HashAlgorithm,
    pub prk: Prk,
}

impl View for AwsLcHkdfExpander {
    type V = Seq<u8>;

    open spec fn view(&self) -> Seq<u8> {
        match self.prk {
            Prk::Extracted { salt, secret } => hkdf_extracted(self.alg, salt@, secret@),
            Prk::Given(bytes) => bytes@,
        }
    }
}

impl AwsLcHkdfExpander {
    /// A key that was given is no longer than the longest hash.
    pub open spec fn wf(&self) -> bool {
        self.prk matches Prk::Given(bytes) ==> bytes@.len() <= MAX_LEN
    }

    /// Fills `output` with key material. Fails, leaving `output` as it was, exactly where it is
    /// longer than 255 times the hash.
    pub fn expand_slice(&self, info: &[&[u8]], output: &mut [u8]) -> (r: Result<
        (),
        OutputLengthError,
    >)
        requires
            self.wf(),
            joined(info@).len() <= usize::MAX,
        ensures
            r is Ok <==> old(output)@.len() <= 255 * self.alg.spec_len(),
            r is Ok ==> final(output)@ == hkdf_expanded(
                self.alg,
                self@,
                joined(info@),
                old(output)@.len(),
            ),
            final(output)@.len() == old(output)@.len(),
            r is Err ==> final(output)@ == old(output)@,
    {
        let expanded = match &self.prk {
            Prk::Extracted { salt, secret } => expand_extracted(
                self.alg,
                salt.as_slice(),
                secret.as_slice(),
                info,
                output,
            ),
            Prk::Given(bytes) => expand_given(self.alg, bytes.as_slice(), info, output),
        };
        match expanded {
            Ok(_) => Ok(()),
            Err(_) => Err(OutputLengthError),
        }
    }

    /// One block of key material, as long as the hash.
    pub fn expand_block(&self, info: &[&[u8]]) -> (r: OkmBlock)
        requires
            self.wf(),
            joined(info@).len() <= usize::MAX,
        ensures
            r.wf(),
            r@.len() == self.alg.spec_len(),
            r@ == hkdf_expanded(self.alg, self@, joined(info@), self.alg.spec_len()),
    {
        let mut output: Vec<u8> = vec![0u8; self.hash_len()];
        let r = self.expand_slice(info, output.as_mut_slice());
        assert(r is Ok);
        OkmBlock { bytes: output }
    }

    /// Length of the hash.
    pub fn hash_len(&self) -> (r: usize)
        ensures
            r == self.alg.spec_len(),
    {
        self.alg.len()
    }
}

} // verus!
