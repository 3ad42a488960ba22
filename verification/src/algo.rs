use vstd::prelude::*;

use crate::textutil::bytes_eq;
use blake2::Digest;

verus! {

/// The named content-hash algorithms a seal can use.
#[derive(Copy, Clone, Debug, PartialEq, Eq, Structural)]
pub enum Algo {
    Blake2b,
    SHA3_512,
    SHA3_224,
}

/// What Blake2b-512 returns for the given input; a function of the
/// input alone.
pub uninterp spec fn blake2b_of(data: Seq<u8>) -> Seq<u8>;

/// What SHA3-512 returns for the given input; a function of the input alone.
pub uninterp spec fn sha3_512_of(data: Seq<u8>) -> Seq<u8>;

/// What SHA3-224 returns for the given input; a function of the input alone.
pub uninterp spec fn sha3_224_of(data: Seq<u8>) -> Seq<u8>;

/// Relies on blake2::Blake2b512::digest: the digest is 64 bytes and
/// depends on the input bytes alone.
#[verifier::external_body]
fn blake2b_hash(value: &[u8]) -> (r: Vec<u8>)
    ensures
        r@ == blake2b_of(value@),
        r@.len() == 64,
{
    blake2::Blake2b512::digest(value).to_vec()
}

/// Relies on sha3::Sha3_512::digest: the digest is 64 bytes and
/// depends on the input bytes alone.
#[verifier::external_body]
fn sha3_512_hash(value: &[u8]) -> (r: Vec<u8>)
    ensures
        r@ == sha3_512_of(value@),
        r@.len() == 64,
{
    sha3::Sha3_512::digest(value).to_vec()
}

/// Relies on sha3::Sha3_224::digest: the digest is 28 bytes and
/// depends on the input bytes alone.
#[verifier::external_body]
fn sha3_224_hash(value: &[u8]) -> (r: Vec<u8>)
    ensures
        r@ == sha3_224_of(value@),
        r@.len() == 28,
{
    sha3::Sha3_224::digest(value).to_vec()
}

/// The tag under which each algorithm appears in seal files.
pub open spec fn spec_algo_name(a: Algo) -> Seq<u8> {
    match a {
        Algo::Blake2b => seq![0x62u8, 0x6cu8, 0x61u8, 0x6bu8, 0x65u8, 0x32u8, 0x62u8],
        Algo::SHA3_512 => seq![0x73u8, 0x68u8, 0x61u8, 0x33u8, 0x2du8, 0x35u8, 0x31u8, 0x32u8],
        Algo::SHA3_224 => seq![0x73u8, 0x68u8, 0x61u8, 0x33u8, 0x2du8, 0x32u8, 0x32u8, 0x34u8],
    }
}

/// The algorithm a tag denotes, if any.
pub open spec fn spec_algo_from_name(s: Seq<u8>) -> Option<Algo> {
    if s == spec_algo_name(Algo::Blake2b) {
        Some(Algo::Blake2b)
    } else if s == spec_algo_name(Algo::SHA3_512) {
        Some(Algo::SHA3_512)
    } else if s == spec_algo_name(Algo::SHA3_224) {
        Some(Algo::SHA3_224)
    } else {
        None
    }
}

/// The digest the algorithm computes for the given input.
pub open spec fn spec_hash(a: Algo, data: Seq<u8>) -> Seq<u8> {
    match a {
        Algo::Blake2b => blake2b_of(data),
        Algo::SHA3_512 => sha3_512_of(data),
        Algo::SHA3_224 => sha3_224_of(data),
    }
}

/// The algorithm's native digest length in bytes.
pub open spec fn spec_digest_len(a: Algo) -> nat {
    match a {
        Algo::Blake2b => 64,
        Algo::SHA3_512 => 64,
        Algo::SHA3_224 => 28,
    }
}

impl Algo {
    /// The exact tag of the algorithm.
    pub fn stringify(self) -> (r: Vec<u8>)
        ensures
            r@ == spec_algo_name(self),
    {
        let r: Vec<u8> = match self {
            Algo::Blake2b => vec![0x62u8, 0x6cu8, 0x61u8, 0x6bu8, 0x65u8, 0x32u8, 0x62u8],
            Algo::SHA3_512 => vec![0x73u8, 0x68u8, 0x61u8, 0x33u8, 0x2du8, 0x35u8, 0x31u8, 0x32u8],
            Algo::SHA3_224 => vec![0x73u8, 0x68u8, 0x61u8, 0x33u8, 0x2du8, 0x32u8, 0x32u8, 0x34u8],
        };
        proof {
            assert(r@ =~= spec_algo_name(self));
        }
        r
    }

    /// The algorithm named by a tag; absent for every other tag.
    pub fn from_str(name: &[u8]) -> (r: Option<Algo>)
        ensures
            r == spec_algo_from_name(name@),
    {
        let blake = Algo::Blake2b.stringify();
        if bytes_eq(name, blake.as_slice()) {
            return Some(Algo::Blake2b);
        }
        let s512 = Algo::SHA3_512.stringify();
        if bytes_eq(name, s512.as_slice()) {
            return Some(Algo::SHA3_512);
        }
        let s224 = Algo::SHA3_224.stringify();
        if bytes_eq(name, s224.as_slice()) {
            return Some(Algo::SHA3_224);
        }
        None
    }

    /// The algorithm's digest of `value`: the native output length,
    /// a function of the input bytes alone.
    pub fn hash(self, value: &[u8]) -> (r: Vec<u8>)
        ensures
            r@ == spec_hash(self, value@),
            r@.len() == spec_digest_len(self),
    {
        match self {
            Algo::Blake2b => blake2b_hash(value),
            Algo::SHA3_512 => sha3_512_hash(value),
            Algo::SHA3_224 => sha3_224_hash(value),
        }
    }
}

impl Default for Algo {
    /// The default seal algorithm.
    fn default() -> (r: Algo)
        ensures
            r == Algo::Blake2b,
    {
        Algo::Blake2b
    }
}

} // verus!
