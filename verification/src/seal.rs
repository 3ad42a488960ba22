use vstd::prelude::*;

use crate::algo::{spec_algo_from_name, spec_algo_name, spec_hash, Algo};
use crate::docs::{
    append_bytes, hex_decode, hex_encode, lookup_key, spec_hex_decode, spec_hex_of,
    spec_lookup_key, spec_version_is_current, version_is_current,
};
use crate::error::Error;
use crate::textutil::{spec_lines, split_lines};
use crate::timeutil::{
    parse_timestamp, spec_parse_timestamp, spec_timestamp_text, timestamp_text, timestamp_valid,
    Timestamp,
};

verus! {

/// Where and how a migration is sealed: the seal file path and the
/// hash algorithm.
#[derive(Clone, Debug)]
pub struct SealMeta {
    pub file: Vec<u8>,
    pub algo: Algo,
}

/// A seal read back from disk: when it was made, with what algorithm,
/// and the digest bytes.
#[derive(Clone, Debug)]
pub struct Seal {
    pub timestamp: Timestamp,
    pub algo: Algo,
    pub sign: Vec<u8>,
}

/// The `timestamp` key.
pub open spec fn spec_ts_key() -> Seq<u8> {
    seq![0x74u8, 0x69u8, 0x6du8, 0x65u8, 0x73u8, 0x74u8, 0x61u8, 0x6du8, 0x70u8]
}

/// The `algo` key.
pub open spec fn spec_algo_key() -> Seq<u8> {
    seq![0x61u8, 0x6cu8, 0x67u8, 0x6fu8]
}

/// The `sign` key.
pub open spec fn spec_sign_key() -> Seq<u8> {
    seq![0x73u8, 0x69u8, 0x67u8, 0x6eu8]
}

/// The text of a seal file: a version document, then the timestamp and
/// the seal with its algorithm tag and hex-encoded digest.
pub open spec fn spec_seal_text(algo: Algo, content: Seq<u8>, ts: Timestamp) -> Seq<u8> {
    seq![0x2du8, 0x2du8, 0x2du8, 0x0au8, 0x76u8, 0x65u8, 0x72u8, 0x73u8, 0x69u8, 0x6fu8, 0x6eu8, 0x3au8, 0x20u8, 0x31u8, 0x2fu8, 0x31u8, 0x30u8, 0x0au8, 0x2du8, 0x2du8, 0x2du8, 0x0au8, 0x74u8, 0x69u8, 0x6du8, 0x65u8, 0x73u8, 0x74u8, 0x61u8, 0x6du8, 0x70u8, 0x3au8, 0x20u8] + spec_timestamp_text(ts) + seq![0x0au8, 0x73u8, 0x65u8, 0x61u8, 0x6cu8, 0x3au8, 0x0au8, 0x20u8, 0x20u8, 0x61u8, 0x6cu8, 0x67u8, 0x6fu8, 0x3au8, 0x20u8, 0x22u8] + spec_algo_name(algo) + seq![0x22u8, 0x0au8, 0x20u8, 0x20u8, 0x73u8, 0x69u8, 0x67u8, 0x6eu8, 0x3au8, 0x20u8, 0x22u8] + spec_hex_of(
        spec_hash(algo, content),
    ) + seq![0x22u8, 0x0au8]
}

impl SealMeta {
    /// A seal meta from its parts, verbatim.
    pub fn build(file: Vec<u8>, algo: Algo) -> (r: SealMeta)
        ensures
            r.file@ == file@,
            r.algo == algo,
    {
        SealMeta { file, algo }
    }

    /// The algorithm.
    pub fn get_algo(&self) -> (r: Algo)
        ensures
            r == self.algo,
    {
        self.algo
    }

    /// The seal file path.
    pub fn get_file(&self) -> (r: &Vec<u8>)
        ensures
            r@ == self.file@,
    {
        &self.file
    }

    /// Seal a built migration: hash the content with the declared
    /// algorithm and emit the seal file text, carrying the given
    /// timestamp. The caller writes the text to the seal file.
    pub fn make(&self, content: &[u8], now: &Timestamp) -> (r: Vec<u8>)
        requires
            timestamp_valid(*now),
            now.year >= 0,
        ensures
            r@ == spec_seal_text(self.algo, content@, *now),
    {
        let digest = self.algo.hash(content);
        let hexsign = hex_encode(digest.as_slice());
        let name = self.algo.stringify();
        let ts_text = timestamp_text(now);
        let pre: [u8; 33] = [0x2d, 0x2d, 0x2d, 0x0a, 0x76, 0x65, 0x72, 0x73, 0x69, 0x6f, 0x6e, 0x3a, 0x20, 0x31, 0x2f, 0x31, 0x30, 0x0a, 0x2d, 0x2d, 0x2d, 0x0a, 0x74, 0x69, 0x6d, 0x65, 0x73, 0x74, 0x61, 0x6d, 0x70, 0x3a, 0x20];
        let mid: [u8; 16] = [0x0a, 0x73, 0x65, 0x61, 0x6c, 0x3a, 0x0a, 0x20, 0x20, 0x61, 0x6c, 0x67, 0x6f, 0x3a, 0x20, 0x22];
        let smid: [u8; 11] = [0x22, 0x0a, 0x20, 0x20, 0x73, 0x69, 0x67, 0x6e, 0x3a, 0x20, 0x22];
        let end: [u8; 2] = [0x22, 0x0a];
        let mut r: Vec<u8> = Vec::new();
        append_bytes(&mut r, &pre);
        append_bytes(&mut r, ts_text.as_slice());
        append_bytes(&mut r, &mid);
        append_bytes(&mut r, name.as_slice());
        append_bytes(&mut r, &smid);
        append_bytes(&mut r, hexsign.as_slice());
        append_bytes(&mut r, &end);
        proof {
            assert(pre@ =~= seq![0x2du8, 0x2du8, 0x2du8, 0x0au8, 0x76u8, 0x65u8, 0x72u8, 0x73u8, 0x69u8, 0x6fu8, 0x6eu8, 0x3au8, 0x20u8, 0x31u8, 0x2fu8, 0x31u8, 0x30u8, 0x0au8, 0x2du8, 0x2du8, 0x2du8, 0x0au8, 0x74u8, 0x69u8, 0x6du8, 0x65u8, 0x73u8, 0x74u8, 0x61u8, 0x6du8, 0x70u8, 0x3au8, 0x20u8]);
            assert(mid@ =~= seq![0x0au8, 0x73u8, 0x65u8, 0x61u8, 0x6cu8, 0x3au8, 0x0au8, 0x20u8, 0x20u8, 0x61u8, 0x6cu8, 0x67u8, 0x6fu8, 0x3au8, 0x20u8, 0x22u8]);
            assert(smid@ =~= seq![0x22u8, 0x0au8, 0x20u8, 0x20u8, 0x73u8, 0x69u8, 0x67u8, 0x6eu8, 0x3au8, 0x20u8, 0x22u8]);
            assert(end@ =~= seq![0x22u8, 0x0au8]);
            assert(r@ =~= spec_seal_text(self.algo, content@, *now));
        }
        r
    }

    /// Read a seal file back. The version document must be present and
    /// current; a missing or unreadable `timestamp`, `algo` or `sign`
    /// is reported as the missing field; an unrecognized algorithm tag
    /// fails with `UnknownAlgorithm`; a signature that is not exactly
    /// the algorithm's digest length is rejected as a missing `sign`.
    pub fn read_the_seal(text: &[u8]) -> (r: Result<Seal, Error>)
        ensures
            ({
                let lines = spec_lines(text@);
                let version = spec_lookup_key(lines, seq![0x76u8, 0x65u8, 0x72u8, 0x73u8, 0x69u8, 0x6fu8, 0x6eu8]);
                let ts = spec_lookup_key(lines, seq![0x74u8, 0x69u8, 0x6du8, 0x65u8, 0x73u8, 0x74u8, 0x61u8, 0x6du8, 0x70u8]);
                let algo = spec_lookup_key(lines, seq![0x61u8, 0x6cu8, 0x67u8, 0x6fu8]);
                let sign = spec_lookup_key(lines, seq![0x73u8, 0x69u8, 0x67u8, 0x6eu8]);
                match r {
                    Ok(seal) => {
                        &&& version is Some && spec_version_is_current(version->0)
                        &&& ts is Some && spec_parse_timestamp(ts->0) == Some(seal.timestamp)
                        &&& algo is Some && spec_algo_from_name(algo->0) == Some(seal.algo)
                        &&& sign is Some && spec_hex_decode(sign->0) == Some(seal.sign@)
                        &&& seal.sign@.len() == crate::algo::spec_digest_len(seal.algo)
                    },
                    Err(e) => match e {
                        Error::UnsupportedVersion { place, got } => match version {
                            Some(v) => got@ == v && !spec_version_is_current(v),
                            None => got@.len() == 0,
                        },
                        Error::MissingField { place, field } => {
                            &&& version is Some && spec_version_is_current(version->0)
                            &&& (field@ == seq![0x74u8, 0x69u8, 0x6du8, 0x65u8, 0x73u8, 0x74u8, 0x61u8, 0x6du8, 0x70u8] || field@ == seq![0x61u8, 0x6cu8, 0x67u8, 0x6fu8] || field@
                                == seq![0x73u8, 0x69u8, 0x67u8, 0x6eu8])
                            &&& (field@ == seq![0x74u8, 0x69u8, 0x6du8, 0x65u8, 0x73u8, 0x74u8, 0x61u8, 0x6du8, 0x70u8] ==> ts is None || spec_parse_timestamp(
                                ts->0,
                            ) is None)
                            &&& (field@ == seq![0x61u8, 0x6cu8, 0x67u8, 0x6fu8] ==> algo is None)
                            &&& (field@ == seq![0x73u8, 0x69u8, 0x67u8, 0x6eu8] ==> {
                                &&& algo is Some
                                &&& spec_algo_from_name(algo->0) is Some
                                &&& (sign is None || spec_hex_decode(sign->0) is None || (
                                spec_hex_decode(sign->0) matches Some(d) && d.len()
                                    != crate::algo::spec_digest_len(
                                    spec_algo_from_name(algo->0)->0,
                                )))
                            })
                        },
                        Error::UnknownAlgorithm { name } => algo == Some(name@)
                            && spec_algo_from_name(name@) is None,
                        _ => false,
                    },
                }
            }),
    {
        let lines = split_lines(text);
        let vkey: [u8; 7] = [0x76, 0x65, 0x72, 0x73, 0x69, 0x6f, 0x6e];
        proof {
            assert(vkey@ =~= seq![0x76u8, 0x65u8, 0x72u8, 0x73u8, 0x69u8, 0x6fu8, 0x6eu8]);
        }
        let place: Vec<u8> = vec![0x73u8, 0x65u8, 0x61u8, 0x6cu8];
        match lookup_key(&lines, &vkey) {
            Some(v) => {
                if !version_is_current(v.as_slice()) {
                    return Err(Error::UnsupportedVersion { place, got: v });
                }
            },
            None => {
                return Err(Error::UnsupportedVersion { place, got: Vec::new() });
            },
        }
        let tkey: [u8; 9] = [0x74, 0x69, 0x6d, 0x65, 0x73, 0x74, 0x61, 0x6d, 0x70];
        proof {
            assert(tkey@ =~= seq![0x74u8, 0x69u8, 0x6du8, 0x65u8, 0x73u8, 0x74u8, 0x61u8, 0x6du8, 0x70u8]);
        }
        let timestamp = match lookup_key(&lines, &tkey) {
            Some(v) => match parse_timestamp(v.as_slice()) {
                Some(t) => t,
                None => {
                    let place2: Vec<u8> = vec![0x73u8, 0x65u8, 0x61u8, 0x6cu8];
                    let field: Vec<u8> = vec![0x74u8, 0x69u8, 0x6du8, 0x65u8, 0x73u8, 0x74u8, 0x61u8, 0x6du8, 0x70u8];
                    return Err(Error::MissingField { place: place2, field });
                },
            },
            None => {
                let place2: Vec<u8> = vec![0x73u8, 0x65u8, 0x61u8, 0x6cu8];
                let field: Vec<u8> = vec![0x74u8, 0x69u8, 0x6du8, 0x65u8, 0x73u8, 0x74u8, 0x61u8, 0x6du8, 0x70u8];
                return Err(Error::MissingField { place: place2, field });
            },
        };
        let akey: [u8; 4] = [0x61, 0x6c, 0x67, 0x6f];
        proof {
            assert(akey@ =~= seq![0x61u8, 0x6cu8, 0x67u8, 0x6fu8]);
        }
        let algo = match lookup_key(&lines, &akey) {
            Some(v) => match Algo::from_str(v.as_slice()) {
                Some(a) => a,
                None => {
                    return Err(Error::UnknownAlgorithm { name: v });
                },
            },
            None => {
                let place2: Vec<u8> = vec![0x73u8, 0x65u8, 0x61u8, 0x6cu8];
                let field: Vec<u8> = vec![0x61u8, 0x6cu8, 0x67u8, 0x6fu8];
                return Err(Error::MissingField { place: place2, field });
            },
        };
        let skey: [u8; 4] = [0x73, 0x69, 0x67, 0x6e];
        proof {
            assert(skey@ =~= seq![0x73u8, 0x69u8, 0x67u8, 0x6eu8]);
        }
        let sign = match lookup_key(&lines, &skey) {
            Some(v) => match hex_decode(v.as_slice()) {
                Some(s) => s,
                None => {
                    let place2: Vec<u8> = vec![0x73u8, 0x65u8, 0x61u8, 0x6cu8];
                    let field: Vec<u8> = vec![0x73u8, 0x69u8, 0x67u8, 0x6eu8];
                    return Err(Error::MissingField { place: place2, field });
                },
            },
            None => {
                let place2: Vec<u8> = vec![0x73u8, 0x65u8, 0x61u8, 0x6cu8];
                let field: Vec<u8> = vec![0x73u8, 0x69u8, 0x67u8, 0x6eu8];
                return Err(Error::MissingField { place: place2, field });
            },
        };
        let expected: usize = match algo {
            Algo::Blake2b => 64,
            Algo::SHA3_512 => 64,
            Algo::SHA3_224 => 28,
        };
        if sign.len() != expected {
            let place2: Vec<u8> = vec![0x73u8, 0x65u8, 0x61u8, 0x6cu8];
            let field: Vec<u8> = vec![0x73u8, 0x69u8, 0x67u8, 0x6eu8];
            return Err(Error::MissingField { place: place2, field });
        }
        Ok(Seal { timestamp, algo, sign })
    }
}

} // verus!
