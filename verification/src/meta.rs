use vstd::prelude::*;

use crate::algo::{spec_algo_from_name, spec_algo_name, Algo};
use crate::docs::{
    append_bytes, lookup_key, spec_lookup_key, spec_version_is_current, version_is_current,
};
use crate::error::Error;
use crate::identity::{spec_identity_text, Identity};
use crate::pathutil::{parent_dir, relpath_to_base, spec_parent_dir, spec_relpath_to_base};
use crate::seal::SealMeta;
use crate::textutil::{copy_range, spec_lines, split_lines};

verus! {

/// The persisted descriptor of one migration: its identity, where its
/// patches live, where the built migration goes, and how it is sealed.
/// All paths are absolute; `path` is the meta file itself.
#[derive(Clone, Debug)]
pub struct Meta {
    pub path: Vec<u8>,
    pub identity: Identity,
    pub seal: SealMeta,
    pub source: Vec<u8>,
    pub source_is_dir: bool,
    pub target: Vec<u8>,
}

/// The fields read from a meta file, still relative to its folder.
#[derive(Clone, Debug)]
pub struct MetaDoc {
    pub uid: Vec<u8>,
    pub name: Vec<u8>,
    pub source: Vec<u8>,
    pub target: Vec<u8>,
    pub seal_file: Vec<u8>,
    pub algo: Algo,
}

/// The text of a meta file for the given relative paths.
pub open spec fn spec_meta_text(
    uid: Seq<u8>,
    name: Seq<u8>,
    source: Seq<u8>,
    target: Seq<u8>,
    seal_file: Seq<u8>,
    algo: Algo,
) -> Seq<u8> {
    seq![0x2du8, 0x2du8, 0x2du8, 0x0au8, 0x76u8, 0x65u8, 0x72u8, 0x73u8, 0x69u8, 0x6fu8, 0x6eu8, 0x3au8, 0x20u8, 0x31u8, 0x2fu8, 0x31u8, 0x30u8, 0x0au8, 0x2du8, 0x2du8, 0x2du8, 0x0au8, 0x69u8, 0x64u8, 0x65u8, 0x6eu8, 0x74u8, 0x69u8, 0x74u8, 0x79u8, 0x3au8, 0x0au8, 0x20u8, 0x20u8, 0x75u8, 0x69u8, 0x64u8, 0x3au8, 0x20u8, 0x22u8] + uid + seq![0x22u8, 0x0au8, 0x20u8, 0x20u8, 0x6eu8, 0x61u8, 0x6du8, 0x65u8, 0x3au8, 0x20u8, 0x22u8] + name + seq![0x22u8, 0x0au8, 0x73u8, 0x74u8, 0x72u8, 0x75u8, 0x63u8, 0x74u8, 0x75u8, 0x72u8, 0x65u8, 0x3au8, 0x0au8, 0x20u8, 0x20u8, 0x73u8, 0x6fu8, 0x75u8, 0x72u8, 0x63u8, 0x65u8, 0x3au8, 0x20u8, 0x22u8] + source + seq![0x22u8, 0x0au8, 0x20u8, 0x20u8, 0x74u8, 0x61u8, 0x72u8, 0x67u8, 0x65u8, 0x74u8, 0x3au8, 0x20u8, 0x22u8] + target + seq![0x22u8, 0x0au8, 0x73u8, 0x65u8, 0x61u8, 0x6cu8, 0x3au8, 0x0au8, 0x20u8, 0x20u8, 0x66u8, 0x69u8, 0x6cu8, 0x65u8, 0x3au8, 0x20u8, 0x22u8] + seal_file + seq![0x22u8, 0x0au8, 0x20u8, 0x20u8, 0x61u8, 0x6cu8, 0x67u8, 0x6fu8, 0x3au8, 0x20u8, 0x22u8]
        + spec_algo_name(algo) + seq![0x22u8, 0x0au8]
}

impl Meta {
    /// The identity.
    pub fn get_identity(&self) -> (r: &Identity)
        ensures
            r == &self.identity,
    {
        &self.identity
    }

    /// The seal meta.
    pub fn get_seal_meta(&self) -> (r: &SealMeta)
        ensures
            r == &self.seal,
    {
        &self.seal
    }

    /// The source file or folder.
    pub fn get_source(&self) -> (r: &Vec<u8>)
        ensures
            r@ == self.source@,
    {
        &self.source
    }

    /// The build target.
    pub fn get_target(&self) -> (r: &Vec<u8>)
        ensures
            r@ == self.target@,
    {
        &self.target
    }

    /// The meta file itself.
    pub fn get_path(&self) -> (r: &Vec<u8>)
        ensures
            r@ == self.path@,
    {
        &self.path
    }

    /// The folder the patches live under: the source folder, or the
    /// parent folder of a single-file source.
    pub fn get_source_base(&self) -> (r: Vec<u8>)
        ensures
            self.source_is_dir ==> r@ == self.source@,
            !self.source_is_dir ==> r@ == spec_parent_dir(self.source@),
    {
        if self.source_is_dir {
            let r = copy_range(self.source.as_slice(), 0, self.source.len());
            proof {
                assert(r@ =~= self.source@);
            }
            r
        } else {
            parent_dir(self.source.as_slice())
        }
    }

    /// The migration's folder: the parent of the meta file.
    pub fn get_base(&self) -> (r: Vec<u8>)
        ensures
            r@ == spec_parent_dir(self.path@),
    {
        parent_dir(self.path.as_slice())
    }

    /// Emit the meta file text: the version document, then the
    /// identity, the structure and the seal reference, each path
    /// relative to the meta file's folder.
    pub fn yamlette(&self) -> (r: Vec<u8>)
        ensures
            r@ == spec_meta_text(
                self.identity.uid@,
                self.identity.name@,
                spec_relpath_to_base(spec_parent_dir(self.path@), self.source@),
                spec_relpath_to_base(spec_parent_dir(self.path@), self.target@),
                spec_relpath_to_base(spec_parent_dir(self.path@), self.seal.file@),
                self.seal.algo,
            ),
    {
        let root = self.get_base();
        let source = relpath_to_base(root.as_slice(), self.source.as_slice());
        let target = relpath_to_base(root.as_slice(), self.target.as_slice());
        let seal_file = relpath_to_base(root.as_slice(), self.seal.file.as_slice());
        let algo_name = self.seal.algo.stringify();
        let p1: [u8; 40] = [0x2d, 0x2d, 0x2d, 0x0a, 0x76, 0x65, 0x72, 0x73, 0x69, 0x6f, 0x6e, 0x3a, 0x20, 0x31, 0x2f, 0x31, 0x30, 0x0a, 0x2d, 0x2d, 0x2d, 0x0a, 0x69, 0x64, 0x65, 0x6e, 0x74, 0x69, 0x74, 0x79, 0x3a, 0x0a, 0x20, 0x20, 0x75, 0x69, 0x64, 0x3a, 0x20, 0x22];
        let p2: [u8; 11] = [0x22, 0x0a, 0x20, 0x20, 0x6e, 0x61, 0x6d, 0x65, 0x3a, 0x20, 0x22];
        let p3: [u8; 24] = [0x22, 0x0a, 0x73, 0x74, 0x72, 0x75, 0x63, 0x74, 0x75, 0x72, 0x65, 0x3a, 0x0a, 0x20, 0x20, 0x73, 0x6f, 0x75, 0x72, 0x63, 0x65, 0x3a, 0x20, 0x22];
        let p4: [u8; 13] = [0x22, 0x0a, 0x20, 0x20, 0x74, 0x61, 0x72, 0x67, 0x65, 0x74, 0x3a, 0x20, 0x22];
        let p5: [u8; 17] = [0x22, 0x0a, 0x73, 0x65, 0x61, 0x6c, 0x3a, 0x0a, 0x20, 0x20, 0x66, 0x69, 0x6c, 0x65, 0x3a, 0x20, 0x22];
        let p6: [u8; 11] = [0x22, 0x0a, 0x20, 0x20, 0x61, 0x6c, 0x67, 0x6f, 0x3a, 0x20, 0x22];
        let p7: [u8; 2] = [0x22, 0x0a];
        let mut r: Vec<u8> = Vec::new();
        append_bytes(&mut r, &p1);
        append_bytes(&mut r, self.identity.get_uid().as_slice());
        append_bytes(&mut r, &p2);
        append_bytes(&mut r, self.identity.get_name().as_slice());
        append_bytes(&mut r, &p3);
        append_bytes(&mut r, source.as_slice());
        append_bytes(&mut r, &p4);
        append_bytes(&mut r, target.as_slice());
        append_bytes(&mut r, &p5);
        append_bytes(&mut r, seal_file.as_slice());
        append_bytes(&mut r, &p6);
        append_bytes(&mut r, algo_name.as_slice());
        append_bytes(&mut r, &p7);
        proof {
            assert(p1@ =~= seq![0x2du8, 0x2du8, 0x2du8, 0x0au8, 0x76u8, 0x65u8, 0x72u8, 0x73u8, 0x69u8, 0x6fu8, 0x6eu8, 0x3au8, 0x20u8, 0x31u8, 0x2fu8, 0x31u8, 0x30u8, 0x0au8, 0x2du8, 0x2du8, 0x2du8, 0x0au8, 0x69u8, 0x64u8, 0x65u8, 0x6eu8, 0x74u8, 0x69u8, 0x74u8, 0x79u8, 0x3au8, 0x0au8, 0x20u8, 0x20u8, 0x75u8, 0x69u8, 0x64u8, 0x3au8, 0x20u8, 0x22u8]);
            assert(p2@ =~= seq![0x22u8, 0x0au8, 0x20u8, 0x20u8, 0x6eu8, 0x61u8, 0x6du8, 0x65u8, 0x3au8, 0x20u8, 0x22u8]);
            assert(p3@ =~= seq![0x22u8, 0x0au8, 0x73u8, 0x74u8, 0x72u8, 0x75u8, 0x63u8, 0x74u8, 0x75u8, 0x72u8, 0x65u8, 0x3au8, 0x0au8, 0x20u8, 0x20u8, 0x73u8, 0x6fu8, 0x75u8, 0x72u8, 0x63u8, 0x65u8, 0x3au8, 0x20u8, 0x22u8]);
            assert(p4@ =~= seq![0x22u8, 0x0au8, 0x20u8, 0x20u8, 0x74u8, 0x61u8, 0x72u8, 0x67u8, 0x65u8, 0x74u8, 0x3au8, 0x20u8, 0x22u8]);
            assert(p5@ =~= seq![0x22u8, 0x0au8, 0x73u8, 0x65u8, 0x61u8, 0x6cu8, 0x3au8, 0x0au8, 0x20u8, 0x20u8, 0x66u8, 0x69u8, 0x6cu8, 0x65u8, 0x3au8, 0x20u8, 0x22u8]);
            assert(p6@ =~= seq![0x22u8, 0x0au8, 0x20u8, 0x20u8, 0x61u8, 0x6cu8, 0x67u8, 0x6fu8, 0x3au8, 0x20u8, 0x22u8]);
            assert(p7@ =~= seq![0x22u8, 0x0au8]);
            assert(r@ =~= spec_meta_text(
                self.identity.uid@,
                self.identity.name@,
                spec_relpath_to_base(spec_parent_dir(self.path@), self.source@),
                spec_relpath_to_base(spec_parent_dir(self.path@), self.target@),
                spec_relpath_to_base(spec_parent_dir(self.path@), self.seal.file@),
                self.seal.algo,
            ));
        }
        r
    }

    /// Parse a meta file. The version document must be present and
    /// current; `uid`, `name`, `source`, `target`, `file` and `algo`
    /// are required; an unrecognized algorithm tag is rejected.
    pub fn parse_meta(text: &[u8]) -> (r: Result<MetaDoc, Error>)
        ensures
            match r {
                Ok(doc) => {
                    &&& spec_lookup_key(spec_lines(text@), seq![0x76u8, 0x65u8, 0x72u8, 0x73u8, 0x69u8, 0x6fu8, 0x6eu8]) is Some
                    &&& spec_version_is_current(
                        spec_lookup_key(spec_lines(text@), seq![0x76u8, 0x65u8, 0x72u8, 0x73u8, 0x69u8, 0x6fu8, 0x6eu8])->0,
                    )
                    &&& spec_lookup_key(spec_lines(text@), seq![0x75u8, 0x69u8, 0x64u8]) == Some(doc.uid@)
                    &&& spec_lookup_key(spec_lines(text@), seq![0x6eu8, 0x61u8, 0x6du8, 0x65u8]) == Some(doc.name@)
                    &&& spec_lookup_key(spec_lines(text@), seq![0x73u8, 0x6fu8, 0x75u8, 0x72u8, 0x63u8, 0x65u8]) == Some(doc.source@)
                    &&& spec_lookup_key(spec_lines(text@), seq![0x74u8, 0x61u8, 0x72u8, 0x67u8, 0x65u8, 0x74u8]) == Some(doc.target@)
                    &&& spec_lookup_key(spec_lines(text@), seq![0x66u8, 0x69u8, 0x6cu8, 0x65u8]) == Some(doc.seal_file@)
                    &&& spec_lookup_key(spec_lines(text@), seq![0x61u8, 0x6cu8, 0x67u8, 0x6fu8]) is Some
                    &&& spec_algo_from_name(spec_lookup_key(spec_lines(text@), seq![0x61u8, 0x6cu8, 0x67u8, 0x6fu8])->0)
                        == Some(doc.algo)
                },
                Err(e) => {
                    let lines = spec_lines(text@);
                    let version = spec_lookup_key(lines, seq![0x76u8, 0x65u8, 0x72u8, 0x73u8, 0x69u8, 0x6fu8, 0x6eu8]);
                    match e {
                        Error::UnsupportedVersion { place, got } => match version {
                            Some(v) => got@ == v && !spec_version_is_current(v),
                            None => got@.len() == 0,
                        },
                        Error::MissingField { place, field } => {
                            &&& version is Some && spec_version_is_current(version->0)
                            &&& spec_lookup_key(lines, field@) is None
                            &&& (field@ == seq![0x75u8, 0x69u8, 0x64u8] || field@ == seq![0x6eu8, 0x61u8, 0x6du8, 0x65u8] || field@
                                == seq![0x73u8, 0x6fu8, 0x75u8, 0x72u8, 0x63u8, 0x65u8] || field@ == seq![0x74u8, 0x61u8, 0x72u8, 0x67u8, 0x65u8, 0x74u8] || field@
                                == seq![0x66u8, 0x69u8, 0x6cu8, 0x65u8] || field@ == seq![0x61u8, 0x6cu8, 0x67u8, 0x6fu8])
                        },
                        Error::UnknownAlgorithm { name } => spec_lookup_key(lines, seq![0x61u8, 0x6cu8, 0x67u8, 0x6fu8])
                            == Some(name@) && spec_algo_from_name(name@) is None,
                        _ => false,
                    }
                },
            },
    {
        let lines = split_lines(text);
        let vkey: [u8; 7] = [0x76, 0x65, 0x72, 0x73, 0x69, 0x6f, 0x6e];
        proof {
            assert(vkey@ =~= seq![0x76u8, 0x65u8, 0x72u8, 0x73u8, 0x69u8, 0x6fu8, 0x6eu8]);
        }
        match lookup_key(&lines, &vkey) {
            Some(v) => {
                if !version_is_current(v.as_slice()) {
                    let place: Vec<u8> = vec![0x6du8, 0x65u8, 0x74u8, 0x61u8];
                    return Err(Error::UnsupportedVersion { place, got: v });
                }
            },
            None => {
                let place: Vec<u8> = vec![0x6du8, 0x65u8, 0x74u8, 0x61u8];
                return Err(Error::UnsupportedVersion { place, got: Vec::new() });
            },
        }
        let ukey: [u8; 3] = [0x75, 0x69, 0x64];
        proof {
            assert(ukey@ =~= seq![0x75u8, 0x69u8, 0x64u8]);
        }
        let uid = match lookup_key(&lines, &ukey) {
            Some(v) => v,
            None => {
                let place: Vec<u8> = vec![0x6du8, 0x65u8, 0x74u8, 0x61u8];
                let field: Vec<u8> = vec![0x75u8, 0x69u8, 0x64u8];
                return Err(Error::MissingField { place, field });
            },
        };
        let nkey: [u8; 4] = [0x6e, 0x61, 0x6d, 0x65];
        proof {
            assert(nkey@ =~= seq![0x6eu8, 0x61u8, 0x6du8, 0x65u8]);
        }
        let name = match lookup_key(&lines, &nkey) {
            Some(v) => v,
            None => {
                let place: Vec<u8> = vec![0x6du8, 0x65u8, 0x74u8, 0x61u8];
                let field: Vec<u8> = vec![0x6eu8, 0x61u8, 0x6du8, 0x65u8];
                return Err(Error::MissingField { place, field });
            },
        };
        let skey: [u8; 6] = [0x73, 0x6f, 0x75, 0x72, 0x63, 0x65];
        proof {
            assert(skey@ =~= seq![0x73u8, 0x6fu8, 0x75u8, 0x72u8, 0x63u8, 0x65u8]);
        }
        let source = match lookup_key(&lines, &skey) {
            Some(v) => v,
            None => {
                let place: Vec<u8> = vec![0x6du8, 0x65u8, 0x74u8, 0x61u8];
                let field: Vec<u8> = vec![0x73u8, 0x6fu8, 0x75u8, 0x72u8, 0x63u8, 0x65u8];
                return Err(Error::MissingField { place, field });
            },
        };
        let tkey: [u8; 6] = [0x74, 0x61, 0x72, 0x67, 0x65, 0x74];
        proof {
            assert(tkey@ =~= seq![0x74u8, 0x61u8, 0x72u8, 0x67u8, 0x65u8, 0x74u8]);
        }
        let target = match lookup_key(&lines, &tkey) {
            Some(v) => v,
            None => {
                let place: Vec<u8> = vec![0x6du8, 0x65u8, 0x74u8, 0x61u8];
                let field: Vec<u8> = vec![0x74u8, 0x61u8, 0x72u8, 0x67u8, 0x65u8, 0x74u8];
                return Err(Error::MissingField { place, field });
            },
        };
        let fkey: [u8; 4] = [0x66, 0x69, 0x6c, 0x65];
        proof {
            assert(fkey@ =~= seq![0x66u8, 0x69u8, 0x6cu8, 0x65u8]);
        }
        let seal_file = match lookup_key(&lines, &fkey) {
            Some(v) => v,
            None => {
                let place: Vec<u8> = vec![0x6du8, 0x65u8, 0x74u8, 0x61u8];
                let field: Vec<u8> = vec![0x66u8, 0x69u8, 0x6cu8, 0x65u8];
                return Err(Error::MissingField { place, field });
            },
        };
        let akey: [u8; 4] = [0x61, 0x6c, 0x67, 0x6f];
        proof {
            assert(akey@ =~= seq![0x61u8, 0x6cu8, 0x67u8, 0x6fu8]);
        }
        let algo = match lookup_key(&lines, &akey) {
            Some(v) => match Algo::from_str(v.as_slice()) {
                Some(a) => a,
                None => {
                    return Err(Error::UnknownAlgorithm { name: v });
                },
            },
            None => {
                let place: Vec<u8> = vec![0x6du8, 0x65u8, 0x74u8, 0x61u8];
                let field: Vec<u8> = vec![0x61u8, 0x6cu8, 0x67u8, 0x6fu8];
                return Err(Error::MissingField { place, field });
            },
        };
        Ok(MetaDoc { uid, name, source, target, seal_file, algo })
    }

    /// Assemble a migration meta from a parsed document: the relative
    /// paths are resolved against the meta file's folder; the caller
    /// says whether the source is a folder.
    pub fn assemble(path: Vec<u8>, doc: MetaDoc, source_is_dir: bool) -> (r: Meta)
        ensures
            r.path@ == path@,
            r.identity.uid@ == doc.uid@,
            r.identity.name@ == doc.name@,
            r.source@ == crate::pathutil::spec_normalize(
                spec_parent_dir(path@) + seq![0x2fu8] + doc.source@,
            ),
            r.target@ == crate::pathutil::spec_normalize(
                spec_parent_dir(path@) + seq![0x2fu8] + doc.target@,
            ),
            r.seal.file@ == crate::pathutil::spec_normalize(
                spec_parent_dir(path@) + seq![0x2fu8] + doc.seal_file@,
            ),
            r.seal.algo == doc.algo,
            r.source_is_dir == source_is_dir,
    {
        let root = parent_dir(path.as_slice());
        let source = crate::pathutil::join_normalize(root.as_slice(), doc.source.as_slice());
        let target = crate::pathutil::join_normalize(root.as_slice(), doc.target.as_slice());
        let seal_file = crate::pathutil::join_normalize(root.as_slice(), doc.seal_file.as_slice());
        let identity = Identity::build(doc.uid, doc.name);
        let seal = SealMeta::build(seal_file, doc.algo);
        Meta { path, identity, seal, source, source_is_dir, target }
    }
}

} // verus!
