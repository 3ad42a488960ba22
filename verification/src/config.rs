use vstd::prelude::*;

use crate::docs::{append_bytes, lookup_key, spec_lookup_key, spec_version_is_current, version_is_current};
use crate::error::Error;
use crate::textutil::{is_prefix, split_lines, spec_lines, starts_with, copy_range};

verus! {

/// The relative path from a configuration folder to the migrations
/// folder.
pub open spec fn spec_migrations_relpath() -> Seq<u8> {
    seq![0x2eu8, 0x2eu8, 0x2fu8, 0x6du8, 0x69u8, 0x67u8, 0x72u8, 0x61u8, 0x74u8, 0x69u8, 0x6fu8, 0x6eu8, 0x73u8]
}

/// The conventional location of the migrations folder, relative to the
/// configuration file's folder.
pub fn migrations_relpath() -> (r: Vec<u8>)
    ensures
        r@ == spec_migrations_relpath(),
{
    let r: Vec<u8> = vec![0x2eu8, 0x2eu8, 0x2fu8, 0x6du8, 0x69u8, 0x67u8, 0x72u8, 0x61u8, 0x74u8, 0x69u8, 0x6fu8, 0x6eu8, 0x73u8];
    proof {
        assert(r@ =~= spec_migrations_relpath());
    }
    r
}

/// Where a configured connection points: an environment variable that
/// holds the URL, or the URL itself.
#[derive(Clone, Debug, PartialEq, Eq)]
pub enum ConnectionRef {
    EnvVar(Vec<u8>),
    Url(Vec<u8>),
}

/// A parsed configuration: connection reference, repository and
/// migrations folders relative to the configuration file, and the
/// driver name.
#[derive(Clone, Debug)]
pub struct ConfigDoc {
    pub connection: Option<ConnectionRef>,
    pub repository: Vec<u8>,
    pub migrations: Vec<u8>,
    pub driver: Vec<u8>,
}

/// The initial configuration text for a driver.
pub open spec fn spec_initial_config(driver: Seq<u8>) -> Seq<u8> {
    seq![0x2du8, 0x2du8, 0x2du8, 0x0au8, 0x76u8, 0x65u8, 0x72u8, 0x73u8, 0x69u8, 0x6fu8, 0x6eu8, 0x3au8, 0x20u8, 0x31u8, 0x2fu8, 0x31u8, 0x30u8, 0x0au8, 0x2du8, 0x2du8, 0x2du8, 0x0au8, 0x63u8, 0x6fu8, 0x6eu8, 0x6eu8, 0x65u8, 0x63u8, 0x74u8, 0x69u8, 0x6fu8, 0x6eu8, 0x3au8, 0x20u8, 0x21u8, 0x65u8, 0x6eu8, 0x76u8, 0x20u8, 0x44u8, 0x41u8, 0x54u8, 0x41u8, 0x42u8, 0x41u8, 0x53u8, 0x45u8, 0x5fu8, 0x55u8, 0x52u8, 0x4cu8, 0x0au8, 0x72u8, 0x65u8, 0x70u8, 0x6fu8, 0x73u8, 0x69u8, 0x74u8, 0x6fu8, 0x72u8, 0x79u8, 0x3au8, 0x20u8, 0x22u8, 0x2eu8, 0x2eu8, 0x22u8, 0x0au8, 0x6du8, 0x69u8, 0x67u8, 0x72u8, 0x61u8, 0x74u8, 0x69u8, 0x6fu8, 0x6eu8, 0x73u8, 0x3au8, 0x20u8, 0x22u8, 0x2eu8, 0x2eu8, 0x2fu8, 0x6du8, 0x69u8, 0x67u8, 0x72u8, 0x61u8, 0x74u8, 0x69u8, 0x6fu8, 0x6eu8, 0x73u8, 0x22u8, 0x0au8, 0x64u8, 0x72u8, 0x69u8, 0x76u8, 0x65u8, 0x72u8, 0x3au8, 0x20u8, 0x22u8] + driver + seq![0x22u8, 0x0au8]
}

/// Check that the driver is registered and emit the initial
/// configuration file text: versioned, with the connection taken from
/// the `DATABASE_URL` environment variable and the conventional
/// folders. An unregistered driver fails with `UnknownDriver`.
pub fn generate_initial(driver: &[u8], registered: &Vec<Vec<u8>>) -> (r: Result<Vec<u8>, Error>)
    ensures
        match r {
            Ok(text) => (exists|j: int|
                0 <= j < registered@.len() && (#[trigger] registered@[j])@ == driver@) && text@
                == spec_initial_config(driver@),
            Err(e) => match e {
                Error::UnknownDriver { name } => name@ == driver@ && (forall|j: int|
                    0 <= j < registered@.len() ==> (#[trigger] registered@[j])@ != driver@),
                _ => false,
            },
        },
{
    match crate::dbms::lookup_driver(registered, driver) {
        Some(_) => {},
        None => {
            let mut name: Vec<u8> = Vec::new();
            append_bytes(&mut name, driver);
            return Err(Error::UnknownDriver { name });
        },
    }
    let head: [u8; 106] = [0x2d, 0x2d, 0x2d, 0x0a, 0x76, 0x65, 0x72, 0x73, 0x69, 0x6f, 0x6e, 0x3a, 0x20, 0x31, 0x2f, 0x31, 0x30, 0x0a, 0x2d, 0x2d, 0x2d, 0x0a, 0x63, 0x6f, 0x6e, 0x6e, 0x65, 0x63, 0x74, 0x69, 0x6f, 0x6e, 0x3a, 0x20, 0x21, 0x65, 0x6e, 0x76, 0x20, 0x44, 0x41, 0x54, 0x41, 0x42, 0x41, 0x53, 0x45, 0x5f, 0x55, 0x52, 0x4c, 0x0a, 0x72, 0x65, 0x70, 0x6f, 0x73, 0x69, 0x74, 0x6f, 0x72, 0x79, 0x3a, 0x20, 0x22, 0x2e, 0x2e, 0x22, 0x0a, 0x6d, 0x69, 0x67, 0x72, 0x61, 0x74, 0x69, 0x6f, 0x6e, 0x73, 0x3a, 0x20, 0x22, 0x2e, 0x2e, 0x2f, 0x6d, 0x69, 0x67, 0x72, 0x61, 0x74, 0x69, 0x6f, 0x6e, 0x73, 0x22, 0x0a, 0x64, 0x72, 0x69, 0x76, 0x65, 0x72, 0x3a, 0x20, 0x22];
    let tail: [u8; 2] = [0x22, 0x0a];
    let mut text: Vec<u8> = Vec::new();
    append_bytes(&mut text, &head);
    append_bytes(&mut text, driver);
    append_bytes(&mut text, &tail);
    proof {
        assert(head@ =~= seq![0x2du8, 0x2du8, 0x2du8, 0x0au8, 0x76u8, 0x65u8, 0x72u8, 0x73u8, 0x69u8, 0x6fu8, 0x6eu8, 0x3au8, 0x20u8, 0x31u8, 0x2fu8, 0x31u8, 0x30u8, 0x0au8, 0x2du8, 0x2du8, 0x2du8, 0x0au8, 0x63u8, 0x6fu8, 0x6eu8, 0x6eu8, 0x65u8, 0x63u8, 0x74u8, 0x69u8, 0x6fu8, 0x6eu8, 0x3au8, 0x20u8, 0x21u8, 0x65u8, 0x6eu8, 0x76u8, 0x20u8, 0x44u8, 0x41u8, 0x54u8, 0x41u8, 0x42u8, 0x41u8, 0x53u8, 0x45u8, 0x5fu8, 0x55u8, 0x52u8, 0x4cu8, 0x0au8, 0x72u8, 0x65u8, 0x70u8, 0x6fu8, 0x73u8, 0x69u8, 0x74u8, 0x6fu8, 0x72u8, 0x79u8, 0x3au8, 0x20u8, 0x22u8, 0x2eu8, 0x2eu8, 0x22u8, 0x0au8, 0x6du8, 0x69u8, 0x67u8, 0x72u8, 0x61u8, 0x74u8, 0x69u8, 0x6fu8, 0x6eu8, 0x73u8, 0x3au8, 0x20u8, 0x22u8, 0x2eu8, 0x2eu8, 0x2fu8, 0x6du8, 0x69u8, 0x67u8, 0x72u8, 0x61u8, 0x74u8, 0x69u8, 0x6fu8, 0x6eu8, 0x73u8, 0x22u8, 0x0au8, 0x64u8, 0x72u8, 0x69u8, 0x76u8, 0x65u8, 0x72u8, 0x3au8, 0x20u8, 0x22u8]);
        assert(tail@ =~= seq![0x22u8, 0x0au8]);
        assert(text@ =~= spec_initial_config(driver@));
    }
    Ok(text)
}

/// Parse a configuration file. The version document must be present
/// and current; `repository`, `migrations` and `driver` are required;
/// the driver must be registered; `connection` is optional.
pub fn parse_config(text: &[u8], registered: &Vec<Vec<u8>>) -> (r: Result<ConfigDoc, Error>)
    ensures
        ({
            let lines = spec_lines(text@);
            let version = spec_lookup_key(lines, seq![0x76u8, 0x65u8, 0x72u8, 0x73u8, 0x69u8, 0x6fu8, 0x6eu8]);
            match r {
                Ok(doc) => {
                    &&& version is Some && spec_version_is_current(version->0)
                    &&& spec_lookup_key(lines, seq![0x72u8, 0x65u8, 0x70u8, 0x6fu8, 0x73u8, 0x69u8, 0x74u8, 0x6fu8, 0x72u8, 0x79u8]) == Some(doc.repository@)
                    &&& spec_lookup_key(lines, seq![0x6du8, 0x69u8, 0x67u8, 0x72u8, 0x61u8, 0x74u8, 0x69u8, 0x6fu8, 0x6eu8, 0x73u8]) == Some(doc.migrations@)
                    &&& spec_lookup_key(lines, seq![0x64u8, 0x72u8, 0x69u8, 0x76u8, 0x65u8, 0x72u8]) == Some(doc.driver@)
                    &&& exists|j: int|
                        0 <= j < registered@.len() && (#[trigger] registered@[j])@ == doc.driver@
                    &&& match doc.connection {
                        Some(c) => {
                            let v = spec_lookup_key(lines, seq![0x63u8, 0x6fu8, 0x6eu8, 0x6eu8, 0x65u8, 0x63u8, 0x74u8, 0x69u8, 0x6fu8, 0x6eu8]);
                            &&& v is Some
                            &&& match c {
                                ConnectionRef::EnvVar(name) => is_prefix(v->0, seq![0x21u8, 0x65u8, 0x6eu8, 0x76u8, 0x20u8])
                                    && name@ == v->0.skip(5),
                                ConnectionRef::Url(url) => !is_prefix(v->0, seq![0x21u8, 0x65u8, 0x6eu8, 0x76u8, 0x20u8]) && url@
                                    == v->0,
                            }
                        },
                        None => spec_lookup_key(lines, seq![0x63u8, 0x6fu8, 0x6eu8, 0x6eu8, 0x65u8, 0x63u8, 0x74u8, 0x69u8, 0x6fu8, 0x6eu8]) is None,
                    }
                },
                Err(e) => match e {
                    Error::UnsupportedVersion { place, got } => match version {
                        Some(v) => got@ == v && !spec_version_is_current(v),
                        None => got@.len() == 0,
                    },
                    Error::MissingField { place, field } => {
                        &&& version is Some && spec_version_is_current(version->0)
                        &&& spec_lookup_key(lines, field@) is None
                        &&& (field@ == seq![0x72u8, 0x65u8, 0x70u8, 0x6fu8, 0x73u8, 0x69u8, 0x74u8, 0x6fu8, 0x72u8, 0x79u8] || field@ == seq![0x6du8, 0x69u8, 0x67u8, 0x72u8, 0x61u8, 0x74u8, 0x69u8, 0x6fu8, 0x6eu8, 0x73u8] || field@
                            == seq![0x64u8, 0x72u8, 0x69u8, 0x76u8, 0x65u8, 0x72u8])
                    },
                    Error::UnknownDriver { name } => spec_lookup_key(lines, seq![0x64u8, 0x72u8, 0x69u8, 0x76u8, 0x65u8, 0x72u8])
                        == Some(name@) && (forall|j: int|
                        0 <= j < registered@.len() ==> (#[trigger] registered@[j])@ != name@),
                    _ => false,
                },
            }
        }),
{
    let lines = split_lines(text);
    let vkey: [u8; 7] = [0x76, 0x65, 0x72, 0x73, 0x69, 0x6f, 0x6e];
    proof {
        assert(vkey@ =~= seq![0x76u8, 0x65u8, 0x72u8, 0x73u8, 0x69u8, 0x6fu8, 0x6eu8]);
    }
    let place: Vec<u8> = vec![0x63u8, 0x6fu8, 0x6eu8, 0x66u8, 0x69u8, 0x67u8];
    match lookup_key(&lines, &vkey) {
        Some(v) => {
            if !version_is_current(v.as_slice()) {
                return Err(Error::UnsupportedVersion { place, got: v });
            }
        },
        None => {
            return Err(Error::UnsupportedVersion { place, got: Vec::new() });
        },
    }
    let ckey: [u8; 10] = [0x63, 0x6f, 0x6e, 0x6e, 0x65, 0x63, 0x74, 0x69, 0x6f, 0x6e];
    proof {
        assert(ckey@ =~= seq![0x63u8, 0x6fu8, 0x6eu8, 0x6eu8, 0x65u8, 0x63u8, 0x74u8, 0x69u8, 0x6fu8, 0x6eu8]);
    }
    let connection: Option<ConnectionRef> = match lookup_key(&lines, &ckey) {
        Some(v) => {
            let envtag: [u8; 5] = [0x21, 0x65, 0x6e, 0x76, 0x20];
            proof {
                assert(envtag@ =~= seq![0x21u8, 0x65u8, 0x6eu8, 0x76u8, 0x20u8]);
            }
            if starts_with(v.as_slice(), &envtag) {
                let name = copy_range(v.as_slice(), 5, v.len());
                proof {
                    assert(name@ =~= v@.skip(5 as int));
                }
                Some(ConnectionRef::EnvVar(name))
            } else {
                Some(ConnectionRef::Url(v))
            }
        },
        None => None,
    };
    let rkey: [u8; 10] = [0x72, 0x65, 0x70, 0x6f, 0x73, 0x69, 0x74, 0x6f, 0x72, 0x79];
    proof {
        assert(rkey@ =~= seq![0x72u8, 0x65u8, 0x70u8, 0x6fu8, 0x73u8, 0x69u8, 0x74u8, 0x6fu8, 0x72u8, 0x79u8]);
    }
    let repository = match lookup_key(&lines, &rkey) {
        Some(v) => v,
        None => {
            let place2: Vec<u8> = vec![0x63u8, 0x6fu8, 0x6eu8, 0x66u8, 0x69u8, 0x67u8];
            let field: Vec<u8> = vec![0x72u8, 0x65u8, 0x70u8, 0x6fu8, 0x73u8, 0x69u8, 0x74u8, 0x6fu8, 0x72u8, 0x79u8];
            proof {
                assert(field@ =~= seq![0x72u8, 0x65u8, 0x70u8, 0x6fu8, 0x73u8, 0x69u8, 0x74u8, 0x6fu8, 0x72u8, 0x79u8]);
            }
            return Err(Error::MissingField { place: place2, field });
        },
    };
    let mkey: [u8; 10] = [0x6d, 0x69, 0x67, 0x72, 0x61, 0x74, 0x69, 0x6f, 0x6e, 0x73];
    proof {
        assert(mkey@ =~= seq![0x6du8, 0x69u8, 0x67u8, 0x72u8, 0x61u8, 0x74u8, 0x69u8, 0x6fu8, 0x6eu8, 0x73u8]);
    }
    let migrations = match lookup_key(&lines, &mkey) {
        Some(v) => v,
        None => {
            let place2: Vec<u8> = vec![0x63u8, 0x6fu8, 0x6eu8, 0x66u8, 0x69u8, 0x67u8];
            let field: Vec<u8> = vec![0x6du8, 0x69u8, 0x67u8, 0x72u8, 0x61u8, 0x74u8, 0x69u8, 0x6fu8, 0x6eu8, 0x73u8];
            proof {
                assert(field@ =~= seq![0x6du8, 0x69u8, 0x67u8, 0x72u8, 0x61u8, 0x74u8, 0x69u8, 0x6fu8, 0x6eu8, 0x73u8]);
            }
            return Err(Error::MissingField { place: place2, field });
        },
    };
    let dkey: [u8; 6] = [0x64, 0x72, 0x69, 0x76, 0x65, 0x72];
    proof {
        assert(dkey@ =~= seq![0x64u8, 0x72u8, 0x69u8, 0x76u8, 0x65u8, 0x72u8]);
    }
    let driver = match lookup_key(&lines, &dkey) {
        Some(v) => v,
        None => {
            let place2: Vec<u8> = vec![0x63u8, 0x6fu8, 0x6eu8, 0x66u8, 0x69u8, 0x67u8];
            let field: Vec<u8> = vec![0x64u8, 0x72u8, 0x69u8, 0x76u8, 0x65u8, 0x72u8];
            proof {
                assert(field@ =~= seq![0x64u8, 0x72u8, 0x69u8, 0x76u8, 0x65u8, 0x72u8]);
            }
            return Err(Error::MissingField { place: place2, field });
        },
    };
    match crate::dbms::lookup_driver(registered, driver.as_slice()) {
        Some(_) => {},
        None => {
            return Err(Error::UnknownDriver { name: driver });
        },
    }
    Ok(ConfigDoc { connection, repository, migrations, driver })
}

} // verus!
