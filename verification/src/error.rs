use vstd::prelude::*;

verus! {

/// The single error taxonomy of the library. Each kind carries the
/// minimum context a caller needs to report the failure.
#[derive(Clone, Debug, PartialEq, Eq)]
pub enum Error {
    /// No configuration path was given or could be derived.
    ConfigNotFound,
    /// A YAML document's `version` is not the supported one.
    UnsupportedVersion { place: Vec<u8>, got: Vec<u8> },
    /// A required YAML key is absent.
    MissingField { place: Vec<u8>, field: Vec<u8> },
    /// The named driver is not registered.
    UnknownDriver { name: Vec<u8> },
    /// An identity token cannot be split on `--`.
    InvalidIdentity { token: Vec<u8> },
    /// The seal names an algorithm the library does not know.
    UnknownAlgorithm { name: Vec<u8> },
    /// A required patch path does not resolve to a file.
    MissingRequirement { requirement: Vec<u8>, owner: Vec<u8> },
    /// A resolved requirement is not present in the patch map.
    UnknownRequirement { requirement: Vec<u8>, owner: Vec<u8> },
    /// The topological sort found a cycle; the paths of the patches
    /// that were awaiting completion are listed.
    CycleDetected { paths: Vec<Vec<u8>> },
    /// The weight function produced a value that is not finite and nonzero.
    InvalidWeight { text: Vec<u8> },
    /// `build` without force, and the target already exists.
    AlreadyBuilt { path: Vec<u8> },
    /// `seal`, and the seal file already exists.
    AlreadySealed { path: Vec<u8> },
    /// A non-zero migration was deployed to an uninitialized database.
    NotInitialized,
    /// A filesystem failure, reported by the caller that did the reading.
    Io { message: Vec<u8> },
    /// A driver or database failure.
    Dbms { message: Vec<u8> },
}

impl Error {
    /// The kind name, for user-visible reporting.
    pub fn kind_name(&self) -> &'static str {
        match self {
            Error::ConfigNotFound => "ConfigNotFound",
            Error::UnsupportedVersion { .. } => "UnsupportedVersion",
            Error::MissingField { .. } => "MissingField",
            Error::UnknownDriver { .. } => "UnknownDriver",
            Error::InvalidIdentity { .. } => "InvalidIdentity",
            Error::UnknownAlgorithm { .. } => "UnknownAlgorithm",
            Error::MissingRequirement { .. } => "MissingRequirement",
            Error::UnknownRequirement { .. } => "UnknownRequirement",
            Error::CycleDetected { .. } => "CycleDetected",
            Error::InvalidWeight { .. } => "InvalidWeight",
            Error::AlreadyBuilt { .. } => "AlreadyBuilt",
            Error::AlreadySealed { .. } => "AlreadySealed",
            Error::NotInitialized => "NotInitialized",
            Error::Io { .. } => "Io",
            Error::Dbms { .. } => "Dbms",
        }
    }
}

} // verus!
