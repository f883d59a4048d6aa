//! What can go wrong, each with what a user needs to act on it.

use vstd::prelude::*;

verus! {

/// Why a store could not be read in one schema.
#[derive(Debug)]
pub enum SchemaFailure {
    /// The text is no TOML; the parser's own words.
    Syntax(String),
    /// The text is TOML, but the entry of this name does not fit the schema.
    Shape { entry: String },
}

/// A failure of one command. None is retried, and none is passed over in
/// silence.
#[derive(Debug)]
pub enum ProfileError {
    /// No profile of that name, or none for that environment.
    NotFound { what: String },
    /// The store fits neither the current nor the legacy schema.
    CorruptStore { current: SchemaFailure, legacy: SchemaFailure },
    /// The configuration document is no TOML; the parser's own words.
    InvalidDocument { reason: String },
    /// The profile is for another address than the one asked for.
    ConflictingAddress { name: String, address: String, requested: String },
    /// The document lacks a scalar that an active session has.
    NotLoggedIn { key: String },
    /// The command line's own program failed or could not be started.
    SubprocessFailure { code: Option<i32> },
    /// The server gave no credential.
    NetworkFailure { url: String, status: Option<u16> },
    /// Several profiles fit and nobody is there to choose.
    AmbiguousSelection { candidates: Vec<String> },
    /// The name is taken.
    AlreadyExists { name: String },
}

} // verus!
