//! Error kinds of the ingest core.
use vstd::prelude::*;

verus! {

/// What went wrong, by kind.
#[derive(Clone, Copy, Debug, PartialEq, Eq, Structural)]
pub enum Error {
    /// A payload or handshake could not be decoded.
    Protocol,
    /// A socket or name lookup failed.
    Transport,
    /// A catalog or store query failed.
    Database,
    /// A channel was full or a queue closed.
    Capacity,
    /// An address or series is not known.
    NotFound,
    /// An unsupported type, shape or byte order was asked for.
    Config,
    /// An invariant of the ingest core did not hold.
    Internal,
}

/// The text that names each kind.
pub open spec fn description(e: Error) -> Seq<char> {
    match e {
        Error::Protocol => "protocol error"@,
        Error::Transport => "transport error"@,
        Error::Database => "database error"@,
        Error::Capacity => "capacity exhausted"@,
        Error::NotFound => "not found"@,
        Error::Config => "unsupported configuration"@,
        Error::Internal => "internal error"@,
    }
}

impl Error {
    /// A short description of the kind.
    pub fn describe(&self) -> (r: &'static str)
        ensures
            r@ == description(*self),
    {
        match self {
            Error::Protocol => "protocol error",
            Error::Transport => "transport error",
            Error::Database => "database error",
            Error::Capacity => "capacity exhausted",
            Error::NotFound => "not found",
            Error::Config => "unsupported configuration",
            Error::Internal => "internal error",
        }
    }
}

} // verus!
