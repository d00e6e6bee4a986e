//! Failure kinds of the object store.

use vstd::prelude::*;

verus! {

/// Why a stored file could not be turned back into an object.
#[derive(Debug, Clone, Copy, PartialEq, Eq, Structural)]
pub enum DecodeFailure {
    /// The compressed stream is damaged or ends too early.
    Io,
    /// The header in front of the payload is malformed.
    Format,
    /// Fewer payload bytes follow the header than it declares.
    SizeMismatch,
}

/// Every way an operation of this library can fail. No operation retries or
/// recovers; an error ends the call that met it.
#[derive(Debug, Clone, Copy, PartialEq, Eq, Structural)]
pub enum Error {
    /// A byte stream could not be compressed or decompressed.
    Io,
    /// A header or a tree record is malformed.
    Format,
    /// The number of payload bytes disagrees with the declared size.
    SizeMismatch,
    /// No file is stored under the requested id.
    NotFound,
    /// The operation does not apply to an object of this kind.
    UnsupportedKind,
    /// A file is stored under the requested id, but it does not decode.
    Corrupt(DecodeFailure),
    /// A tree was asked for of a directory that holds nothing to store.
    EmptyTree,
}

impl Error {
    /// The cause carried by a decoding error; `None` for the errors that
    /// decoding never reports.
    pub open spec fn decode_failure(self) -> Option<DecodeFailure> {
        match self {
            Error::Io => Some(DecodeFailure::Io),
            Error::Format => Some(DecodeFailure::Format),
            Error::SizeMismatch => Some(DecodeFailure::SizeMismatch),
            _ => None,
        }
    }

    /// A short description, for messages.
    pub fn describe(&self) -> (text: &'static str)
        ensures
            text@ == self.description(),
    {
        match self {
            Error::Io => "compressed stream is damaged or incomplete",
            Error::Format => "malformed header or tree record",
            Error::SizeMismatch => "payload length disagrees with the declared size",
            Error::NotFound => "no object is stored under this id",
            Error::UnsupportedKind => "operation is not supported for this kind of object",
            Error::Corrupt(DecodeFailure::Io) => "stored object is corrupt: damaged stream",
            Error::Corrupt(DecodeFailure::Format) => "stored object is corrupt: malformed header",
            Error::Corrupt(DecodeFailure::SizeMismatch) => "stored object is corrupt: payload too short",
            Error::EmptyTree => "directory holds nothing to store, so it has no tree",
        }
    }

    /// The text that [`Error::describe`] returns.
    pub open spec fn description(self) -> Seq<char> {
        match self {
            Error::Io => "compressed stream is damaged or incomplete"@,
            Error::Format => "malformed header or tree record"@,
            Error::SizeMismatch => "payload length disagrees with the declared size"@,
            Error::NotFound => "no object is stored under this id"@,
            Error::UnsupportedKind => "operation is not supported for this kind of object"@,
            Error::Corrupt(DecodeFailure::Io) => "stored object is corrupt: damaged stream"@,
            Error::Corrupt(DecodeFailure::Format) => "stored object is corrupt: malformed header"@,
            Error::Corrupt(DecodeFailure::SizeMismatch) => "stored object is corrupt: payload too short"@,
            Error::EmptyTree => "directory holds nothing to store, so it has no tree"@,
        }
    }
}

} // verus!
