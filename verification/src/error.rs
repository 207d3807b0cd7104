//! The error taxonomy of the store.
//!
//! Three families of failure exist: decode failures (the bytes do not have
//! the shape the requested type demands), storage failures (an operation on
//! the backing medium failed, annotated with the location involved), and
//! scope failures (no usable storage location exists for the chosen scope).

use vstd::prelude::*;
use vstd::string::*;

verus! {

/// Everything that can go wrong when using the key-value store.
#[derive(Debug)]
pub enum KvsError {
    /// Stored bytes were not valid UTF-8 for the requested string type.
    StringDecodeError(String),
    /// A value's bytes did not have the shape the requested type demands.
    SerializationError(String),
    /// An operation on the backing medium failed; `path` tells where.
    IoError { path: String, message: String },
    /// No usable machine-wide storage location exists.
    NoMachineScope(String),
    /// No usable per-user storage location exists.
    NoUserScope(String),
}

impl KvsError {
    /// Attaches the location of a storage failure to its message.
    pub fn io_at(message: String, at: String) -> (r: KvsError)
        ensures
            r == (KvsError::IoError { path: at, message: message }),
    {
        KvsError::IoError { path: at, message: message }
    }

    /// True of the two variants that report a value which could not be
    /// decoded, as opposed to a failure of the storage medium or scope.
    pub open spec fn is_decode_error(&self) -> bool {
        self is SerializationError || self is StringDecodeError
    }

    /// A human-readable description of the failure: which invariant was
    /// violated, or which location the storage failure happened at.
    pub fn describe(&self) -> (r: String)
        ensures
            self matches KvsError::StringDecodeError(_) ==> r@ == "Invalid UTF-8 InBytes"@,
            self matches KvsError::SerializationError(m) ==> r@ == "Serialization error: "@ + m@,
            self matches KvsError::IoError { path, message } ==> r@ == message@ + ": "@ + path@,
            self matches KvsError::NoMachineScope(m) ==> r@ == "No machine scope. "@ + m@,
            self matches KvsError::NoUserScope(m) ==> r@ == "No user scope. "@ + m@,
    {
        let mut out = String::new();
        match self {
            KvsError::StringDecodeError(_) => {
                out.append("Invalid UTF-8 InBytes");
            },
            KvsError::SerializationError(m) => {
                out.append("Serialization error: ");
                out.append(m.as_str());
            },
            KvsError::IoError { path, message } => {
                out.append(message.as_str());
                out.append(": ");
                out.append(path.as_str());
            },
            KvsError::NoMachineScope(m) => {
                out.append("No machine scope. ");
                out.append(m.as_str());
            },
            KvsError::NoUserScope(m) => {
                out.append("No user scope. ");
                out.append(m.as_str());
            },
        }
        out
    }
}

} // verus!
