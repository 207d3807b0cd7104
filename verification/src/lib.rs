//! A typed key-value persistence library.
//!
//! Values of a fixed catalog of types (booleans, characters, integers,
//! strings, raw bytes) are converted to byte buffers by a deterministic
//! big-endian codec and handed to a backing store that maps string keys
//! to byte values.  Three storage scopes exist: an in-memory store for
//! ephemeral data, and per-user / per-machine durable stores whose
//! platform binding (a directory of one file per key) is supplied by the
//! embedding application through the [`api::Scope`] and
//! [`api::BackingStore`] traits.

pub mod api;
pub mod big_endian;
pub mod convert;
pub mod directory;
pub mod ephemeral;
pub mod error;
pub mod prelude;
pub mod scope;
