//! The named storage localities.
//!
//! [`Ephemeral`] binds to the in-memory backend and is usable on its own;
//! see its [`crate::api::Scope`] implementation in [`crate::ephemeral`].
//! [`User`] and [`Machine`] name the durable localities.  Resolving their
//! platform location (a data directory, a registry hive) takes environment
//! and file-system access, which this library leaves to the embedding
//! application: the application implements [`crate::api::Scope`] and
//! [`crate::api::BackingStore`] for its platform binding and reports a
//! location it cannot resolve as [`crate::error::KvsError::NoUserScope`]
//! or [`crate::error::KvsError::NoMachineScope`].

use vstd::prelude::*;

verus! {

/// In-memory storage that does not persist between program runs.
///
/// Useful for testing and for temporary data that should never be written
/// to disk.
pub struct Ephemeral();

/// System-wide durable storage shared across all users.
///
/// Typically requires elevated privileges to write to.
pub struct Machine();

/// Per-user durable storage that persists between program runs.
///
/// Lives in the current user's profile area, following platform
/// conventions.
pub struct User();

} // verus!
