//! Re-exports of the types and traits most callers need.

pub use crate::api::{BackingStore, KeyValueStore, Scope};
pub use crate::convert::{InBytes, OutBytes};
pub use crate::error::KvsError;
pub use crate::scope;
