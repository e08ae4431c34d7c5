//! Multi-backend composition patterns.
//!
//! These types implement the storage operations by coordinating several
//! underlying backends: [`MirrorStorage`] replicates writes across many
//! backends for redundancy, [`FallbackStorage`] fails over from a primary to
//! a secondary backend, and [`ReadOnlyStorage`] guards a backend against
//! writes. [`migration`](crate::migration) moves whole object sets between
//! backends.

pub use crate::fallback::FallbackStorage;
pub use crate::migration;
pub use crate::mirror::{MirrorStorage, MirrorStorageBuilder, ReturnPolicy, WriteStrategy};
pub use crate::readonly::ReadOnlyStorage;
