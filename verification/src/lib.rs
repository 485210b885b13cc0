//! A registry that owns objects of mixed capabilities, hands out stable
//! handles for them and broadcasts signals to those that support the
//! signal's capability.
//!
//! Objects live in a dense store that is compacted on every removal. A handle
//! names a stable id; a sparse map leads from the id to the object's current
//! position, and a back-array leads from each position to the id that owns
//! it. One index per capability lists the ids of the objects that supported
//! it when they were inserted. Removal leaves these indices alone: a
//! broadcast evicts the stale ids it meets while it walks its index.

pub mod handle;
pub mod laws;
pub mod model;
pub mod object;
pub mod registry;
pub mod system;
pub mod text;

pub use handle::Handle;
pub use model::RegistryView;
pub use object::Object;
pub use registry::Registry;
