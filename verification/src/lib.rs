//! A storage layer for a relational data engine: a schema/row entity model,
//! an in-process backend over persistent (structurally shared) collections,
//! and a keyed backend that serializes whole tables to an external
//! get/set/remove-by-key primitive.
pub mod alter;
pub mod codec;
pub mod collections;
pub mod entity;
pub mod error;
pub mod keyed_storage;
pub mod laws;
pub mod memory_storage;
pub mod rows;
