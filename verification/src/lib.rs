//! Runtime core of a small entity-component-system engine.
//!
//! Entities are recyclable integer identities handed out by a registry.
//! Component values are kept in per-type dense stores, owned by a central
//! manager that also keeps a frame counter and, for every registered store,
//! the frame at which it last changed structurally.  A query cache memoizes
//! "which entities currently have all of these component types" and
//! recomputes an entry only when a participating store's stamp has advanced.
//!
//! Component types are identified by a caller-chosen numeric key, and every
//! store holds values of one crate-level component type chosen by the user
//! of the library (typically an enum over the application's components), so
//! distinct keys map to structurally disjoint stores.

pub mod accessor;
pub mod components;
pub mod disjoint;
pub mod entity;
pub mod entity_manager;
pub mod laws;
pub mod registry;
pub mod seq_util;
pub mod store;
pub mod system;
pub mod window_config;
