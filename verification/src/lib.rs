//! Core of a dependency manager for native projects: it resolves named
//! dependencies to concrete version-control revisions, models their
//! installation on disk, and keeps a persisted package record consistent
//! with the dependency set.
//!
//! Everything here is pure computation over plain values; the surrounding
//! binary performs the clone, checkout and filesystem work that the
//! [`install`] state machine asks for.

pub mod bridge;
pub mod codec;
pub mod config;
pub mod dependency;
pub mod discovery;
pub mod error;
pub mod install;
pub mod package;
pub mod resolver;
pub mod text;
pub mod version;
