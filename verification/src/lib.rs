//! Dock-aware monitor profile management.
//!
//! This library binds machine configuration profiles to the identity of
//! detachable hardware (a Thunderbolt dock) and decides which profile should
//! be active when hardware is attached or removed.  It holds the verified
//! core: the profile and binding data model, the filename-safety validator,
//! the document codec for the persisted stores, hardware classification and
//! ordering, the decision engine, and the daemon's control protocol.
//! Filesystem, socket and clock access live outside the library; callers
//! hand in plain values and carry the results out.

pub mod apply;
pub mod codec;
pub mod config;
pub mod daemon;
pub mod dock;
pub mod jsontext;
pub mod metadata;
pub mod profile;
pub mod status;
pub mod strutil;
pub mod thunderbolt;
