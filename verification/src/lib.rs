//! A version-control engine for stateful container volumes.
//!
//! The engine snapshots named volumes into content-addressed archives,
//! accumulates pending changes in a staging area, commits them into an
//! append-only history, and can regenerate a portable manifest or redeploy
//! snapshots onto a container runtime.
//!
//! Storage, the container runtime, and the archiver are consumed as
//! capabilities: the [`remote`] module defines the transport that every
//! repository mutation goes through, and [`runtime`] and [`archiver`]
//! define the collaborators that list, create and restore volumes. Each
//! comes with an in-memory reference implementation, verified against the
//! capability's contracts. The [`repository`] module holds the value
//! types the engine reads and writes — the manifest, the settings, the
//! history and the object store — and [`command`] composes them into the
//! engine's operations.

pub mod archiver;
pub mod codec;
pub mod command;
pub mod configuration;
pub mod error;
pub mod hash;
pub mod remote;
pub mod repository;
pub mod runtime;
pub mod strutil;
pub mod volume;

use vstd::prelude::*;

verus! {

/// The repository format version, recorded in every settings file.
pub open spec fn spec_repository_version() -> Seq<char> {
    "0.1.0"@
}

/// The repository format version, recorded in every settings file.
pub fn repository_version() -> (r: &'static str)
    ensures
        r@ == spec_repository_version(),
{
    "0.1.0"
}

} // verus!
