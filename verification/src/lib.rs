//! Nexpack: a portable application bundle format for Linux.
//!
//! A bundle is an executable stub followed by a CBOR header (introduced by the
//! magic `NX01`), the layer images it lists, and optionally a block of
//! bootstrap binaries with a trailer that locates it.
use vstd::prelude::*;

pub mod bytes;
pub mod error;
pub mod strings;
pub mod layer;
pub mod permission;
pub mod cbor;
pub mod header;
pub mod bundle;
pub mod verify;
pub mod sbom;
pub mod signing;
pub mod sigstore;
pub mod store;
pub mod order;
pub mod update;
pub mod sandbox;
pub mod host;
pub mod bwrap;
pub mod compat;
pub mod daemon;
pub mod pack;
pub mod cli;

pub use error::{Error, Result};

verus! {
} // verus!
