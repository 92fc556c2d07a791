//! A minimal content-addressable object store: immutable byte payloads are
//! persisted under an identifier derived from their content.
//!
//! The write path is the core: canonical byte encoding of storable objects
//! (blobs and trees), content hashing and identifier derivation, and a
//! compressed, atomic, write-temp-then-rename persistence protocol.
use vstd::prelude::*;

pub mod blob;
pub mod codec;
pub mod database;
pub mod entry;
pub mod protocol;
pub mod tree;
pub mod workspace;

verus! {

} // verus!
