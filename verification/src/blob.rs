//! The leaf object kind: a blob wraps the raw bytes of one file, and its
//! canonical encoding is those bytes unchanged.
use vstd::prelude::*;

use crate::codec::copy_bytes;
use crate::database::{ObjectKind, Store};

verus! {

/// A storable object holding the exact contents of one file. The
/// identifier is assigned by the caller after a successful store; until
/// then it is empty.
pub struct Blob {
    pub data: Vec<u8>,
    pub oid: Vec<u8>,
}

impl Blob {
    pub fn new(data: Vec<u8>) -> (b: Blob)
        ensures
            b.data@ == data@,
            b.oid@.len() == 0,
    {
        Blob { data, oid: Vec::new() }
    }
}

/// The ways producing a blob's canonical encoding could fail. A blob's
/// encoding is its bytes unchanged, so today the variant is never built;
/// the channel exists for symmetry with the storable-object capability.
#[derive(Debug)]
pub enum BlobError {
    Unserializable,
}

impl Store<BlobError> for Blob {
    open spec fn obj_kind(&self) -> ObjectKind {
        ObjectKind::Blob
    }

    open spec fn encoding(&self) -> Seq<u8> {
        self.data@
    }

    open spec fn can_serialize(&self) -> bool {
        true
    }

    fn otype(&self) -> (k: ObjectKind) {
        ObjectKind::Blob
    }

    fn serialize(&mut self) -> (r: Result<Vec<u8>, BlobError>) {
        Ok(copy_bytes(&self.data))
    }
}

} // verus!
