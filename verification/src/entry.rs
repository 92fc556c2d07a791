//! A tree entry: the pairing of a relative path and a previously assigned
//! object identifier. Paths and identifiers are byte strings; a path is
//! compared and encoded byte-wise.
use vstd::prelude::*;

verus! {

/// The mathematical content of an [`Entry`]: its path and its object
/// identifier, each as a byte string.
pub struct EntryView {
    pub name: Seq<u8>,
    pub oid: Seq<u8>,
}

/// An immutable pairing of a relative file-system path and the content
/// identifier of the stored object it names. Not itself persisted; consumed
/// only as a member of a tree.
pub struct Entry {
    pub name: Vec<u8>,
    pub oid: Vec<u8>,
}

impl View for Entry {
    type V = EntryView;

    open spec fn view(&self) -> EntryView {
        EntryView { name: self.name@, oid: self.oid@ }
    }
}

impl Entry {
    pub fn new(name: Vec<u8>, oid: Vec<u8>) -> (e: Entry)
        ensures
            e@.name == name@,
            e@.oid == oid@,
    {
        Entry { name, oid }
    }
}

} // verus!
