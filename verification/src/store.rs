//! The document store: the holder of the one live arena of an execution
//! context.
//!
//! The store hands the arena out by shared borrow, by exclusive borrow, or for
//! good. The rules of borrowing keep a shared and an exclusive view from
//! standing side by side. Reading from an empty store is a programming error:
//! each accessor asks for a store that holds a document.
use crate::arena::Arena;
use vstd::prelude::*;

verus! {

/// The holder of the live document.
pub struct BlitzDocument {
    document: Option<Arena>,
}

impl BlitzDocument {
    /// Whether the store holds a document.
    pub closed spec fn is_set(&self) -> bool {
        self.document is Some
    }

    /// The document that the store holds.
    pub closed spec fn arena(&self) -> Arena {
        self.document->0
    }

    /// A store that holds no document yet.
    pub fn new() -> (store: BlitzDocument)
        ensures
            !store.is_set(),
    {
        BlitzDocument { document: None }
    }

    /// Whether the store holds a document.
    pub fn has_document(&self) -> (set: bool)
        ensures
            set == self.is_set(),
    {
        self.document.is_some()
    }

    /// Puts `doc` into the store, in place of what it held.
    pub fn set_document(&mut self, doc: Arena)
        ensures
            final(self).is_set(),
            final(self).arena() == doc,
    {
        self.document = Some(doc);
    }

    /// The document, for reading.
    pub fn document(&self) -> (doc: &Arena)
        requires
            self.is_set(),
        ensures
            *doc == self.arena(),
    {
        self.document.as_ref().unwrap()
    }

    /// The document, for writing. The store holds whatever the borrower
    /// leaves behind.
    pub fn document_mut(&mut self) -> (doc: &mut Arena)
        requires
            old(self).is_set(),
        ensures
            *doc == old(self).arena(),
            final(self).is_set(),
            final(self).arena() == *final(doc),
    {
        self.document.as_mut().unwrap()
    }

    /// Takes the document out of the store, which is empty from then on.
    pub fn document_take(&mut self) -> (doc: Arena)
        requires
            old(self).is_set(),
        ensures
            doc == old(self).arena(),
            !final(self).is_set(),
    {
        self.document.take().unwrap()
    }
}

} // verus!
