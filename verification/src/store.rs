//! The document store: exclusive ownership of one document tree, with all
//! access arbitrated by a single readers-writer lock.
//!
//! Any number of readers may hold the lock together; a writer excludes
//! readers and other writers. The lock's invariant is the document's
//! well-formedness, so every reader borrows a well-formed tree and a writer
//! can only put a well-formed tree back.

use vstd::prelude::*;
use vstd::rwlock::{RwLock, RwLockPredicate, ReadHandle, WriteHandle};
use crate::document::Document;

verus! {

/// What must hold of whatever rests in the store.
pub struct DocPred;

impl RwLockPredicate<Document> for DocPred {
    open spec fn inv(self, d: Document) -> bool {
        d.wf()
    }
}

/// Owns a document exclusively; every read and every mutation passes its
/// readers-writer lock.
pub struct DocumentStore {
    lock: RwLock<Document, DocPred>,
}

impl DocumentStore {
    /// A store over the given document.
    pub fn new(doc: Document) -> DocumentStore
        requires
            doc.wf(),
    {
        DocumentStore { lock: RwLock::new(doc, Ghost(DocPred)) }
    }

    /// Blocks until no writer holds the lock, then grants shared read
    /// access; the guarded document is well formed. The guard's `borrow`
    /// lends the document out, and its `release_read` gives the lock back.
    pub fn acquire_read(&self) -> (guard: ReadHandle<'_, Document, DocPred>)
        ensures
            guard.view().wf(),
    {
        self.lock.acquire_read()
    }

    /// Blocks until no reader or writer holds the lock, then grants
    /// exclusive access: the well-formed document itself, and a guard whose
    /// `release_write` takes the (possibly mutated, still well-formed)
    /// document back and releases the lock.
    pub fn acquire_write(&self) -> (r: (Document, WriteHandle<'_, Document, DocPred>))
        ensures
            r.0.wf(),
            forall|d: Document| #[trigger] r.1.rwlock().inv(d) == d.wf(),
    {
        let r = self.lock.acquire_write();
        proof {
            assert forall|d: Document| #[trigger] r.1.rwlock().inv(d) == d.wf() by {
            }
        }
        r
    }
}

} // verus!
