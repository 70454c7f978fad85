//! The durable-storage binding: a handle tying a document snapshot to one
//! location on disk.
//!
//! Only the computed halves of persistence live here and in [`crate::codec`]:
//! what `create` and `write` put into the file is exactly
//! [`crate::codec::serialize`] of the snapshot, and what `read` makes of the
//! file's text is exactly [`crate::codec::deserialize`] of it. The file
//! operations themselves are I/O and live with the embedding program, which
//! runs them off the cooperative scheduler and hands the text back and
//! forth as plain strings.

use vstd::prelude::*;

use crate::codec::{deserialize, serialize, DataError};
use crate::document::DocumentSnapshot;

verus! {

/// A handle bound to the filesystem path a document is persisted at.
#[derive(Debug)]
pub struct StoredDocument {
    pub location: String,
}

impl StoredDocument {
    /// Binds a handle to `location`.
    pub fn bind(location: String) -> (s: Self)
        ensures
            s.location == location,
    {
        StoredDocument { location }
    }

    /// The text that belongs in the file at `location`: the exact JSON
    /// serialization of `snap`.
    pub fn render(&self, snap: &DocumentSnapshot) -> (out: String)
        ensures
            out@ == crate::codec::ser_document(*snap),
    {
        serialize(snap)
    }

    /// Reconstructs the snapshot from text read back from `location`:
    /// success exactly when the text is the serialization of a snapshot
    /// with a well-formed label map — in particular, on whatever
    /// [`StoredDocument::render`] wrote for such a snapshot; any other
    /// text is a data failure.
    pub fn decode(&self, text: &str) -> (r: Result<DocumentSnapshot, DataError>)
        ensures
            r matches Ok(d) ==> text@ == crate::codec::ser_document(d) && d.meta.wf(),
            forall|d0: DocumentSnapshot|
                text@ == #[trigger] crate::codec::ser_document(d0) && d0.meta.wf() ==> r is Ok,
    {
        deserialize(text)
    }
}

} // verus!
