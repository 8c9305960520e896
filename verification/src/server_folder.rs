//! The server's copy of a folder: an id and the delta that holds its content.

use crate::compose::compose_ops;
use crate::delta::Delta;
use crate::errors::ErrorCode;
use crate::op::Op;
use crate::semantics::{apply, base_len, normalize, target_len};
use crate::transform::transform_ops;
use vstd::prelude::*;

verus! {

/// The server's copy of a folder.
pub struct ServerFolder {
    folder_id: String,
    delta: Delta,
}

impl ServerFolder {
    /// The folder's id.
    pub closed spec fn spec_id(&self) -> Seq<char> {
        self.folder_id@
    }

    /// The operations of the folder's delta.
    pub closed spec fn delta_view(&self) -> Seq<Op> {
        self.delta@
    }

    /// A folder with the given id and content.
    pub fn from_delta(folder_id: &str, delta: Delta) -> (folder: Self)
        ensures
            folder.spec_id() == folder_id@,
            folder.delta_view() == delta@,
    {
        Self { folder_id: folder_id.to_owned(), delta }
    }

    /// The folder's id.
    pub fn id(&self) -> (id: &str)
        ensures
            id@ == self.spec_id(),
    {
        self.folder_id.as_str()
    }

    /// The folder's delta.
    pub fn delta(&self) -> (delta: &Delta)
        ensures
            delta@ == self.delta_view(),
    {
        &self.delta
    }

    /// Composes `other` onto the folder's delta. Where `other` does not apply
    /// to what the folder holds, the folder is left as it was.
    pub fn compose(&mut self, other: &Delta) -> (r: Result<(), ErrorCode>)
        ensures
            final(self).spec_id() == old(self).spec_id(),
            r is Ok <==> target_len(old(self).delta_view()) == base_len(other@),
            r matches Err(e) ==> e == ErrorCode::MalformedDelta && final(self).delta_view() == old(
                self,
            ).delta_view(),
            r is Ok ==> final(self).delta_view() == normalize(
                compose_ops(old(self).delta_view(), other@),
            ),
    {
        match self.delta.compose(other) {
            Ok(new_delta) => {
                self.delta = new_delta;
                Ok(())
            },
            Err(e) => Err(e),
        }
    }

    /// Transforms the folder's delta and `other`, taken as concurrent edits
    /// of one base document; the folder's delta has priority.
    pub fn transform(&self, other: &Delta) -> (r: Result<(Delta, Delta), ErrorCode>)
        ensures
            r is Ok <==> base_len(self.delta_view()) == base_len(other@) && target_len(
                self.delta_view(),
            ) + target_len(other@) <= usize::MAX,
            r matches Err(e) ==> e == ErrorCode::MalformedDelta,
            r matches Ok(pair) ==> {
                &&& pair.0@ == normalize(transform_ops(self.delta_view(), other@).0)
                &&& pair.1@ == normalize(transform_ops(self.delta_view(), other@).1)
                &&& forall|doc: Seq<char>|
                    doc.len() == base_len(other@) ==> #[trigger] apply(
                        pair.1@,
                        apply(self.delta_view(), doc),
                    ) == apply(pair.0@, apply(other@, doc))
            },
    {
        self.delta.transform(other)
    }

    /// Replaces the folder's delta.
    pub fn set_delta(&mut self, new_delta: Delta)
        ensures
            final(self).spec_id() == old(self).spec_id(),
            final(self).delta_view() == new_delta@,
    {
        self.delta = new_delta;
    }
}

} // verus!
