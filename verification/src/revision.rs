//! Revisions: numbered, checksummed deltas of one object.

use vstd::prelude::*;

verus! {

/// The model of a revision: its fields as plain values.
pub struct RevisionModel {
    pub object_id: Seq<char>,
    pub base_rev_id: u64,
    pub rev_id: u64,
    pub delta_bytes: Seq<u8>,
    pub author_id: Seq<char>,
    pub checksum: Seq<char>,
}

/// One versioned delta of an object. `base_rev_id` names the revision it was
/// derived from, `checksum` is that of the serialized state after it.
#[derive(Debug, PartialEq, Eq)]
pub struct Revision {
    pub object_id: String,
    pub base_rev_id: u64,
    pub rev_id: u64,
    pub delta_bytes: Vec<u8>,
    pub author_id: String,
    pub checksum: String,
}

impl View for Revision {
    type V = RevisionModel;

    open spec fn view(&self) -> RevisionModel {
        RevisionModel {
            object_id: self.object_id@,
            base_rev_id: self.base_rev_id,
            rev_id: self.rev_id,
            delta_bytes: self.delta_bytes@,
            author_id: self.author_id@,
            checksum: self.checksum@,
        }
    }
}

impl RevisionModel {
    /// A revision follows its base directly.
    pub open spec fn is_step(self) -> bool {
        self.rev_id == self.base_rev_id + 1
    }
}

impl Clone for Revision {
    fn clone(&self) -> (r: Self)
        ensures
            r@ == self@,
    {
        let delta_bytes = self.delta_bytes.clone();
        assert(delta_bytes@ =~= self.delta_bytes@);
        Revision {
            object_id: self.object_id.clone(),
            base_rev_id: self.base_rev_id,
            rev_id: self.rev_id,
            delta_bytes,
            author_id: self.author_id.clone(),
            checksum: self.checksum.clone(),
        }
    }
}

impl Revision {
    /// A revision of the given fields.
    pub fn new(
        object_id: &str,
        base_rev_id: u64,
        rev_id: u64,
        delta_bytes: Vec<u8>,
        author_id: &str,
        checksum: String,
    ) -> (r: Self)
        ensures
            r@ == (RevisionModel {
                object_id: object_id@,
                base_rev_id,
                rev_id,
                delta_bytes: delta_bytes@,
                author_id: author_id@,
                checksum: checksum@,
            }),
    {
        Revision {
            object_id: object_id.to_owned(),
            base_rev_id,
            rev_id,
            delta_bytes,
            author_id: author_id.to_owned(),
            checksum,
        }
    }

    /// Whether the revision follows its base directly.
    pub fn is_step(&self) -> (b: bool)
        ensures
            b == self@.is_step(),
    {
        self.base_rev_id < u64::MAX && self.rev_id == self.base_rev_id + 1
    }

    /// Whether two revisions hold the same in every field.
    pub fn same(&self, other: &Revision) -> (b: bool)
        ensures
            b == (self@ == other@),
    {
        if self.base_rev_id != other.base_rev_id || self.rev_id != other.rev_id {
            return false;
        }
        if self.object_id != other.object_id || self.author_id != other.author_id
            || self.checksum != other.checksum {
            return false;
        }
        let n = self.delta_bytes.len();
        if n != other.delta_bytes.len() {
            return false;
        }
        let mut i: usize = 0;
        while i < n
            invariant
                i <= n,
                n == self.delta_bytes@.len(),
                n == other.delta_bytes@.len(),
                forall|j: int| 0 <= j < i ==> self.delta_bytes@[j] == other.delta_bytes@[j],
            decreases n - i,
        {
            if self.delta_bytes[i] != other.delta_bytes[i] {
                return false;
            }
            i = i + 1;
        }
        assert(self.delta_bytes@ =~= other.delta_bytes@);
        true
    }

    /// The base and the revision id.
    pub fn pair(&self) -> (p: (u64, u64))
        ensures
            p == (self.base_rev_id, self.rev_id),
    {
        (self.base_rev_id, self.rev_id)
    }
}

/// The models of a vector of revisions.
pub open spec fn revisions_view(revisions: Seq<Revision>) -> Seq<RevisionModel> {
    revisions.map_values(|r: Revision| r@)
}

} // verus!
