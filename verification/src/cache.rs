//! The revision log of one object: append-only and without gaps.

use crate::errors::ErrorCode;
use crate::revision::{revisions_view, Revision, RevisionModel};
use vstd::prelude::*;

verus! {

/// Whether the revisions are numbered 1, 2, 3 and so on.
pub open spec fn gapless(log: Seq<RevisionModel>) -> bool {
    forall|i: int| 0 <= i < log.len() ==> (#[trigger] log[i]).rev_id == i + 1
}

/// The entries of `log` whose revision id lies in `from..=to`, in order.
pub open spec fn range_of(log: Seq<RevisionModel>, from: u64, to: u64) -> Seq<RevisionModel> {
    if from == 0 || from > to || from > log.len() {
        Seq::empty()
    } else if to > log.len() {
        log.subrange(from - 1, log.len() as int)
    } else {
        log.subrange(from - 1, to as int)
    }
}

/// The model of a reading of a range of a log.
pub struct RangeModel {
    /// The first id of the range.
    pub from: u64,
    /// The last id of the range.
    pub to: u64,
    /// The id of the entry that comes next, or `None` behind the last id
    /// there is.
    pub next: Option<u64>,
}

impl RangeModel {
    /// The entries of `log` that the reading has still to give.
    pub open spec fn remaining(self, log: Seq<RevisionModel>) -> Seq<RevisionModel> {
        match self.next {
            Some(n) => range_of(log, n, self.to),
            None => Seq::empty(),
        }
    }
}

/// A reading of the entries of a log in a range of ids, one entry at a time.
pub struct RevisionRange {
    from: u64,
    to: u64,
    next: Option<u64>,
}

impl View for RevisionRange {
    type V = RangeModel;

    closed spec fn view(&self) -> RangeModel {
        RangeModel { from: self.from, to: self.to, next: self.next }
    }
}

impl RevisionRange {
    /// The next entry of the range in `cache`, or `None` behind its last one.
    pub fn next(&mut self, cache: &RevisionCache) -> (r: Option<Revision>)
        ensures
            final(self)@.from == old(self)@.from,
            final(self)@.to == old(self)@.to,
            old(self)@.remaining(cache@).len() > 0 ==> r is Some && r->0@ == old(self)@.remaining(
                cache@,
            )[0] && final(self)@.remaining(cache@) == old(self)@.remaining(cache@).skip(1),
            old(self)@.remaining(cache@).len() == 0 ==> r is None && final(self)@ == old(self)@,
    {
        let n = match self.next {
            Some(n) => n,
            None => {
                return None;
            },
        };
        let entries = cache.revisions();
        let count = entries.len();
        if n == 0 || n > self.to || n > count as u64 {
            return None;
        }
        let ghost before = self@.remaining(cache@);
        let revision = entries[(n - 1) as usize].clone();
        self.next = if n < u64::MAX {
            Some(n + 1)
        } else {
            None
        };
        proof {
            assert(before[0] == cache@[n - 1]);
            assert(self@.remaining(cache@) =~= before.skip(1));
        }
        Some(revision)
    }

    /// Starts the reading again, before the first entry of the range.
    pub fn restart(&mut self)
        ensures
            final(self)@ == (RangeModel { next: Some(old(self)@.from), ..old(self)@ }),
    {
        self.next = Some(self.from);
    }

    /// The entries that the reading has still to give, all at once.
    pub fn collect(&mut self, cache: &RevisionCache) -> (r: Vec<Revision>)
        ensures
            revisions_view(r@) == old(self)@.remaining(cache@),
            final(self)@.remaining(cache@).len() == 0,
            final(self)@.from == old(self)@.from,
            final(self)@.to == old(self)@.to,
    {
        let ghost all = self@.remaining(cache@);
        let mut out: Vec<Revision> = Vec::new();
        proof {
            assert(revisions_view(out@) + all =~= all);
        }
        loop
            invariant
                revisions_view(out@) + self@.remaining(cache@) == all,
                self@.from == old(self)@.from,
                self@.to == old(self)@.to,
            ensures
                revisions_view(out@) == all,
                self@.remaining(cache@).len() == 0,
                self@.from == old(self)@.from,
                self@.to == old(self)@.to,
            decreases self@.remaining(cache@).len(),
        {
            let ghost rest = self@.remaining(cache@);
            let ghost sofar = revisions_view(out@);
            match self.next(cache) {
                Some(revision) => {
                    out.push(revision);
                    proof {
                        assert(revisions_view(out@) =~= sofar.push(rest[0]));
                        assert(sofar.push(rest[0]) + rest.skip(1) =~= sofar + rest);
                    }
                },
                None => {
                    proof {
                        assert(sofar + rest =~= sofar);
                    }
                    break ;
                },
            }
        }
        out
    }
}

/// The ordered log of the revisions of one object.
pub struct RevisionCache {
    revisions: Vec<Revision>,
}

impl View for RevisionCache {
    type V = Seq<RevisionModel>;

    closed spec fn view(&self) -> Seq<RevisionModel> {
        revisions_view(self.revisions@)
    }
}

impl RevisionCache {
    /// The log has no gaps: entry `i` holds revision `i + 1`.
    #[verifier::type_invariant]
    spec fn inv(&self) -> bool {
        gapless(revisions_view(self.revisions@))
    }

    /// The id of the latest entry, or `None` for an empty log.
    pub open spec fn spec_latest(&self) -> Option<u64> {
        if self@.len() == 0 {
            None
        } else {
            Some(self@.last().rev_id)
        }
    }

    /// An empty log.
    pub fn new() -> (cache: Self)
        ensures
            cache@ == Seq::<RevisionModel>::empty(),
    {
        proof {
            assert(revisions_view(Seq::<Revision>::empty()) =~= Seq::<RevisionModel>::empty());
        }
        RevisionCache { revisions: Vec::new() }
    }

    /// A log of the given revisions, which must be numbered 1, 2, 3 and so
    /// on; any other list is refused.
    pub fn restore(revisions: Vec<Revision>) -> (r: Result<Self, ErrorCode>)
        ensures
            r is Ok <==> gapless(revisions_view(revisions@)),
            r matches Err(e) ==> e == ErrorCode::OutOfOrder,
            r matches Ok(cache) ==> cache@ == revisions_view(revisions@),
    {
        let ghost log = revisions_view(revisions@);
        let mut i: usize = 0;
        while i < revisions.len()
            invariant
                i <= revisions@.len(),
                log == revisions_view(revisions@),
                forall|j: int| 0 <= j < i ==> (#[trigger] log[j]).rev_id == j + 1,
            decreases revisions@.len() - i,
        {
            assert(log[i as int] == revisions@[i as int]@);
            if i as u64 == u64::MAX || revisions[i].rev_id != i as u64 + 1 {
                return Err(ErrorCode::OutOfOrder);
            }
            i = i + 1;
        }
        Ok(RevisionCache { revisions })
    }

    /// The entries, in order.
    pub fn revisions(&self) -> (r: &Vec<Revision>)
        ensures
            revisions_view(r@) == self@,
            gapless(self@),
    {
        proof {
            use_type_invariant(self);
        }
        &self.revisions
    }

    /// The number of entries.
    pub fn len(&self) -> (n: usize)
        ensures
            n == self@.len(),
    {
        self.revisions.len()
    }

    /// The id of the latest entry, or `None` for an empty log.
    pub fn latest(&self) -> (r: Option<u64>)
        ensures
            r == self.spec_latest(),
            r matches Some(id) ==> id == self@.len(),
            gapless(self@),
    {
        proof {
            use_type_invariant(self);
        }
        let n = self.revisions.len();
        if n == 0 {
            None
        } else {
            assert(self@[n - 1] == self.revisions@[n - 1]@);
            Some(self.revisions[n - 1].rev_id)
        }
    }

    /// Appends a revision. It must be numbered one above the latest entry,
    /// or 1 in an empty log; any other is refused and the log stays as it was.
    pub fn append(&mut self, revision: Revision) -> (r: Result<(), ErrorCode>)
        ensures
            r is Ok <==> revision.rev_id == old(self)@.len() + 1,
            r is Ok ==> final(self)@ == old(self)@.push(revision@),
            r is Err ==> r == Err::<(), ErrorCode>(ErrorCode::OutOfOrder) && final(self)@ == old(
                self,
            )@,
    {
        proof {
            use_type_invariant(&*self);
        }
        let n = self.revisions.len();
        if n as u64 == u64::MAX || revision.rev_id != n as u64 + 1 {
            return Err(ErrorCode::OutOfOrder);
        }
        let ghost before = self@;
        let mut revisions: Vec<Revision> = Vec::new();
        proof {
            assert(revisions_view(revisions@) =~= Seq::<RevisionModel>::empty());
        }
        core::mem::swap(&mut self.revisions, &mut revisions);
        revisions.push(revision);
        proof {
            assert(revisions_view(revisions@) =~= before.push(revision@));
        }
        self.revisions = revisions;
        Ok(())
    }

    /// A reading of the entries whose revision id lies in `from..=to`, in
    /// order. It starts before the first of them; nothing is read until it
    /// is asked for, and it can be started again. Ids beyond the log give no
    /// entry.
    pub fn read_range(&self, from: u64, to: u64) -> (r: RevisionRange)
        ensures
            r@ == (RangeModel { from, to, next: Some(from) }),
            r@.remaining(self@) == range_of(self@, from, to),
    {
        RevisionRange { from, to, next: Some(from) }
    }

    /// All entries, in order.
    pub fn read_all(&self) -> (r: Vec<Revision>)
        ensures
            revisions_view(r@) == self@,
    {
        let n = self.revisions.len();
        let mut range = self.read_range(1, n as u64);
        let r = range.collect(self);
        proof {
            assert(range_of(self@, 1, n as u64) =~= self@);
        }
        r
    }

    /// Forgets every entry.
    pub fn clear(&mut self)
        ensures
            final(self)@ == Seq::<RevisionModel>::empty(),
    {
        proof {
            assert(revisions_view(Seq::<Revision>::empty()) =~= Seq::<RevisionModel>::empty());
        }
        self.revisions = Vec::new();
    }
}

} // verus!
