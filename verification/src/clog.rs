//! The commit log: the table mapping each xid to its transaction status.
//!
//! Recovery and the commit protocol both write it; visibility checks read
//! it. A transaction that was never decided reads back as in progress.
use crate::Xid;
use vstd::prelude::*;

verus! {

/// The decided state of a transaction.
#[derive(Copy, Clone, Debug, PartialEq, Eq, Structural)]
pub enum XidStatus {
    InProgress,
    Committed,
    Aborted,
}

/// The newest entry for `x`, scanning from the front.
pub open spec fn spec_find(entries: Seq<(Xid, XidStatus)>, x: Xid) -> Option<XidStatus>
    decreases entries.len(),
{
    if entries.len() == 0 {
        None
    } else if entries[0].0 == x {
        Some(entries[0].1)
    } else {
        spec_find(entries.drop_first(), x)
    }
}

/// The commit log. Newer entries shadow older ones.
pub struct Clog {
    entries: Vec<(Xid, XidStatus)>,
}

impl Clog {
    /// The status recorded for `x`; in progress if none was.
    pub closed spec fn spec_status(self, x: Xid) -> XidStatus {
        match spec_find(self.entries@, x) {
            Some(st) => st,
            None => XidStatus::InProgress,
        }
    }

    /// A commit log in which every transaction is still in progress.
    pub fn new() -> (r: Clog)
        ensures
            forall|x: Xid| r.spec_status(x) == XidStatus::InProgress,
    {
        Clog { entries: Vec::new() }
    }

    /// Records that `x` has the status `status`.
    pub fn set_xid_status(&mut self, x: Xid, status: XidStatus)
        ensures
            final(self).spec_status(x) == status,
            forall|y: Xid| y != x ==> final(self).spec_status(y) == old(self).spec_status(y),
    {
        self.entries.insert(0, (x, status));
        proof {
            assert(self.entries@.drop_first() =~= old(self).entries@);
        }
    }

    /// The status recorded for `x`.
    pub fn xid_status(&self, x: Xid) -> (r: XidStatus)
        ensures
            r == self.spec_status(x),
    {
        let n = self.entries.len();
        proof {
            assert(self.entries@.skip(0) =~= self.entries@);
        }
        let mut i: usize = 0;
        while i < n
            invariant
                i <= n,
                n == self.entries@.len(),
                spec_find(self.entries@, x) == spec_find(self.entries@.skip(i as int), x),
            decreases n - i,
        {
            let (k, st) = self.entries[i];
            proof {
                assert(self.entries@.skip(i as int)[0] == self.entries@[i as int]);
                assert(self.entries@.skip(i as int).drop_first() =~= self.entries@.skip(i + 1));
            }
            if k == x {
                return st;
            }
            i = i + 1;
        }
        proof {
            assert(self.entries@.skip(n as int).len() == 0);
        }
        XidStatus::InProgress
    }
}

} // verus!
