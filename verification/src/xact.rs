//! Transaction management: xid allocation, the set of in-flight
//! transactions, snapshots and the visibility predicate, and the global
//! xmin floor.
use crate::Xid;
use vstd::prelude::*;
use vstd::multiset::Multiset;
use vstd::seq_lib::group_to_multiset_ensures;
use vstd::string::StringExecFns;

verus! {

/// Allocation refuses new xids once `nextxid` comes within the configured
/// headroom of this stop limit, to avoid wraparound data loss.
pub const XID_STOP: u64 = u64::MAX - 333;

/// Failures surfaced by the transaction subsystem.
#[derive(Copy, Clone, Debug, PartialEq, Eq, Structural)]
pub enum XactError {
    /// No xids left before the wraparound stop limit.
    XidExhausted,
    /// A session entry point found the transaction block in a state the
    /// command is not allowed in; the session is marked dead.
    BadBlockState,
    /// Transaction cleanup ran outside an aborted transaction; the session
    /// is marked dead.
    BadCleanupState,
}

/// A bag of xids: the snapshot lower bounds currently held by live
/// snapshots. Its minimum is the floor below which xids may be vacuumed.
pub struct XidMultiset {
    d: Vec<Xid>,
}

impl XidMultiset {
    pub closed spec fn mset(self) -> Multiset<Xid> {
        self.d@.to_multiset()
    }

    pub fn new() -> (r: XidMultiset)
        ensures
            r.mset() == Multiset::<Xid>::empty(),
    {
        let r = XidMultiset { d: Vec::new() };
        proof {
            assert(r.d@.to_multiset() =~= Multiset::<Xid>::empty()) by {
                broadcast use group_to_multiset_ensures;

            }
        }
        r
    }

    /// Adds one occurrence of `value`.
    pub fn insert(&mut self, value: Xid)
        ensures
            final(self).mset() == old(self).mset().insert(value),
    {
        self.d.push(value);
        proof {
            broadcast use group_to_multiset_ensures;

        }
    }

    /// Removes one occurrence of `value`; reports whether one was there.
    pub fn remove(&mut self, value: Xid) -> (r: bool)
        ensures
            r <==> old(self).mset().count(value) > 0,
            r ==> final(self).mset() == old(self).mset().remove(value),
            !r ==> final(self).mset() == old(self).mset(),
    {
        proof {
            broadcast use group_to_multiset_ensures;

        }
        let mut i: usize = 0;
        while i < self.d.len()
            invariant
                i <= self.d@.len(),
                self.d@ == old(self).d@,
                forall|j: int| 0 <= j < i ==> self.d@[j] != value,
            decreases self.d@.len() - i,
        {
            if self.d[i] == value {
                proof {
                    assert(old(self).d@[i as int] == value);
                    assert(old(self).d@.contains(value));
                }
                self.d.remove(i);
                proof {
                    broadcast use group_to_multiset_ensures;

                    assert(self.d@ == old(self).d@.remove(i as int));
                    assert(self.d@.to_multiset() =~= old(self).d@.to_multiset().remove(value));
                }
                return true;
            }
            i = i + 1;
        }
        proof {
            broadcast use group_to_multiset_ensures;

            assert(!self.d@.contains(value));
        }
        false
    }

    /// The least registered xid, if any is registered.
    pub fn first(&self) -> (r: Option<Xid>)
        ensures
            r matches Some(m) ==> self.mset().count(m) > 0 && forall|y: Xid|
                self.mset().count(y) > 0 ==> m <= y,
            r is None <==> self.mset() == Multiset::<Xid>::empty(),
    {
        proof {
            broadcast use group_to_multiset_ensures;

        }
        if self.d.len() == 0 {
            proof {
                assert(self.d@.to_multiset() =~= Multiset::<Xid>::empty());
            }
            return None;
        }
        let mut m = self.d[0];
        let mut i: usize = 1;
        while i < self.d.len()
            invariant
                1 <= i <= self.d@.len(),
                self.d@.len() > 0,
                self.d@.contains(m),
                forall|j: int| 0 <= j < i ==> m <= self.d@[j],
            decreases self.d@.len() - i,
        {
            if self.d[i] < m {
                m = self.d[i];
            }
            i = i + 1;
        }
        proof {
            broadcast use group_to_multiset_ensures;

            assert(self.mset().len() > 0);
            assert forall|y: Xid| self.mset().count(y) > 0 implies m <= y by {
                assert(self.d@.contains(y));
                let j = choose|j: int| 0 <= j < self.d@.len() && self.d@[j] == y;
                assert(m <= self.d@[j]);
            }
        }
        Some(m)
    }
}

/// The in-flight transactions and the xid allocation cursor.
pub struct RunningXactState {
    /// The in-flight xids, each listed once.
    pub xids: Vec<Xid>,
    /// The greatest xid that has completed; never downgraded.
    pub last_completed: Xid,
    /// The next xid to hand out.
    pub nextxid: Xid,
    /// Headroom kept before `XID_STOP`.
    pub xid_stop_limit: u64,
}

impl RunningXactState {
    pub open spec fn spec_contains(self, x: Xid) -> bool {
        self.xids@.contains(x)
    }

    pub open spec fn wf(self) -> bool {
        &&& forall|i: int| 0 <= i < self.xids@.len() ==> 0 < #[trigger] self.xids@[i]
            < self.nextxid
        &&& forall|i: int, j: int|
            0 <= i < j < self.xids@.len() ==> self.xids@[i] != self.xids@[j]
        &&& self.last_completed < self.nextxid
        &&& !self.spec_contains(self.last_completed)
        &&& forall|t: Xid|
            0 < t < self.nextxid && !self.spec_contains(t) ==> t <= self.last_completed
        &&& self.xid_stop_limit < XID_STOP
    }
}

/// The index at which `x` sits in `xids`.
fn find_xid(xids: &Vec<Xid>, x: Xid) -> (r: usize)
    requires
        xids@.contains(x),
    ensures
        r < xids@.len(),
        xids@[r as int] == x,
{
    let n = xids.len();
    let mut i: usize = 0;
    while i < n
        invariant
            i <= n,
            n == xids@.len(),
            xids@.contains(x),
            forall|j: int| 0 <= j < i ==> xids@[j] != x,
        decreases n - i,
    {
        if xids[i] == x {
            return i;
        }
        i = i + 1;
    }
    proof {
        let j = choose|j: int| 0 <= j < xids@.len() && xids@[j] == x;
        assert(false);
    }
    0
}

/// A snapshot: the view of transaction state a reader holds for the length
/// of its transaction.
#[derive(Clone, Debug)]
pub struct Snapshot {
    /// Below this everything is decided: no xid under `xmin` was running.
    pub xmin: Xid,
    /// The greatest completed xid when the snapshot was taken.
    pub xmax: Xid,
    /// The in-flight xids other than `xmin` at snapshot time.
    pub xidset: Vec<Xid>,
}

/// The visibility predicate: whether `xid` is to be treated as still
/// running from the snapshot's perspective.
pub open spec fn spec_is_running(s: Snapshot, xid: Xid) -> bool {
    if xid > s.xmax {
        true
    } else if xid < s.xmin {
        false
    } else if xid == s.xmax {
        false
    } else if xid == s.xmin {
        true
    } else {
        s.xidset@.contains(xid)
    }
}

impl Snapshot {
    /// Whether `xid` was still running when this snapshot was taken.
    pub fn is_running(&self, xid: Xid) -> (r: bool)
        ensures
            r == spec_is_running(*self, xid),
    {
        if xid > self.xmax {
            return true;
        }
        if xid < self.xmin {
            return false;
        }
        if xid == self.xmax {
            return false;
        }
        if xid == self.xmin {
            return true;
        }
        let mut i: usize = 0;
        while i < self.xidset.len()
            invariant
                i <= self.xidset@.len(),
                self.xmin < xid < self.xmax,
                forall|j: int| 0 <= j < i ==> self.xidset@[j] != xid,
            decreases self.xidset@.len() - i,
        {
            if self.xidset[i] == xid {
                proof {
                    assert(self.xidset@[i as int] == xid);
                    assert(self.xidset@.contains(xid));
                }
                return true;
            }
            i = i + 1;
        }
        false
    }
}

/// The process-wide transaction state: the in-flight set behind its lock,
/// the bag of live snapshot lower bounds, and the checkpoint-delay count.
pub struct GlobalStateExt {
    pub running: RunningXactState,
    pub xmins: XidMultiset,
    pub ckpt_delay_num: u32,
}

impl GlobalStateExt {
    pub open spec fn wf(self) -> bool {
        &&& self.running.wf()
        &&& self.running.nextxid <= XID_STOP
    }

    /// A fresh transaction manager that will hand out xids from `nextxid`
    /// on, keeping `xid_stop_limit` of headroom before the stop limit.
    pub fn new(nextxid: Xid, xid_stop_limit: i32) -> (r: GlobalStateExt)
        requires
            0 < nextxid < XID_STOP,
            xid_stop_limit >= 0,
        ensures
            r.wf(),
            r.running.nextxid == nextxid,
            r.running.last_completed == nextxid - 1,
            r.running.xids@.len() == 0,
            r.running.xid_stop_limit == xid_stop_limit,
            r.xmins.mset() == Multiset::<Xid>::empty(),
            r.ckpt_delay_num == 0,
    {
        GlobalStateExt {
            running: RunningXactState {
                xids: Vec::new(),
                last_completed: crate::dec_xid(nextxid),
                nextxid,
                xid_stop_limit: xid_stop_limit as u64,
            },
            xmins: XidMultiset::new(),
            ckpt_delay_num: 0,
        }
    }

    /// Allocates the next xid and marks it in-flight, unless doing so
    /// would eat into the wraparound headroom.
    pub fn start_xid(&mut self) -> (r: Result<Xid, XactError>)
        requires
            old(self).wf(),
        ensures
            final(self).wf(),
            final(self).xmins == old(self).xmins,
            final(self).ckpt_delay_num == old(self).ckpt_delay_num,
            r is Err <==> old(self).running.nextxid >= XID_STOP
                - old(self).running.xid_stop_limit,
            r matches Err(e) ==> e == XactError::XidExhausted && *final(self) == *old(self),
            r matches Ok(x) ==> {
                &&& x == old(self).running.nextxid
                &&& final(self).running.nextxid == x + 1
                &&& final(self).running.last_completed == old(self).running.last_completed
                &&& final(self).running.xids@ == old(self).running.xids@.push(x)
                &&& final(self).running.spec_contains(x)
                &&& final(self).running.xid_stop_limit == old(self).running.xid_stop_limit
            },
    {
        if self.running.nextxid >= XID_STOP - self.running.xid_stop_limit {
            return Err(XactError::XidExhausted);
        }
        let xid = self.running.nextxid;
        self.running.nextxid = crate::inc_xid(xid);
        self.running.xids.push(xid);
        proof {
            assert(self.running.xids@.last() == xid);
            assert(self.running.spec_contains(xid));
            assert forall|t: Xid|
                0 < t < self.running.nextxid && !self.running.spec_contains(t) implies t
                <= self.running.last_completed by {
                if t < old(self).running.nextxid {
                    assert(!old(self).running.spec_contains(t)) by {
                        if old(self).running.spec_contains(t) {
                            let j = choose|j: int|
                                0 <= j < old(self).running.xids@.len() && old(self).running.xids@[j] == t;
                            assert(self.running.xids@[j] == t);
                        }
                    }
                }
            }
        }
        Ok(xid)
    }

    /// Marks `xid` completed (it leaves the in-flight set and may advance
    /// `last_completed`) and releases the snapshot lower bound `xmin`.
    pub fn end_xid(&mut self, xid: Option<Xid>, xmin: Option<Xid>)
        requires
            old(self).wf(),
            xid matches Some(x) ==> old(self).running.spec_contains(x) && x != old(self).running.last_completed,
        ensures
            final(self).wf(),
            final(self).ckpt_delay_num == old(self).ckpt_delay_num,
            final(self).running.nextxid == old(self).running.nextxid,
            final(self).running.xid_stop_limit == old(self).running.xid_stop_limit,
            match xid {
                Some(x) => {
                    &&& forall|y: Xid|
                        final(self).running.spec_contains(y) <==> (
                        old(self).running.spec_contains(y) && y != x)
                    &&& final(self).running.last_completed == if old(self).running.last_completed < x {
                        x
                    } else {
                        old(self).running.last_completed
                    }
                },
                None => final(self).running == old(self).running,
            },
            match xmin {
                Some(m) => if old(self).xmins.mset().count(m) > 0 {
                    final(self).xmins.mset() == old(self).xmins.mset().remove(m)
                } else {
                    final(self).xmins.mset() == old(self).xmins.mset()
                },
                None => final(self).xmins == old(self).xmins,
            },
    {
        match xid {
            Some(x) => {
                let ghost prerun = self.running;
                let i = find_xid(&self.running.xids, x);
                self.running.xids.remove(i);
                if self.running.last_completed < x {
                    self.running.last_completed = x;
                }
                proof {
                    let pre = prerun.xids@;
                    let post = self.running.xids@;
                    assert forall|y: Xid|
                        post.contains(y) <==> (pre.contains(y) && y != x) by {
                        if post.contains(y) {
                            let j = choose|j: int| 0 <= j < post.len() && post[j] == y;
                            if j < i {
                                assert(pre[j] == y);
                            } else {
                                assert(pre[j + 1] == y);
                            }
                            assert(pre.contains(y));
                            assert(y != x) by {
                                if j < i {
                                    assert(pre[j] != pre[i as int] || j == i);
                                } else {
                                    assert(pre[j + 1] != pre[i as int]);
                                }
                            }
                        }
                        if pre.contains(y) && y != x {
                            let j = choose|j: int| 0 <= j < pre.len() && pre[j] == y;
                            assert(j != i);
                            if j < i {
                                assert(post[j] == y);
                            } else {
                                assert(post[j - 1] == y);
                            }
                            assert(post.contains(y));
                        }
                    }
                    assert forall|t: Xid|
                        0 < t < self.running.nextxid && !self.running.spec_contains(t) implies t
                        <= self.running.last_completed by {
                        if t != x {
                            assert(!prerun.spec_contains(t));
                        }
                    }
                    assert(!self.running.spec_contains(self.running.last_completed));
                }
            },
            None => {},
        }
        match xmin {
            Some(m) => {
                let _ = self.xmins.remove(m);
            },
            None => {},
        }
    }

    /// Takes a snapshot of the running state and registers its `xmin` in
    /// the bag of live snapshot lower bounds.
    pub fn get_snap(&mut self) -> (s: Snapshot)
        requires
            old(self).wf(),
        ensures
            final(self).wf(),
            final(self).running == old(self).running,
            final(self).ckpt_delay_num == old(self).ckpt_delay_num,
            snap_of(old(self).running, s),
            final(self).xmins.mset() == old(self).xmins.mset().insert(s.xmin),
            forall|i: int, j: int|
                0 <= i < j < s.xidset@.len() ==> s.xidset@[i] != s.xidset@[j],
    {
        let n = self.running.xids.len();
        let (xmin, xidset) = if n == 0 {
            (crate::inc_xid(self.running.last_completed), Vec::new())
        } else {
            // Find the least in-flight xid, then collect the rest.
            let mut im: usize = 0;
            let mut i: usize = 1;
            while i < n
                invariant
                    1 <= i <= n,
                    im < i,
                    n == self.running.xids@.len(),
                    forall|j: int|
                        0 <= j < i ==> self.running.xids@[im as int] <= #[trigger] self.running.xids@[j],
                decreases n - i,
            {
                if self.running.xids[i] < self.running.xids[im] {
                    im = i;
                }
                i = i + 1;
            }
            let xmin = self.running.xids[im];
            let mut xidset: Vec<Xid> = Vec::new();
            let mut k: usize = 0;
            while k < n
                invariant
                    k <= n,
                    im < n,
                    n == self.running.xids@.len(),
                    self.running.wf(),
                    xmin == self.running.xids@[im as int],
                    forall|y: Xid| #[trigger]
                        xidset@.contains(y) <==> (exists|j: int|
                            0 <= j < k && j != im && self.running.xids@[j] == y),
                    forall|i2: int, j2: int|
                        0 <= i2 < j2 < xidset@.len() ==> xidset@[i2] != xidset@[j2],
                decreases n - k,
            {
                if k != im {
                    let y = self.running.xids[k];
                    let ghost prev = xidset@;
                    xidset.push(y);
                    proof {
                        assert forall|z: Xid| #[trigger]
                            xidset@.contains(z) <==> (exists|j: int|
                                0 <= j < k + 1 && j != im && self.running.xids@[j] == z) by {
                            if xidset@.contains(z) {
                                let q = choose|q: int|
                                    0 <= q < xidset@.len() && xidset@[q] == z;
                                if q < prev.len() {
                                    assert(prev[q] == z);
                                    assert(prev.contains(z));
                                } else {
                                    assert(z == y);
                                    assert(self.running.xids@[k as int] == z);
                                }
                            }
                            if exists|j: int|
                                0 <= j < k + 1 && j != im && self.running.xids@[j] == z {
                                let j = choose|j: int|
                                    0 <= j < k + 1 && j != im && self.running.xids@[j] == z;
                                if j < k {
                                    assert(prev.contains(z));
                                    let q = choose|q: int|
                                        0 <= q < prev.len() && prev[q] == z;
                                    assert(xidset@[q] == z);
                                } else {
                                    assert(xidset@.last() == z);
                                }
                            }
                        }
                        assert forall|i2: int, j2: int|
                            0 <= i2 < j2 < xidset@.len() implies xidset@[i2] != xidset@[j2] by {
                            if j2 == xidset@.len() - 1 {
                                assert(prev.contains(xidset@[i2]));
                                let q = choose|q: int|
                                    0 <= q < k && q != im && self.running.xids@[q] == xidset@[i2];
                                assert(self.running.xids@[q] != self.running.xids@[k as int]);
                            }
                        }
                    }
                }
                k = k + 1;
            }
            proof {
                assert(self.running.xids@[im as int] == xmin);
                assert(self.running.xids@.contains(xmin));
                assert forall|y: Xid| #[trigger]
                    xidset@.contains(y) <==> (self.running.xids@.contains(y) && y != xmin) by {
                    if xidset@.contains(y) {
                        let j = choose|j: int|
                            0 <= j < n && j != im && self.running.xids@[j] == y;
                        assert(self.running.xids@.contains(y));
                        if j < im {
                            assert(self.running.xids@[j] != self.running.xids@[im as int]);
                        } else {
                            assert(self.running.xids@[im as int] != self.running.xids@[j]);
                        }
                    }
                    if self.running.xids@.contains(y) && y != xmin {
                        let j = choose|j: int|
                            0 <= j < self.running.xids@.len() && self.running.xids@[j] == y;
                        assert(j != im);
                        assert(exists|j2: int|
                            0 <= j2 < n && j2 != im && self.running.xids@[j2] == y);
                    }
                }
            }
            (xmin, xidset)
        };
        self.xmins.insert(xmin);
        Snapshot { xmin, xmax: self.running.last_completed, xidset }
    }

    /// The floor below which no xid is of interest to anyone: the least of
    /// the next unallocated position, the in-flight xids, and the
    /// registered snapshot lower bounds.
    pub fn global_xmin(&self) -> (r: Xid)
        requires
            self.wf(),
        ensures
            r <= self.running.last_completed + 1,
            forall|y: Xid| self.running.spec_contains(y) ==> r <= y,
            forall|y: Xid| self.xmins.mset().count(y) > 0 ==> r <= y,
            r == self.running.last_completed + 1 || self.running.spec_contains(r)
                || self.xmins.mset().count(r) > 0,
    {
        let mut xmin = crate::inc_xid(self.running.last_completed);
        let n = self.running.xids.len();
        let mut i: usize = 0;
        while i < n
            invariant
                i <= n,
                n == self.running.xids@.len(),
                forall|j: int| 0 <= j < i ==> xmin <= #[trigger] self.running.xids@[j],
                xmin <= self.running.last_completed + 1,
                self.running.last_completed < u64::MAX,
                xmin == self.running.last_completed + 1 || self.running.xids@.contains(xmin),
            decreases n - i,
        {
            if self.running.xids[i] < xmin {
                xmin = self.running.xids[i];
                proof {
                    assert(self.running.xids@[i as int] == xmin);
                    assert(self.running.xids@.contains(xmin));
                }
            }
            i = i + 1;
        }
        let minreg = self.xmins.first();
        match minreg {
            Some(m) => {
                if m < xmin {
                    xmin = m;
                }
            },
            None => {},
        }
        proof {
            assert forall|y: Xid| self.running.spec_contains(y) implies xmin <= y by {
                let j = choose|j: int|
                    0 <= j < self.running.xids@.len() && self.running.xids@[j] == y;
            }
        }
        xmin
    }

    /// Holds checkpoints off while a commit is between its WAL record and
    /// its clog advertisement.
    pub fn start_delay_ckpt(&mut self)
        requires
            old(self).ckpt_delay_num < u32::MAX,
        ensures
            final(self).ckpt_delay_num == old(self).ckpt_delay_num + 1,
            final(self).running == old(self).running,
            final(self).xmins == old(self).xmins,
    {
        self.ckpt_delay_num = self.ckpt_delay_num + 1;
    }

    /// Releases one checkpoint delay.
    pub fn stop_delay_ckpt(&mut self)
        requires
            old(self).ckpt_delay_num > 0,
        ensures
            final(self).ckpt_delay_num == old(self).ckpt_delay_num - 1,
            final(self).running == old(self).running,
            final(self).xmins == old(self).xmins,
    {
        self.ckpt_delay_num = self.ckpt_delay_num - 1;
    }

    /// Whether some session is between commit-record emission and clog
    /// advertisement, so a checkpoint must wait.
    pub fn ckpt_is_delayed(&self) -> (r: bool)
        ensures
            r == (self.ckpt_delay_num != 0),
    {
        self.ckpt_delay_num != 0
    }
}

/// The opcodes of the transaction resource manager, kept in the top
/// nibble of the record's `info` byte.
#[derive(Copy, Clone, Debug, PartialEq, Eq, Structural)]
pub enum XactInfo {
    Commit,
    Abort,
}

/// The `info` byte carrying a transaction opcode.
pub open spec fn spec_xact_info_u8(v: XactInfo) -> u8 {
    match v {
        XactInfo::Commit => 0x00,
        XactInfo::Abort => 0x20,
    }
}

pub fn xact_info_u8(v: XactInfo) -> (r: u8)
    ensures
        r == spec_xact_info_u8(v),
{
    match v {
        XactInfo::Commit => 0x00,
        XactInfo::Abort => 0x20,
    }
}

/// The transaction opcode denoted by a record's top info nibble, if any.
pub fn xact_info_from_u8(v: u8) -> (r: Option<XactInfo>)
    ensures
        r matches Some(i) ==> spec_xact_info_u8(i) == v,
        r is None <==> v != 0x00 && v != 0x20,
{
    if v == 0x00 {
        Some(XactInfo::Commit)
    } else if v == 0x20 {
        Some(XactInfo::Abort)
    } else {
        None
    }
}

/// The body of a commit or abort record: when the transaction ended, in
/// whole seconds since the epoch.
#[derive(Copy, Clone, Debug, PartialEq, Eq, Structural)]
pub struct XactRec {
    pub xact_endts: u64,
}

/// The serialized body of a commit or abort record.
pub open spec fn spec_xact_rec_bytes(ts: u64) -> Seq<u8> {
    vstd::bytes::spec_u64_to_le_bytes(ts)
}

/// Serialized length of a commit or abort record body.
pub const XACTRECLEN: usize = 8;

pub fn xact_rec_bytes(ts: u64) -> (r: Vec<u8>)
    ensures
        r@ == spec_xact_rec_bytes(ts),
        r@.len() == XACTRECLEN,
{
    let mut d: Vec<u8> = Vec::new();
    crate::codec::push_u64(&mut d, ts);
    proof {
        vstd::bytes::lemma_auto_spec_u64_to_from_le_bytes();
        assert(d@ =~= spec_xact_rec_bytes(ts));
    }
    d
}

/// Decodes the body of a commit or abort record.
pub fn get_xact_rec(d: &[u8]) -> (r: XactRec)
    requires
        d@.len() >= XACTRECLEN,
    ensures
        r.xact_endts == crate::codec::spec_get_u64(d@, 0),
{
    XactRec { xact_endts: crate::codec::get_u64(d, 0) }
}

/// The transaction resource manager: handles commit and abort records.
pub struct XactRmgr {}

impl XactRmgr {
    pub fn new() -> XactRmgr {
        XactRmgr {  }
    }
}

impl crate::rmgr::Rmgr for XactRmgr {
    /// Replaying a commit or abort record writes that outcome into the
    /// clog for the record's xid; a record with no xid or an unknown
    /// opcode is refused and leaves the state alone.
    open spec fn redo_post(
        &self,
        pre: crate::rmgr::RedoState,
        post: crate::rmgr::RedoState,
        hdr: crate::rec::RecordHdr,
        data: Seq<u8>,
        r: Result<(), crate::WalError>,
    ) -> bool {
        match hdr.xid {
            None => r is Err && post == pre,
            Some(x) => {
                let info = hdr.info & 0xf0;
                if info == spec_xact_info_u8(XactInfo::Commit) || info == spec_xact_info_u8(
                    XactInfo::Abort,
                ) {
                    &&& r is Ok
                    &&& post.nextxid == pre.nextxid
                    &&& post.clog.spec_status(x) == if info == spec_xact_info_u8(
                        XactInfo::Commit,
                    ) {
                        crate::clog::XidStatus::Committed
                    } else {
                        crate::clog::XidStatus::Aborted
                    }
                    &&& forall|y: Xid|
                        y != x ==> post.clog.spec_status(y) == pre.clog.spec_status(y)
                } else {
                    r is Err && post == pre
                }
            },
        }
    }

    fn name(&self) -> &'static str {
        "Transaction"
    }

    fn redo(
        &mut self,
        hdr: &crate::rec::RecordHdr,
        data: &[u8],
        state: &mut crate::rmgr::RedoState,
    ) -> (r: Result<(), crate::WalError>) {
        let xid = match hdr.xid {
            Some(x) => x,
            None => {
                return Err(crate::WalError::MissingXid);
            },
        };
        let status = match xact_info_from_u8(hdr.rmgr_info()) {
            Some(XactInfo::Commit) => crate::clog::XidStatus::Committed,
            Some(XactInfo::Abort) => crate::clog::XidStatus::Aborted,
            None => {
                return Err(crate::WalError::BadInfo);
            },
        };
        state.clog.set_xid_status(xid, status);
        Ok(())
    }

    fn desc(&self, out: &mut String, hdr: &crate::rec::RecordHdr, data: &[u8]) {
        match xact_info_from_u8(hdr.rmgr_info()) {
            Some(XactInfo::Commit) => out.append("COMMIT"),
            Some(XactInfo::Abort) => out.append("ABORT"),
            None => out.append("UNKNOWN"),
        }
    }
}

/// How a snapshot relates to the running state it was taken from.
pub open spec fn snap_of(r: RunningXactState, s: Snapshot) -> bool {
    &&& s.xmax == r.last_completed
    &&& if r.xids@.len() == 0 {
        s.xmin == r.last_completed + 1 && s.xidset@.len() == 0
    } else {
        &&& r.spec_contains(s.xmin)
        &&& forall|i: int| 0 <= i < r.xids@.len() ==> s.xmin <= #[trigger] r.xids@[i]
        &&& forall|y: Xid| #[trigger] s.xidset@.contains(y) <==> r.spec_contains(y) && y != s.xmin
    }
}

/// Snapshot visibility: a snapshot taken from a well-formed running state
/// reports as running exactly the xids that had been started but not yet
/// ended when it was taken; xids not yet handed out also count as running.
pub proof fn lemma_snapshot_visibility(r: RunningXactState, s: Snapshot)
    requires
        r.wf(),
        snap_of(r, s),
    ensures
        forall|t: Xid| 0 < t < r.nextxid ==> (spec_is_running(s, t) <==> r.spec_contains(t)),
        forall|t: Xid| t >= r.nextxid ==> spec_is_running(s, t),
{
    assert forall|t: Xid| 0 < t < r.nextxid implies (spec_is_running(s, t) <==> r.spec_contains(
        t,
    )) by {
        if r.spec_contains(t) {
            assert(t != r.last_completed);
            if r.xids@.len() == 0 {
                assert(false);
            } else {
                assert(s.xmin <= t) by {
                    let i = choose|i: int| 0 <= i < r.xids@.len() && r.xids@[i] == t;
                    assert(s.xmin <= r.xids@[i]);
                }
                if t != s.xmin && t <= s.xmax {
                    assert(s.xidset@.contains(t));
                }
            }
            assert(spec_is_running(s, t));
        } else {
            assert(t <= r.last_completed);
            if r.xids@.len() == 0 {
                assert(t < s.xmin);
            } else {
                if t > s.xmax {
                    assert(false);
                }
                if t == s.xmin {
                    assert(r.spec_contains(s.xmin));
                    assert(false);
                }
                if s.xmin < t < s.xmax {
                    assert(!s.xidset@.contains(t));
                }
            }
            assert(!spec_is_running(s, t));
        }
    }
}


/// The low-level transaction lifecycle of one session.
#[derive(Copy, Clone, Debug, PartialEq, Eq, Structural)]
pub enum TranState {
    Default,
    Start,
    Inprogress,
    Commit,
    Abort,
}

/// The SQL-visible transaction-block state of one session.
#[derive(Copy, Clone, Debug, PartialEq, Eq, Structural)]
pub enum TBlockState {
    Default,
    Started,
    Begin,
    Inprogress,
    End,
    Abort,
    AbortEnd,
    AbortPending,
}

/// One session's transaction context.
pub struct TranCtx {
    pub xid: Option<Xid>,
    pub state: TranState,
    pub block_state: TBlockState,
    /// When the transaction started, in whole seconds since the epoch.
    pub startts: u64,
}

/// The per-session transaction extension.
pub struct SessionStateExt {
    pub tranctx: TranCtx,
    pub snap: Option<Snapshot>,
    /// End LSN of the last record this session inserted and has not yet
    /// made durable.
    pub last_rec_end: Option<crate::Lsn>,
}

impl SessionStateExt {
    /// A fresh session extension, outside any transaction.
    pub fn new(startts: u64) -> (r: SessionStateExt)
        ensures
            r.tranctx.xid is None,
            r.tranctx.state == TranState::Default,
            r.tranctx.block_state == TBlockState::Default,
            r.tranctx.startts == startts,
            r.snap is None,
            r.last_rec_end is None,
    {
        SessionStateExt {
            tranctx: TranCtx {
                xid: None,
                state: TranState::Default,
                block_state: TBlockState::Default,
                startts,
            },
            snap: None,
            last_rec_end: None,
        }
    }
}

/// One SQL session.
pub struct SessionState {
    /// Set when a fatal state-machine violation happened; further
    /// commands on the session are refused by the caller.
    pub dead: bool,
    /// When the current statement started, in whole seconds since the
    /// epoch.
    pub stmt_startts: u64,
    pub xact: SessionStateExt,
}

impl SessionState {
    pub fn new(stmt_startts: u64) -> (r: SessionState)
        ensures
            !r.dead,
            r.stmt_startts == stmt_startts,
            r.xact.tranctx.xid is None,
            r.xact.tranctx.state == TranState::Default,
            r.xact.tranctx.block_state == TBlockState::Default,
            r.xact.snap is None,
            r.xact.last_rec_end is None,
    {
        SessionState { dead: false, stmt_startts, xact: SessionStateExt::new(stmt_startts) }
    }
}

/// The process-wide state a session works against: the transaction
/// manager, the WAL, and the commit log.
pub struct TranEnv {
    pub xact: GlobalStateExt,
    pub wal: crate::wal::GlobalStateExt,
    pub clog: crate::clog::Clog,
}

pub open spec fn env_wf(env: TranEnv) -> bool {
    &&& env.xact.wf()
    &&& env.wal.wf()
    &&& forall|y: Xid|
        y >= env.xact.running.nextxid ==> env.clog.spec_status(y)
            == crate::clog::XidStatus::InProgress
}

/// What must hold between a session and the globals whatever the block
/// state: an owned xid is in flight, undecided, and not yet completed; a
/// held snapshot is registered; an unsynced record end lies in the log.
pub open spec fn sess_env_ok(s: SessionState, env: TranEnv) -> bool {
    &&& env_wf(env)
    &&& (s.xact.tranctx.xid matches Some(x) ==> env.xact.running.spec_contains(x) && x
        != env.xact.running.last_completed && env.clog.spec_status(x)
        != crate::clog::XidStatus::Committed)
    &&& (s.xact.snap matches Some(sn) ==> env.xact.xmins.mset().count(sn.xmin) > 0)
    &&& (s.xact.last_rec_end matches Some(l) ==> l <= env.wal.insert.spec_nextlsn())
}

/// The session state machine's own coherence: which lifecycle state, xid
/// and snapshot each block state admits.
pub open spec fn sess_wf(s: SessionState, env: TranEnv) -> bool {
    &&& sess_env_ok(s, env)
    &&& match s.xact.tranctx.block_state {
        TBlockState::Default => (s.xact.tranctx.state == TranState::Default
            || s.xact.tranctx.state == TranState::Start) && s.xact.tranctx.xid is None
            && s.xact.snap is None,
        TBlockState::Started | TBlockState::Begin | TBlockState::Inprogress | TBlockState::End
            | TBlockState::AbortPending => s.xact.tranctx.state == TranState::Inprogress
            && s.xact.tranctx.xid is Some && s.xact.snap is Some,
        TBlockState::Abort | TBlockState::AbortEnd => s.xact.tranctx.state == TranState::Abort
            && s.xact.tranctx.xid is None && s.xact.snap is None,
    }
}

/// An in-flight xid is never the zero sentinel.
pub proof fn lemma_contained_xid_nonzero(r: RunningXactState, x: Xid)
    requires
        r.wf(),
        r.spec_contains(x),
    ensures
        x > 0,
        x < r.nextxid,
{
    let j = choose|j: int| 0 <= j < r.xids@.len() && r.xids@[j] == x;
    assert(0 < r.xids@[j] < r.nextxid);
}

/// The bytes of a commit or abort record as it ends up in the log: body,
/// stamped header, back-link and final CRC.
pub open spec fn spec_xact_record(
    ts: u64,
    info: XactInfo,
    xid: Option<Xid>,
    prev: Option<crate::Lsn>,
) -> Seq<u8> {
    crate::rec::spec_fill_prev(
        crate::rec::spec_finish_record(
            Seq::new(crate::rec::RECHDRLEN as nat, |i: int| 0u8) + spec_xact_rec_bytes(ts),
            crate::rec::RmgrId::Xact,
            spec_xact_info_u8(info),
            xid,
        ),
        prev,
    )
}

/// Emits a commit or abort record bearing the transaction end time, under
/// the session's xid.
fn log_xact_rec(
    sess: &mut SessionState,
    wal: &mut crate::wal::GlobalStateExt,
    xact_endts: u64,
    info: XactInfo,
) -> (lsn: crate::Lsn)
    requires
        old(wal).wf(),
        old(wal).insert.spec_nextlsn() + crate::rec::RECHDRLEN + XACTRECLEN <= u64::MAX,
        old(wal).insert.bufsize + crate::rec::RECHDRLEN + XACTRECLEN <= usize::MAX,
        old(sess).xact.tranctx.xid != Some(0u64),
    ensures
        final(wal).wf(),
        lsn == old(wal).insert.spec_nextlsn() + crate::rec::RECHDRLEN + XACTRECLEN,
        final(wal).insert.spec_nextlsn() == lsn,
        final(wal).log() == old(wal).log() + spec_xact_record(
            xact_endts,
            info,
            old(sess).xact.tranctx.xid,
            old(wal).insert.prevlsn,
        ),
        final(wal).log_start() == old(wal).log_start(),
        final(wal).flush.spec_mark() >= old(wal).flush.spec_mark(),
        final(wal).write.spec_mark() >= old(wal).write.spec_mark(),
        final(wal).insert.redo == old(wal).insert.redo,
        *final(sess) == (SessionState {
            xact: SessionStateExt { last_rec_end: Some(lsn), ..old(sess).xact },
            ..*old(sess)
        }),
{
    let ser = xact_rec_bytes(xact_endts);
    let rec = crate::rec::start_record(ser.as_slice());
    let ghost recview = rec@;
    let lsn = sess.insert_record(wal, crate::rec::RmgrId::Xact, xact_info_u8(info), rec);
    proof {
        let zeros = Seq::new(crate::rec::RECHDRLEN as nat, |i: int| 0u8);
        assert(recview.skip(crate::rec::RECHDRLEN as int) == (zeros + spec_xact_rec_bytes(
            xact_endts,
        )).skip(crate::rec::RECHDRLEN as int)) by {
            assert((zeros + spec_xact_rec_bytes(xact_endts)).skip(crate::rec::RECHDRLEN as int)
                =~= spec_xact_rec_bytes(xact_endts));
        }
        assert(crate::rec::spec_finish_record(
            recview,
            crate::rec::RmgrId::Xact,
            spec_xact_info_u8(info),
            old(sess).xact.tranctx.xid,
        ) == crate::rec::spec_finish_record(
            zeros + spec_xact_rec_bytes(xact_endts),
            crate::rec::RmgrId::Xact,
            spec_xact_info_u8(info),
            old(sess).xact.tranctx.xid,
        ));
    }
    lsn
}

/// Completes the session's transaction against the shared state: the xid
/// leaves the in-flight set and the snapshot's lower bound is released.
fn end_xid(sess: &mut SessionState, env: &mut TranEnv)
    requires
        env_wf(*old(env)),
        old(sess).xact.tranctx.xid matches Some(x) ==> old(env).xact.running.spec_contains(x)
            && x != old(env).xact.running.last_completed,
    ensures
        final(sess).xact.tranctx.xid is None,
        final(sess).xact.snap is None,
        final(sess).xact.tranctx.state == old(sess).xact.tranctx.state,
        final(sess).xact.tranctx.block_state == old(sess).xact.tranctx.block_state,
        final(sess).xact.tranctx.startts == old(sess).xact.tranctx.startts,
        final(sess).xact.last_rec_end == old(sess).xact.last_rec_end,
        final(sess).dead == old(sess).dead,
        final(sess).stmt_startts == old(sess).stmt_startts,
        final(env).wal == old(env).wal,
        final(env).clog == old(env).clog,
        final(env).xact.wf(),
        final(env).xact.ckpt_delay_num == old(env).xact.ckpt_delay_num,
        final(env).xact.running.nextxid == old(env).xact.running.nextxid,
        match old(sess).xact.tranctx.xid {
            Some(x) => {
                &&& forall|y: Xid|
                    final(env).xact.running.spec_contains(y) <==> (old(env).xact.running.spec_contains(y) && y != x)
                &&& final(env).xact.running.last_completed == if old(env).xact.running.last_completed < x {
                    x
                } else {
                    old(env).xact.running.last_completed
                }
            },
            None => final(env).xact.running == old(env).xact.running,
        },
        env_wf(*final(env)),
{
    let xid = sess.xact.tranctx.xid;
    let snapxmin = match &sess.xact.snap {
        Some(s) => Some(s.xmin),
        None => None,
    };
    env.xact.end_xid(xid, snapxmin);
    sess.xact.tranctx.xid = None;
    sess.xact.snap = None;
    proof {
        assert forall|y: Xid|
            y >= final(env).xact.running.nextxid implies final(env).clog.spec_status(y)
            == crate::clog::XidStatus::InProgress by {}
    }
}

/// The commit protocol: emit the commit record, make the log durable up
/// to it, and only then advertise the commit in the clog. A checkpoint is
/// held off in between.
fn record_tran_commit(sess: &mut SessionState, env: &mut TranEnv, now: u64)
    requires
        sess_env_ok(*old(sess), *old(env)),
        old(env).wal.insert.spec_nextlsn() + crate::rec::RECHDRLEN + XACTRECLEN <= u64::MAX,
        old(env).wal.insert.bufsize + crate::rec::RECHDRLEN + XACTRECLEN <= usize::MAX,
        old(env).xact.ckpt_delay_num < u32::MAX,
    ensures
        final(env).xact.running == old(env).xact.running,
        final(env).xact.xmins == old(env).xact.xmins,
        final(env).xact.ckpt_delay_num == old(env).xact.ckpt_delay_num,
        final(env).wal.wf(),
        final(env).wal.log_start() == old(env).wal.log_start(),
        final(env).wal.insert.redo == old(env).wal.insert.redo,
        final(sess).xact.last_rec_end is None,
        final(sess).xact.tranctx == old(sess).xact.tranctx,
        final(sess).xact.snap == old(sess).xact.snap,
        final(sess).dead == old(sess).dead,
        final(sess).stmt_startts == old(sess).stmt_startts,
        env_wf(*final(env)),
        match old(sess).xact.tranctx.xid {
            Some(x) => {
                &&& final(env).clog.spec_status(x) == crate::clog::XidStatus::Committed
                &&& forall|y: Xid|
                    y != x ==> final(env).clog.spec_status(y) == old(env).clog.spec_status(y)
                &&& final(env).wal.log() == old(env).wal.log() + spec_xact_record(
                    now,
                    XactInfo::Commit,
                    Some(x),
                    old(env).wal.insert.prevlsn,
                )
                &&& final(env).wal.flush.spec_mark() >= old(env).wal.insert.spec_nextlsn()
                    + crate::rec::RECHDRLEN + XACTRECLEN
            },
            None => {
                &&& final(env).clog == old(env).clog
                &&& final(env).wal.log() == old(env).wal.log()
                &&& (old(sess).xact.last_rec_end matches Some(l)
                    ==> final(env).wal.flush.spec_mark() >= l)
            },
        },
{
    let has_xid = sess.xact.tranctx.xid.is_some();
    if has_xid {
        proof {
            lemma_contained_xid_nonzero(
                env.xact.running,
                old(sess).xact.tranctx.xid.unwrap(),
            );
        }
        env.xact.start_delay_ckpt();
        let _ = log_xact_rec(sess, &mut env.wal, now, XactInfo::Commit);
    }
    match sess.xact.last_rec_end {
        Some(l) => {
            env.wal.fsync(l);
            sess.xact.last_rec_end = None;
        },
        None => {},
    }
    match sess.xact.tranctx.xid {
        Some(x) => {
            proof {
                lemma_contained_xid_nonzero(env.xact.running, x);
            }
            env.clog.set_xid_status(x, crate::clog::XidStatus::Committed);
            env.xact.stop_delay_ckpt();
        },
        None => {},
    }
}

/// The abort protocol: emit the abort record and write the clog, without
/// making anything durable. The absence of a durable commit record is by
/// itself enough to treat the xid as aborted after recovery.
fn record_tran_abort(sess: &mut SessionState, env: &mut TranEnv, now: u64)
    requires
        sess_env_ok(*old(sess), *old(env)),
        old(env).wal.insert.spec_nextlsn() + crate::rec::RECHDRLEN + XACTRECLEN <= u64::MAX,
        old(env).wal.insert.bufsize + crate::rec::RECHDRLEN + XACTRECLEN <= usize::MAX,
    ensures
        final(env).xact == old(env).xact,
        final(env).wal.wf(),
        final(env).wal.log_start() == old(env).wal.log_start(),
        final(env).wal.insert.redo == old(env).wal.insert.redo,
        final(env).wal.insert.spec_nextlsn() >= old(env).wal.insert.spec_nextlsn(),
        final(sess).xact.last_rec_end is None,
        final(sess).xact.tranctx == old(sess).xact.tranctx,
        final(sess).xact.snap == old(sess).xact.snap,
        final(sess).dead == old(sess).dead,
        final(sess).stmt_startts == old(sess).stmt_startts,
        env_wf(*final(env)),
        match old(sess).xact.tranctx.xid {
            Some(x) => {
                &&& final(env).clog.spec_status(x) == crate::clog::XidStatus::Aborted
                &&& forall|y: Xid|
                    y != x ==> final(env).clog.spec_status(y) == old(env).clog.spec_status(y)
                &&& final(env).wal.log() == old(env).wal.log() + spec_xact_record(
                    now,
                    XactInfo::Abort,
                    Some(x),
                    old(env).wal.insert.prevlsn,
                )
            },
            None => {
                &&& final(env).clog == old(env).clog
                &&& final(env).wal == old(env).wal
            },
        },
{
    match sess.xact.tranctx.xid {
        Some(x) => {
            proof {
                lemma_contained_xid_nonzero(env.xact.running, x);
                // A session never holds an already-committed xid, so the
                // fatal commit-then-abort inconsistency cannot arise here.
                assert(env.clog.spec_status(x) != crate::clog::XidStatus::Committed);
            }
            let _ = log_xact_rec(sess, &mut env.wal, now, XactInfo::Abort);
            env.clog.set_xid_status(x, crate::clog::XidStatus::Aborted);
        },
        None => {},
    }
    sess.xact.last_rec_end = None;
}


/// The session entry points: how SQL commands drive the two-level
/// transaction state machine against the shared engine state.
impl SessionState {

    pub fn start_tran_cmd(&mut self, env: &mut TranEnv) -> (r: Result<(), XactError>)
        requires
            sess_wf(*old(self), *old(env)),
        ensures
            sess_wf(*final(self), *final(env)),
            final(env).wal == old(env).wal,
            final(env).clog == old(env).clog,
            match old(self).xact.tranctx.block_state {
                TBlockState::Default => {
                    &&& final(self).dead == old(self).dead
                    &&& (r is Err <==> old(env).xact.running.nextxid >= XID_STOP - old(env).xact.running.xid_stop_limit)
                    &&& (r matches Err(e) ==> e == XactError::XidExhausted && final(self).xact.tranctx.block_state == TBlockState::Default && *final(env) == *old(env))
                    &&& (r is Ok ==> {
                        &&& final(self).xact.tranctx.block_state == TBlockState::Started
                        &&& final(self).xact.tranctx.state == TranState::Inprogress
                        &&& final(self).xact.tranctx.xid == Some(old(env).xact.running.nextxid)
                        &&& final(self).xact.tranctx.startts == old(self).stmt_startts
                        &&& final(self).xact.snap is Some
                        &&& final(env).xact.running.nextxid == old(env).xact.running.nextxid + 1
                        &&& final(env).xact.running.spec_contains(
                            old(env).xact.running.nextxid,
                        )
                    })
                },
                TBlockState::Inprogress | TBlockState::Abort => r is Ok && *final(self) == *old(self) && *final(env) == *old(env),
                _ => r matches Err(e) && e == XactError::BadBlockState && final(self).dead
                    && final(self).xact == old(self).xact && *final(env) == *old(env),
            },
    {
        match self.xact.tranctx.block_state {
            TBlockState::Default => {
                let res = start_tran(self, env);
                match res {
                    Ok(_) => {
                        self.xact.tranctx.block_state = TBlockState::Started;
                        Ok(())
                    },
                    Err(e) => Err(e),
                }
            },
            TBlockState::Inprogress | TBlockState::Abort => Ok(()),
            _ => {
                self.dead = true;
                Err(XactError::BadBlockState)
            },
        }
    }

    pub fn commit_tran_cmd(&mut self, env: &mut TranEnv, now: u64) -> (r: Result<(), XactError>)
        requires
            sess_wf(*old(self), *old(env)),
            old(env).wal.insert.spec_nextlsn() + crate::rec::RECHDRLEN + XACTRECLEN <= u64::MAX,
            old(env).wal.insert.bufsize + crate::rec::RECHDRLEN + XACTRECLEN <= usize::MAX,
            old(env).xact.ckpt_delay_num < u32::MAX,
        ensures
            sess_wf(*final(self), *final(env)),
            match old(self).xact.tranctx.block_state {
                TBlockState::Default => {
                    &&& r matches Err(e) && e == XactError::BadBlockState
                    &&& final(self).dead
                    &&& final(self).xact == old(self).xact
                    &&& *final(env) == *old(env)
                },
                TBlockState::Started | TBlockState::End => {
                    &&& r is Ok
                    &&& final(self).xact.tranctx.block_state == TBlockState::Default
                    &&& final(self).xact.tranctx.state == TranState::Default
                    &&& final(self).xact.tranctx.xid is None
                    &&& final(self).xact.snap is None
                    &&& final(self).xact.last_rec_end is None
                    &&& final(self).dead == old(self).dead
                    &&& (old(self).xact.tranctx.xid matches Some(x) ==> {
                        &&& final(env).clog.spec_status(x) == crate::clog::XidStatus::Committed
                        &&& final(env).wal.log() == old(env).wal.log() + spec_xact_record(
                            now,
                            XactInfo::Commit,
                            Some(x),
                            old(env).wal.insert.prevlsn,
                        )
                        &&& final(env).wal.flush.spec_mark() >= old(env).wal.insert.spec_nextlsn() + crate::rec::RECHDRLEN + XACTRECLEN
                        &&& !final(env).xact.running.spec_contains(x)
                    })
                },
                TBlockState::Begin => {
                    &&& r is Ok
                    &&& final(self).xact.tranctx.block_state == TBlockState::Inprogress
                    &&& final(self).dead == old(self).dead
                    &&& *final(env) == *old(env)
                },
                TBlockState::Inprogress | TBlockState::Abort => r is Ok && *final(self) == *old(self) && *final(env) == *old(env),
                TBlockState::AbortEnd => {
                    &&& r is Ok
                    &&& final(self).xact.tranctx.block_state == TBlockState::Default
                    &&& final(self).xact.tranctx.state == TranState::Default
                    &&& final(self).dead == old(self).dead
                    &&& *final(env) == *old(env)
                },
                TBlockState::AbortPending => {
                    &&& r is Ok
                    &&& final(self).xact.tranctx.block_state == TBlockState::Default
                    &&& final(self).xact.tranctx.state == TranState::Default
                    &&& final(self).xact.tranctx.xid is None
                    &&& final(self).dead == old(self).dead
                    &&& (old(self).xact.tranctx.xid matches Some(x) ==> {
                        &&& final(env).clog.spec_status(x) == crate::clog::XidStatus::Aborted
                        &&& !final(env).xact.running.spec_contains(x)
                        &&& final(env).wal.log() == old(env).wal.log() + spec_xact_record(
                            now,
                            XactInfo::Abort,
                            Some(x),
                            old(env).wal.insert.prevlsn,
                        )
                    })
                },
            },
    {
        match self.xact.tranctx.block_state {
            TBlockState::Default => {
                self.dead = true;
                Err(XactError::BadBlockState)
            },
            TBlockState::Started | TBlockState::End => {
                let res = commit_tran(self, env, now);
                self.xact.tranctx.block_state = TBlockState::Default;
                res
            },
            TBlockState::Begin => {
                self.xact.tranctx.block_state = TBlockState::Inprogress;
                Ok(())
            },
            TBlockState::Inprogress | TBlockState::Abort => Ok(()),
            TBlockState::AbortEnd => {
                let res = cleanup_tran(self);
                self.xact.tranctx.block_state = TBlockState::Default;
                res
            },
            TBlockState::AbortPending => {
                abort_tran(self, env, now);
                let res = cleanup_tran(self);
                self.xact.tranctx.block_state = TBlockState::Default;
                res
            },
        }
    }

    pub fn abort_cur_tran(&mut self, env: &mut TranEnv, now: u64) -> (r: Result<(), XactError>)
        requires
            sess_wf(*old(self), *old(env)),
            old(env).wal.insert.spec_nextlsn() + crate::rec::RECHDRLEN + XACTRECLEN <= u64::MAX,
            old(env).wal.insert.bufsize + crate::rec::RECHDRLEN + XACTRECLEN <= usize::MAX,
        ensures
            sess_wf(*final(self), *final(env)),
            r is Ok,
            final(self).dead == old(self).dead,
            match old(self).xact.tranctx.block_state {
                TBlockState::Default | TBlockState::Started | TBlockState::Begin
                    | TBlockState::End | TBlockState::AbortPending | TBlockState::AbortEnd => {
                    &&& final(self).xact.tranctx.block_state == TBlockState::Default
                    &&& final(self).xact.tranctx.state == TranState::Default
                    &&& final(self).xact.tranctx.xid is None
                    &&& (old(self).xact.tranctx.xid matches Some(x) ==> final(env).clog.spec_status(x) == crate::clog::XidStatus::Aborted && !final(env).xact.running.spec_contains(x)
                        && final(env).wal.log() == old(env).wal.log() + spec_xact_record(
                        now,
                        XactInfo::Abort,
                        Some(x),
                        old(env).wal.insert.prevlsn,
                    ))
                },
                TBlockState::Inprogress => {
                    &&& final(self).xact.tranctx.block_state == TBlockState::Abort
                    &&& final(self).xact.tranctx.state == TranState::Abort
                    &&& final(self).xact.tranctx.xid is None
                    &&& (old(self).xact.tranctx.xid matches Some(x) ==> final(env).clog.spec_status(x) == crate::clog::XidStatus::Aborted && !final(env).xact.running.spec_contains(x)
                        && final(env).wal.log() == old(env).wal.log() + spec_xact_record(
                        now,
                        XactInfo::Abort,
                        Some(x),
                        old(env).wal.insert.prevlsn,
                    ))
                },
                TBlockState::Abort => *final(self) == *old(self) && *final(env) == *old(env),
            },
    {
        match self.xact.tranctx.block_state {
            TBlockState::Default => {
                if self.xact.tranctx.state == TranState::Default {
                    Ok(())
                } else {
                    if self.xact.tranctx.state == TranState::Start {
                        self.xact.tranctx.state = TranState::Inprogress;
                    }
                    abort_tran(self, env, now);
                    cleanup_tran(self)
                }
            },
            TBlockState::Started | TBlockState::Begin | TBlockState::End
                | TBlockState::AbortPending => {
                abort_tran(self, env, now);
                let res = cleanup_tran(self);
                self.xact.tranctx.block_state = TBlockState::Default;
                res
            },
            TBlockState::Inprogress => {
                abort_tran(self, env, now);
                self.xact.tranctx.block_state = TBlockState::Abort;
                Ok(())
            },
            TBlockState::Abort => Ok(()),
            TBlockState::AbortEnd => {
                let res = cleanup_tran(self);
                self.xact.tranctx.block_state = TBlockState::Default;
                res
            },
        }
    }

    pub fn begin_tran_block(&mut self) -> (r: Result<(), XactError>)
        ensures
            final(self).xact.tranctx.state == old(self).xact.tranctx.state,
            final(self).xact.tranctx.xid == old(self).xact.tranctx.xid,
            final(self).xact.snap == old(self).xact.snap,
            final(self).xact.last_rec_end == old(self).xact.last_rec_end,
            match old(self).xact.tranctx.block_state {
                TBlockState::Started => r is Ok && final(self).xact.tranctx.block_state
                    == TBlockState::Begin && final(self).dead == old(self).dead,
                TBlockState::Inprogress | TBlockState::Abort => r is Ok && final(self).xact.tranctx.block_state == old(self).xact.tranctx.block_state && final(self).dead == old(self).dead,
                _ => r matches Err(e) && e == XactError::BadBlockState && final(self).dead
                    && final(self).xact.tranctx.block_state == old(self).xact.tranctx.block_state,
            },
    {
        match self.xact.tranctx.block_state {
            TBlockState::Started => {
                self.xact.tranctx.block_state = TBlockState::Begin;
                Ok(())
            },
            TBlockState::Inprogress | TBlockState::Abort => Ok(()),
            _ => {
                self.dead = true;
                Err(XactError::BadBlockState)
            },
        }
    }

    pub fn end_tran_block(&mut self) -> (r: Result<bool, XactError>)
        ensures
            final(self).xact.tranctx.state == old(self).xact.tranctx.state,
            final(self).xact.tranctx.xid == old(self).xact.tranctx.xid,
            final(self).xact.snap == old(self).xact.snap,
            final(self).xact.last_rec_end == old(self).xact.last_rec_end,
            match old(self).xact.tranctx.block_state {
                TBlockState::Inprogress => r matches Ok(b) && b && final(self).xact.tranctx.block_state == TBlockState::End && final(self).dead == old(self).dead,
                TBlockState::Abort => r matches Ok(b) && !b && final(self).xact.tranctx.block_state == TBlockState::AbortEnd && final(self).dead == old(self).dead,
                TBlockState::Started => r matches Ok(b) && b && final(self).xact.tranctx.block_state == TBlockState::Started && final(self).dead == old(self).dead,
                _ => r matches Err(e) && e == XactError::BadBlockState && final(self).dead
                    && final(self).xact.tranctx.block_state == old(self).xact.tranctx.block_state,
            },
    {
        match self.xact.tranctx.block_state {
            TBlockState::Inprogress => {
                self.xact.tranctx.block_state = TBlockState::End;
                Ok(true)
            },
            TBlockState::Abort => {
                self.xact.tranctx.block_state = TBlockState::AbortEnd;
                Ok(false)
            },
            TBlockState::Started => Ok(true),
            _ => {
                self.dead = true;
                Err(XactError::BadBlockState)
            },
        }
    }

    pub fn user_abort_tran_block(&mut self) -> (r: Result<(), XactError>)
        ensures
            final(self).xact.tranctx.state == old(self).xact.tranctx.state,
            final(self).xact.tranctx.xid == old(self).xact.tranctx.xid,
            final(self).xact.snap == old(self).xact.snap,
            final(self).xact.last_rec_end == old(self).xact.last_rec_end,
            match old(self).xact.tranctx.block_state {
                TBlockState::Inprogress | TBlockState::Started => r is Ok && final(self).xact.tranctx.block_state == TBlockState::AbortPending && final(self).dead
                    == old(self).dead,
                TBlockState::Abort => r is Ok && final(self).xact.tranctx.block_state
                    == TBlockState::AbortEnd && final(self).dead == old(self).dead,
                _ => r matches Err(e) && e == XactError::BadBlockState && final(self).dead
                    && final(self).xact.tranctx.block_state == old(self).xact.tranctx.block_state,
            },
    {
        match self.xact.tranctx.block_state {
            TBlockState::Inprogress | TBlockState::Started => {
                self.xact.tranctx.block_state = TBlockState::AbortPending;
                Ok(())
            },
            TBlockState::Abort => {
                self.xact.tranctx.block_state = TBlockState::AbortEnd;
                Ok(())
            },
            _ => {
                self.dead = true;
                Err(XactError::BadBlockState)
            },
        }
    }

    pub fn is_aborted(&self) -> (r: bool)
        ensures
            r == (self.xact.tranctx.block_state == TBlockState::Abort),
    {
        self.xact.tranctx.block_state == TBlockState::Abort
    }

    pub fn insert_record(
        &mut self,
        wal: &mut crate::wal::GlobalStateExt,
        id: crate::rec::RmgrId,
        info: u8,
        rec: Vec<u8>,
    ) -> (lsn: crate::Lsn)
        requires
            old(wal).wf(),
            crate::rec::RECHDRLEN <= rec@.len() <= u32::MAX,
            old(wal).insert.spec_nextlsn() + rec@.len() <= u64::MAX,
            old(wal).insert.bufsize + rec@.len() <= usize::MAX,
            old(self).xact.tranctx.xid != Some(0u64),
        ensures
            final(wal).wf(),
            lsn == old(wal).insert.spec_nextlsn() + rec@.len(),
            final(wal).insert.spec_nextlsn() == lsn,
            final(wal).log() == old(wal).log() + crate::rec::spec_fill_prev(
                crate::rec::spec_finish_record(rec@, id, info, old(self).xact.tranctx.xid),
                old(wal).insert.prevlsn,
            ),
            final(wal).log_start() == old(wal).log_start(),
            final(wal).flush.spec_mark() >= old(wal).flush.spec_mark(),
            final(wal).write.spec_mark() >= old(wal).write.spec_mark(),
            final(wal).insert.redo == old(wal).insert.redo,
            *final(self) == (SessionState {
                xact: SessionStateExt { last_rec_end: Some(lsn), ..old(self).xact },
                ..*old(self)
            }),
    {
        let mut rec = rec;
        proof {
            crate::rec::lemma_finish_record_len(rec@, id, info, old(self).xact.tranctx.xid);
        }
        crate::rec::finish_record(&mut rec, id, info, self.xact.tranctx.xid);
        proof {
            crate::rec::lemma_fill_prev_len(rec@, wal.insert.prevlsn);
        }
        let ret = wal.insert_record(rec);
        self.xact.last_rec_end = Some(ret);
        ret
    }

    pub fn try_insert_record(
        &mut self,
        wal: &mut crate::wal::GlobalStateExt,
        id: crate::rec::RmgrId,
        info: u8,
        rec: Vec<u8>,
        page_lsn: crate::Lsn,
    ) -> (ret: Option<crate::Lsn>)
        requires
            old(wal).wf(),
            crate::rec::RECHDRLEN <= rec@.len() <= u32::MAX,
            old(wal).insert.spec_nextlsn() + rec@.len() <= u64::MAX,
            old(wal).insert.bufsize + rec@.len() <= usize::MAX,
            old(self).xact.tranctx.xid != Some(0u64),
        ensures
            final(wal).wf(),
            ret is None <==> page_lsn <= old(wal).insert.redo,
            ret is None ==> *final(wal) == *old(wal) && *final(self) == *old(self),
            ret matches Some(lsn) ==> {
                &&& lsn == old(wal).insert.spec_nextlsn() + rec@.len()
                &&& final(wal).log() == old(wal).log() + crate::rec::spec_fill_prev(
                    crate::rec::spec_finish_record(rec@, id, info, old(self).xact.tranctx.xid),
                    old(wal).insert.prevlsn,
                )
                &&& final(wal).log_start() == old(wal).log_start()
                &&& *final(self) == (SessionState {
                    xact: SessionStateExt { last_rec_end: Some(lsn), ..old(self).xact },
                    ..*old(self)
                })
            },
    {
        let mut rec = rec;
        proof {
            crate::rec::lemma_finish_record_len(rec@, id, info, old(self).xact.tranctx.xid);
        }
        crate::rec::finish_record(&mut rec, id, info, self.xact.tranctx.xid);
        proof {
            crate::rec::lemma_fill_prev_len(rec@, wal.insert.prevlsn);
        }
        let ret = wal.try_insert_record(rec, page_lsn);
        match ret {
            None => None,
            Some(lsn) => {
                self.xact.last_rec_end = Some(lsn);
                Some(lsn)
            },
        }
    }
}

/// Starts a transaction: allocates an xid, stamps the start time, and
/// takes the snapshot the session will read with.
fn start_tran(sess: &mut SessionState, env: &mut TranEnv) -> (r: Result<(), XactError>)
    requires
        sess_env_ok(*old(sess), *old(env)),
        old(sess).xact.tranctx.xid is None,
        old(sess).xact.snap is None,
    ensures
        final(sess).dead == old(sess).dead,
        final(sess).stmt_startts == old(sess).stmt_startts,
        final(sess).xact.tranctx.block_state == old(sess).xact.tranctx.block_state,
        final(sess).xact.last_rec_end == old(sess).xact.last_rec_end,
        final(env).wal == old(env).wal,
        final(env).clog == old(env).clog,
        final(env).xact.ckpt_delay_num == old(env).xact.ckpt_delay_num,
        env_wf(*final(env)),
        r is Err <==> old(env).xact.running.nextxid >= XID_STOP - old(env).xact.running.xid_stop_limit,
        r matches Err(e) ==> e == XactError::XidExhausted && *final(env) == *old(env) && final(sess).xact.tranctx.state == TranState::Start && final(sess).xact.tranctx.xid is None && final(sess).xact.snap is None,
        r is Ok ==> {
            let x = old(env).xact.running.nextxid;
            &&& final(sess).xact.tranctx.state == TranState::Inprogress
            &&& final(sess).xact.tranctx.xid == Some(x)
            &&& final(sess).xact.tranctx.startts == old(sess).stmt_startts
            &&& final(sess).xact.snap is Some
            &&& final(env).xact.running.nextxid == x + 1
            &&& final(env).xact.running.spec_contains(x)
            &&& x != final(env).xact.running.last_completed
            &&& final(env).clog.spec_status(x) != crate::clog::XidStatus::Committed
            &&& (final(sess).xact.snap matches Some(sn) ==> final(env).xact.xmins.mset().count(
                sn.xmin,
            ) > 0 && snap_of(final(env).xact.running, sn))
        },
{
    sess.xact.tranctx.state = TranState::Start;
    let xid_res = env.xact.start_xid();
    let xid = match xid_res {
        Ok(x) => x,
        Err(e) => {
            return Err(e);
        },
    };
    sess.xact.tranctx.xid = Some(xid);
    sess.xact.tranctx.startts = sess.stmt_startts;
    sess.xact.tranctx.state = TranState::Inprogress;
    let snap = env.xact.get_snap();
    proof {
        assert(env.xact.running.spec_contains(xid)) by {
            assert(env.xact.running.xids@.last() == xid);
        }
        assert(env.clog.spec_status(xid) == crate::clog::XidStatus::InProgress);
    }
    sess.xact.snap = Some(snap);
    Ok(())
}

/// Commits the session's transaction: run the commit protocol, then
/// release the xid and the snapshot.
fn commit_tran(sess: &mut SessionState, env: &mut TranEnv, now: u64) -> (r: Result<
    (),
    XactError,
>)
    requires
        sess_env_ok(*old(sess), *old(env)),
        old(env).wal.insert.spec_nextlsn() + crate::rec::RECHDRLEN + XACTRECLEN <= u64::MAX,
        old(env).wal.insert.bufsize + crate::rec::RECHDRLEN + XACTRECLEN <= usize::MAX,
        old(env).xact.ckpt_delay_num < u32::MAX,
    ensures
        r is Ok,
        sess_env_ok(*final(sess), *final(env)),
        final(sess).dead == old(sess).dead,
        final(sess).stmt_startts == old(sess).stmt_startts,
        final(sess).xact.tranctx.block_state == old(sess).xact.tranctx.block_state,
        final(sess).xact.tranctx.state == TranState::Default,
        final(sess).xact.tranctx.xid is None,
        final(sess).xact.snap is None,
        final(sess).xact.last_rec_end is None,
        final(env).xact.ckpt_delay_num == old(env).xact.ckpt_delay_num,
        env_wf(*final(env)),
        old(sess).xact.tranctx.xid matches Some(x) ==> {
            &&& final(env).clog.spec_status(x) == crate::clog::XidStatus::Committed
            &&& forall|y: Xid|
                y != x ==> final(env).clog.spec_status(y) == old(env).clog.spec_status(y)
            &&& final(env).wal.log() == old(env).wal.log() + spec_xact_record(
                now,
                XactInfo::Commit,
                Some(x),
                old(env).wal.insert.prevlsn,
            )
            &&& final(env).wal.flush.spec_mark() >= old(env).wal.insert.spec_nextlsn()
                + crate::rec::RECHDRLEN + XACTRECLEN
            &&& !final(env).xact.running.spec_contains(x)
        },
{
    sess.xact.tranctx.state = TranState::Commit;
    record_tran_commit(sess, env, now);
    end_xid(sess, env);
    sess.xact.tranctx.state = TranState::Default;
    Ok(())
}

/// Aborts the session's transaction: run the abort protocol, then release
/// the xid and the snapshot. The session stays in the aborted lifecycle
/// state until cleanup.
fn abort_tran(sess: &mut SessionState, env: &mut TranEnv, now: u64)
    requires
        sess_env_ok(*old(sess), *old(env)),
        old(env).wal.insert.spec_nextlsn() + crate::rec::RECHDRLEN + XACTRECLEN <= u64::MAX,
        old(env).wal.insert.bufsize + crate::rec::RECHDRLEN + XACTRECLEN <= usize::MAX,
    ensures
        sess_env_ok(*final(sess), *final(env)),
        final(sess).dead == old(sess).dead,
        final(sess).stmt_startts == old(sess).stmt_startts,
        final(sess).xact.tranctx.block_state == old(sess).xact.tranctx.block_state,
        final(sess).xact.tranctx.state == TranState::Abort,
        final(sess).xact.tranctx.xid is None,
        final(sess).xact.snap is None,
        final(sess).xact.last_rec_end is None,
        final(env).xact.ckpt_delay_num == old(env).xact.ckpt_delay_num,
        env_wf(*final(env)),
        old(sess).xact.tranctx.xid matches Some(x) ==> {
            &&& final(env).clog.spec_status(x) == crate::clog::XidStatus::Aborted
            &&& forall|y: Xid|
                y != x ==> final(env).clog.spec_status(y) == old(env).clog.spec_status(y)
            &&& !final(env).xact.running.spec_contains(x)
            &&& final(env).wal.log() == old(env).wal.log() + spec_xact_record(
                now,
                XactInfo::Abort,
                Some(x),
                old(env).wal.insert.prevlsn,
            )
        },
        old(sess).xact.tranctx.xid is None ==> final(env).wal == old(env).wal,
{
    sess.xact.tranctx.state = TranState::Abort;
    record_tran_abort(sess, env, now);
    end_xid(sess, env);
}

/// Cleans a session up after an aborted transaction; anything else is a
/// fatal state-machine violation that marks the session dead.
fn cleanup_tran(sess: &mut SessionState) -> (r: Result<(), XactError>)
    ensures
        final(sess).xact.tranctx.block_state == old(sess).xact.tranctx.block_state,
        final(sess).xact.tranctx.xid == old(sess).xact.tranctx.xid,
        final(sess).xact.snap == old(sess).xact.snap,
        final(sess).xact.last_rec_end == old(sess).xact.last_rec_end,
        final(sess).stmt_startts == old(sess).stmt_startts,
        if old(sess).xact.tranctx.state == TranState::Abort {
            &&& r is Ok
            &&& final(sess).xact.tranctx.state == TranState::Default
            &&& final(sess).dead == old(sess).dead
        } else {
            &&& r matches Err(e) && e == XactError::BadCleanupState
            &&& final(sess).dead
            &&& final(sess).xact.tranctx.state == old(sess).xact.tranctx.state
        },
{
    if !matches!(sess.xact.tranctx.state, TranState::Abort) {
        sess.dead = true;
        return Err(XactError::BadCleanupState);
    }
    sess.xact.tranctx.state = TranState::Default;
    Ok(())
}


/// Commit ordering, replay side: the record the commit protocol makes
/// durable passes the whole-record check and decodes back to the same
/// xid, opcode and end time, so replay advances the clog for exactly that
/// transaction.
pub proof fn lemma_xact_record_replayable(
    ts: u64,
    info: XactInfo,
    xid: Xid,
    prev: Option<crate::Lsn>,
)
    requires
        xid != 0,
        prev != Some(0u64),
    ensures
        crate::rec::spec_rec_ok(spec_xact_record(ts, info, Some(xid), prev)),
        spec_xact_record(ts, info, Some(xid), prev).len() == crate::rec::RECHDRLEN + XACTRECLEN,
        crate::rec::spec_rec_hdr(spec_xact_record(ts, info, Some(xid), prev)) == (
        crate::rec::RecordHdr {
            totlen: (crate::rec::RECHDRLEN + XACTRECLEN) as u32,
            info: spec_xact_info_u8(info),
            id: crate::rec::RmgrId::Xact,
            xid: Some(xid),
            prev,
        }),
        crate::codec::spec_get_u64(
            spec_xact_record(ts, info, Some(xid), prev).skip(crate::rec::RECHDRLEN as int),
            0,
        ) == ts,
{
    vstd::bytes::lemma_auto_spec_u64_to_from_le_bytes();
    let zeros = Seq::new(crate::rec::RECHDRLEN as nat, |i: int| 0u8);
    let d = zeros + spec_xact_rec_bytes(ts);
    assert(d.len() == crate::rec::RECHDRLEN + XACTRECLEN);
    crate::rec::lemma_record_round_trip(
        d,
        crate::rec::RmgrId::Xact,
        spec_xact_info_u8(info),
        Some(xid),
        prev,
    );
    assert(d.skip(crate::rec::RECHDRLEN as int) =~= spec_xact_rec_bytes(ts));
    let e = spec_xact_record(ts, info, Some(xid), prev);
    assert(e.skip(crate::rec::RECHDRLEN as int) == spec_xact_rec_bytes(ts));
    assert(spec_xact_rec_bytes(ts).subrange(0, 8) =~= spec_xact_rec_bytes(ts));
    crate::rec::lemma_finish_record_len(
        d,
        crate::rec::RmgrId::Xact,
        spec_xact_info_u8(info),
        Some(xid),
    );
    crate::rec::lemma_fill_prev_len(
        crate::rec::spec_finish_record(
            d,
            crate::rec::RmgrId::Xact,
            spec_xact_info_u8(info),
            Some(xid),
        ),
        prev,
    );
}

} // verus!