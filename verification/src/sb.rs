//! The shared buffer: a fixed-capacity cache of pinned, dirty-tracked
//! slots keyed by page identity, with pluggable eviction.
//!
//! Each slot packs its bookkeeping into one state word: pin refcount in
//! the low bits, then flags for a short-lived lock, dirtiness, validity,
//! I/O in progress, I/O failure, and just-dirtied (dirtied again while a
//! flush was running). The cache is modelled as a sequential structure:
//! one caller works on it at a time, so state transitions that a
//! concurrent deployment performs with compare-and-swap appear here as
//! plain updates, with the same bit semantics.
use vstd::prelude::*;

verus! {

/// One pin.
pub const REFCOUNT_ONE: u32 = 1;

/// The low bits of the state word hold the pin refcount.
pub const REFCOUNT_MASK: u32 = 0x3ffff;

/// A short critical section is mutating the state word.
pub const SLOT_LOCKED: u32 = 0x400000;

/// The slot's value differs from its durable copy.
pub const SLOT_DIRTY: u32 = 0x800000;

/// The slot holds a loaded value; once set, never cleared.
pub const SLOT_VALID: u32 = 0x1000000;

/// A load or store is running against this slot.
pub const SLOT_IO_INPROGRESS: u32 = 0x4000000;

/// The last load or store against this slot failed.
pub const SLOT_IO_ERR: u32 = 0x8000000;

/// The slot was dirtied again while a flush was in progress; that flush
/// must not mark it clean.
pub const SLOT_JUST_DIRTIED: u32 = 0x10000000;

/// Failures surfaced by the shared buffer.
#[derive(Copy, Clone, Debug, PartialEq, Eq, Structural)]
pub enum SbError {
    /// Every slot is pinned; nothing can be evicted for the new key.
    NoUnpinnedBuffers,
    /// Loading the value failed; the slot records the error for the next
    /// caller to retry.
    LoadFailed,
    /// Storing the value failed during a flush.
    StoreFailed,
}

pub open spec fn spec_bit(s: u32, b: u32) -> bool {
    s & b != 0
}

pub open spec fn spec_rc(s: u32) -> u32 {
    s & REFCOUNT_MASK
}

pub fn biton(state: u32, bit: u32) -> (r: bool)
    ensures
        r == spec_bit(state, bit),
{
    (state & bit) != 0
}

pub fn dirty(state: u32) -> (r: bool)
    ensures
        r == spec_bit(state, SLOT_DIRTY),
{
    biton(state, SLOT_DIRTY)
}

pub fn just_dirtied(state: u32) -> (r: bool)
    ensures
        r == spec_bit(state, SLOT_JUST_DIRTIED),
{
    biton(state, SLOT_JUST_DIRTIED)
}

pub fn rc(state: u32) -> (r: u32)
    ensures
        r == spec_rc(state),
{
    state & REFCOUNT_MASK
}

pub fn ioerr(state: u32) -> (r: bool)
    ensures
        r == spec_bit(state, SLOT_IO_ERR),
{
    biton(state, SLOT_IO_ERR)
}

pub fn io_in_progress(state: u32) -> (r: bool)
    ensures
        r == spec_bit(state, SLOT_IO_INPROGRESS),
{
    biton(state, SLOT_IO_INPROGRESS)
}

pub fn locked(state: u32) -> (r: bool)
    ensures
        r == spec_bit(state, SLOT_LOCKED),
{
    biton(state, SLOT_LOCKED)
}

pub fn valid(state: u32) -> (r: bool)
    ensures
        r == spec_bit(state, SLOT_VALID),
{
    biton(state, SLOT_VALID)
}

/// Taking a pin: the refcount grows by one and every flag keeps its
/// value.
proof fn lemma_pin_bits(s: u32, t: u32)
    by (bit_vector)
    requires
        s & REFCOUNT_MASK < REFCOUNT_MASK,
        t == s + 1,
    ensures
        t & REFCOUNT_MASK == (s & REFCOUNT_MASK) + 1,
        t & SLOT_DIRTY == s & SLOT_DIRTY,
        t & SLOT_VALID == s & SLOT_VALID,
        t & SLOT_IO_INPROGRESS == s & SLOT_IO_INPROGRESS,
        t & SLOT_IO_ERR == s & SLOT_IO_ERR,
        t & SLOT_JUST_DIRTIED == s & SLOT_JUST_DIRTIED,
        t & SLOT_LOCKED == s & SLOT_LOCKED,
{
}

/// A state word whose refcount is not full is itself not full.
proof fn lemma_rc_small(s: u32)
    by (bit_vector)
    requires
        s & REFCOUNT_MASK < REFCOUNT_MASK,
    ensures
        s < u32::MAX,
{
}

/// Releasing a pin: the refcount shrinks by one and every flag keeps its
/// value.
proof fn lemma_unpin_bits(s: u32, t: u32)
    by (bit_vector)
    requires
        s & REFCOUNT_MASK > 0,
        t == s - 1,
    ensures
        t & REFCOUNT_MASK == (s & REFCOUNT_MASK) - 1,
        t & SLOT_DIRTY == s & SLOT_DIRTY,
        t & SLOT_VALID == s & SLOT_VALID,
        t & SLOT_IO_INPROGRESS == s & SLOT_IO_INPROGRESS,
        t & SLOT_IO_ERR == s & SLOT_IO_ERR,
        t & SLOT_JUST_DIRTIED == s & SLOT_JUST_DIRTIED,
        t & SLOT_LOCKED == s & SLOT_LOCKED,
{
}

/// A positive refcount means a non-zero state word.
proof fn lemma_rc_pos(s: u32)
    by (bit_vector)
    requires
        s & REFCOUNT_MASK > 0,
    ensures
        s >= 1,
{
}

/// A fresh slot's state: one pin, no flags.
proof fn lemma_new_bits()
    by (bit_vector)
    ensures
        REFCOUNT_ONE & REFCOUNT_MASK == 1,
        REFCOUNT_ONE & SLOT_DIRTY == 0,
        REFCOUNT_ONE & SLOT_VALID == 0,
        REFCOUNT_ONE & SLOT_IO_INPROGRESS == 0,
        REFCOUNT_ONE & SLOT_JUST_DIRTIED == 0,
{
}

/// Marking dirty and just-dirtied: both set, everything else kept.
proof fn lemma_mark_dirty_bits(s: u32, t: u32)
    by (bit_vector)
    requires
        t == s | (SLOT_DIRTY | SLOT_JUST_DIRTIED),
    ensures
        t & REFCOUNT_MASK == s & REFCOUNT_MASK,
        t & SLOT_DIRTY != 0,
        t & SLOT_JUST_DIRTIED != 0,
        t & SLOT_VALID == s & SLOT_VALID,
        t & SLOT_IO_INPROGRESS == s & SLOT_IO_INPROGRESS,
        t & SLOT_IO_ERR == s & SLOT_IO_ERR,
{
}

/// Clearing just-dirtied: it alone is cleared.
proof fn lemma_clear_jd_bits(s: u32, t: u32)
    by (bit_vector)
    requires
        t == s & !SLOT_JUST_DIRTIED,
    ensures
        t & REFCOUNT_MASK == s & REFCOUNT_MASK,
        t & SLOT_JUST_DIRTIED == 0,
        t & SLOT_DIRTY == s & SLOT_DIRTY,
        t & SLOT_VALID == s & SLOT_VALID,
        t & SLOT_IO_INPROGRESS == s & SLOT_IO_INPROGRESS,
        t & SLOT_IO_ERR == s & SLOT_IO_ERR,
{
}

/// Claiming the slot for I/O: the in-progress bit alone is set.
proof fn lemma_startio_bits(s: u32, t: u32)
    by (bit_vector)
    requires
        t == s | SLOT_IO_INPROGRESS,
    ensures
        t & REFCOUNT_MASK == s & REFCOUNT_MASK,
        t & SLOT_IO_INPROGRESS != 0,
        t & SLOT_DIRTY == s & SLOT_DIRTY,
        t & SLOT_VALID == s & SLOT_VALID,
        t & SLOT_JUST_DIRTIED == s & SLOT_JUST_DIRTIED,
        t & SLOT_IO_ERR == s & SLOT_IO_ERR,
{
}

/// Ending I/O, first step: the in-progress and error bits are cleared.
proof fn lemma_endio_clear_bits(s: u32, t: u32)
    by (bit_vector)
    requires
        t == s & !(SLOT_IO_INPROGRESS | SLOT_IO_ERR),
    ensures
        t & REFCOUNT_MASK == s & REFCOUNT_MASK,
        t & SLOT_IO_INPROGRESS == 0,
        t & SLOT_IO_ERR == 0,
        t & SLOT_DIRTY == s & SLOT_DIRTY,
        t & SLOT_VALID == s & SLOT_VALID,
        t & SLOT_JUST_DIRTIED == s & SLOT_JUST_DIRTIED,
{
}

/// Ending I/O, flush step: dirty alone is cleared.
proof fn lemma_endio_clean_bits(s: u32, t: u32)
    by (bit_vector)
    requires
        t == s & !SLOT_DIRTY,
    ensures
        t & REFCOUNT_MASK == s & REFCOUNT_MASK,
        t & SLOT_DIRTY == 0,
        t & SLOT_IO_INPROGRESS == s & SLOT_IO_INPROGRESS,
        t & SLOT_IO_ERR == s & SLOT_IO_ERR,
        t & SLOT_VALID == s & SLOT_VALID,
        t & SLOT_JUST_DIRTIED == s & SLOT_JUST_DIRTIED,
{
}

/// Ending I/O, last step: the outcome flag is folded in.
proof fn lemma_endio_set_bits(s: u32, t: u32, f: u32)
    by (bit_vector)
    requires
        t == s | f,
        f == 0 || f == SLOT_VALID || f == SLOT_IO_ERR,
        s & SLOT_IO_INPROGRESS == 0,
        s & SLOT_IO_ERR == 0,
    ensures
        t & REFCOUNT_MASK == s & REFCOUNT_MASK,
        t & SLOT_IO_INPROGRESS == 0,
        (t & SLOT_IO_ERR != 0) == (f == SLOT_IO_ERR),
        (t & SLOT_VALID != 0) == (s & SLOT_VALID != 0 || f == SLOT_VALID),
        t & SLOT_DIRTY == s & SLOT_DIRTY,
        t & SLOT_JUST_DIRTIED == s & SLOT_JUST_DIRTIED,
{
}

/// A cache key: small, copyable, and comparable.
pub trait SBK: Sized + Copy {
    /// Whether two keys denote the same page.
    fn key_eq(&self, other: &Self) -> (r: bool)
        ensures
            r == (*self == *other),
    ;
}

impl SBK for u64 {
    fn key_eq(&self, other: &u64) -> (r: bool)
        ensures
            r == (*self == *other),
    {
        *self == *other
    }
}

impl SBK for u32 {
    fn key_eq(&self, other: &u32) -> (r: bool)
        ensures
            r == (*self == *other),
    {
        *self == *other
    }
}

/// A cached value: how to load it for a key and how to write it back.
/// Implementations do the actual I/O; the cache states what holds of its
/// own bookkeeping whatever they return.
pub trait Value<K: SBK>: Sized {
    /// Context the loader and storer need (a file handle, a directory).
    type Data;

    fn load(k: &K, ctx: &Self::Data) -> Result<Self, SbError>;

    fn store(&self, k: &K, ctx: &Self::Data) -> Result<(), SbError>;
}

/// One cache slot: a key, the value once loaded, the packed state word,
/// and the eviction policy's private data.
pub struct Slot<K: SBK, V: Value<K>, E: EvictPolicy<K, V>> {
    pub k: K,
    pub v: Option<V>,
    pub state: u32,
    pub evict: E::Data,
}

/// An eviction policy: bookkeeping hooks and the choice of a victim.
/// Each hook's effect and the victim choice are pinned down by the
/// policy's own spec functions, so what the cache does is a consequence
/// of the policy's stated behaviour.
pub trait EvictPolicy<K: SBK, V: Value<K>>: Sized {
    /// Policy-private data carried by each slot.
    type Data;

    /// What creating a slot does: how the stamp handed out relates to the
    /// policy state before and after.
    spec fn creates(pre: Self, post: Self, stamp: Self::Data) -> bool;

    /// What dropping a slot does to the policy state.
    spec fn drops(pre: Self, post: Self) -> bool;

    /// Which slots the policy may nominate as victims.
    spec fn is_candidate(&self, slots: Seq<Slot<K, V, Self>>, i: int) -> bool;

    /// Called when a slot is created for `k`; also counts as a use.
    fn on_create_slot(&mut self, k: &K) -> (r: Self::Data)
        ensures
            Self::creates(*old(self), *final(self), r),
    ;

    /// Called when an existing slot for `k` is used.
    fn on_use_slot(&self, k: &K, s: &Self::Data);

    /// Called when the slot for `k` is dropped.
    fn on_drop_slot(&mut self, k: &K, s: &Self::Data)
        ensures
            Self::drops(*old(self), *final(self)),
    ;

    /// Nominates an unpinned victim slot to make room for `newk`. When
    /// none is returned, every slot is pinned.
    fn evict_cand(&self, slots: &Vec<Slot<K, V, Self>>, newk: &K) -> (r: Option<usize>)
        ensures
            r matches Some(i) ==> i < slots@.len() && spec_rc(slots@[i as int].state) == 0
                && self.is_candidate(slots@, i as int),
            r is None ==> forall|j: int|
                0 <= j < slots@.len() ==> spec_rc(#[trigger] slots@[j].state) != 0,
    ;
}

impl<K: SBK, V: Value<K>, E: EvictPolicy<K, V>> Slot<K, V, E> {
    /// A fresh slot for `k`: invalid, clean, and pinned once by its
    /// creator.
    pub fn new(k: &K, evict: E::Data) -> (r: Slot<K, V, E>)
        ensures
            r.k == *k,
            r.v is None,
            r.evict == evict,
            r.state == REFCOUNT_ONE,
            spec_rc(r.state) == 1,
            !spec_bit(r.state, SLOT_VALID),
            !spec_bit(r.state, SLOT_DIRTY),
            !spec_bit(r.state, SLOT_IO_INPROGRESS),
            !spec_bit(r.state, SLOT_JUST_DIRTIED),
    {
        proof {
            lemma_new_bits();
        }
        Slot { k: *k, v: None, state: REFCOUNT_ONE, evict }
    }

    /// Installs the loaded value.
    pub fn setv(&mut self, v: V)
        ensures
            *final(self) == (Slot { v: Some(v), ..*old(self) }),
    {
        self.v = Some(v);
    }

    pub fn get_state(&self) -> (r: u32)
        ensures
            r == self.state,
    {
        self.state
    }

    /// Takes one pin on the slot; reports whether it held a valid value.
    pub fn pin(&mut self) -> (r: bool)
        requires
            spec_rc(old(self).state) < REFCOUNT_MASK,
        ensures
            final(self).k == old(self).k,
            final(self).v == old(self).v,
            final(self).evict == old(self).evict,
            spec_rc(final(self).state) == spec_rc(old(self).state) + 1,
            spec_bit(final(self).state, SLOT_DIRTY) == spec_bit(old(self).state, SLOT_DIRTY),
            spec_bit(final(self).state, SLOT_VALID) == spec_bit(old(self).state, SLOT_VALID),
            spec_bit(final(self).state, SLOT_IO_INPROGRESS) == spec_bit(
                old(self).state,
                SLOT_IO_INPROGRESS,
            ),
            spec_bit(final(self).state, SLOT_IO_ERR) == spec_bit(old(self).state, SLOT_IO_ERR),
            spec_bit(final(self).state, SLOT_JUST_DIRTIED) == spec_bit(
                old(self).state,
                SLOT_JUST_DIRTIED,
            ),
            r == spec_bit(final(self).state, SLOT_VALID),
    {
        let ghost s0 = self.state;
        proof {
            lemma_rc_small(self.state);
        }
        self.state = self.state + 1;
        proof {
            lemma_pin_bits(s0, self.state);
        }
        valid(self.state)
    }

    /// Releases one pin; never blocks.
    pub fn unpin(&mut self)
        requires
            spec_rc(old(self).state) > 0,
        ensures
            final(self).k == old(self).k,
            final(self).v == old(self).v,
            final(self).evict == old(self).evict,
            spec_rc(final(self).state) == spec_rc(old(self).state) - 1,
            spec_bit(final(self).state, SLOT_DIRTY) == spec_bit(old(self).state, SLOT_DIRTY),
            spec_bit(final(self).state, SLOT_VALID) == spec_bit(old(self).state, SLOT_VALID),
            spec_bit(final(self).state, SLOT_IO_INPROGRESS) == spec_bit(
                old(self).state,
                SLOT_IO_INPROGRESS,
            ),
            spec_bit(final(self).state, SLOT_IO_ERR) == spec_bit(old(self).state, SLOT_IO_ERR),
            spec_bit(final(self).state, SLOT_JUST_DIRTIED) == spec_bit(
                old(self).state,
                SLOT_JUST_DIRTIED,
            ),
    {
        let ghost s0 = self.state;
        proof {
            lemma_rc_pos(self.state);
        }
        self.state = self.state - 1;
        proof {
            lemma_unpin_bits(s0, self.state);
        }
    }

    /// Whether the slot may leave the cache: the evictor's own pin is the
    /// only one, and nothing is waiting to be written back.
    pub fn canremove(&self) -> (r: bool)
        ensures
            r == (spec_rc(self.state) == 1 && !spec_bit(self.state, SLOT_DIRTY)),
    {
        let state = self.get_state();
        rc(state) == 1 && !dirty(state)
    }

    /// Marks the slot dirty. Setting just-dirtied as well tells any flush
    /// that started earlier that it must not mark the slot clean.
    pub fn mark_dirty(&mut self)
        requires
            spec_bit(old(self).state, SLOT_VALID),
        ensures
            final(self).k == old(self).k,
            final(self).v == old(self).v,
            final(self).evict == old(self).evict,
            spec_rc(final(self).state) == spec_rc(old(self).state),
            spec_bit(final(self).state, SLOT_DIRTY),
            spec_bit(final(self).state, SLOT_JUST_DIRTIED),
            spec_bit(final(self).state, SLOT_VALID),
            spec_bit(final(self).state, SLOT_IO_INPROGRESS) == spec_bit(
                old(self).state,
                SLOT_IO_INPROGRESS,
            ),
            spec_bit(final(self).state, SLOT_IO_ERR) == spec_bit(old(self).state, SLOT_IO_ERR),
    {
        let ghost s0 = self.state;
        self.state = self.state | (SLOT_DIRTY | SLOT_JUST_DIRTIED);
        proof {
            lemma_mark_dirty_bits(s0, self.state);
        }
    }

    /// Clears the just-dirtied mark; a flush does this right after it
    /// claims the slot, so later writers are noticed.
    pub fn clear_just_dirtied(&mut self)
        ensures
            final(self).k == old(self).k,
            final(self).v == old(self).v,
            final(self).evict == old(self).evict,
            spec_rc(final(self).state) == spec_rc(old(self).state),
            !spec_bit(final(self).state, SLOT_JUST_DIRTIED),
            spec_bit(final(self).state, SLOT_DIRTY) == spec_bit(old(self).state, SLOT_DIRTY),
            spec_bit(final(self).state, SLOT_VALID) == spec_bit(old(self).state, SLOT_VALID),
            spec_bit(final(self).state, SLOT_IO_INPROGRESS) == spec_bit(
                old(self).state,
                SLOT_IO_INPROGRESS,
            ),
            spec_bit(final(self).state, SLOT_IO_ERR) == spec_bit(old(self).state, SLOT_IO_ERR),
    {
        let ghost s0 = self.state;
        self.state = self.state & !SLOT_JUST_DIRTIED;
        proof {
            lemma_clear_jd_bits(s0, self.state);
        }
    }

    /// Claims the slot for I/O: for input when it is not yet valid, for
    /// output when it is dirty. Returns false when the precondition is
    /// already met and there is nothing to do.
    pub fn startio(&mut self, forinput: bool) -> (r: bool)
        requires
            !spec_bit(old(self).state, SLOT_IO_INPROGRESS),
        ensures
            final(self).k == old(self).k,
            final(self).v == old(self).v,
            final(self).evict == old(self).evict,
            r == if forinput {
                !spec_bit(old(self).state, SLOT_VALID)
            } else {
                spec_bit(old(self).state, SLOT_DIRTY)
            },
            !r ==> *final(self) == *old(self),
            r ==> {
                &&& spec_bit(final(self).state, SLOT_IO_INPROGRESS)
                &&& spec_rc(final(self).state) == spec_rc(old(self).state)
                &&& spec_bit(final(self).state, SLOT_DIRTY) == spec_bit(
                    old(self).state,
                    SLOT_DIRTY,
                )
                &&& spec_bit(final(self).state, SLOT_VALID) == spec_bit(
                    old(self).state,
                    SLOT_VALID,
                )
                &&& spec_bit(final(self).state, SLOT_JUST_DIRTIED) == spec_bit(
                    old(self).state,
                    SLOT_JUST_DIRTIED,
                )
                &&& spec_bit(final(self).state, SLOT_IO_ERR) == spec_bit(
                    old(self).state,
                    SLOT_IO_ERR,
                )
            },
    {
        let state = self.get_state();
        let canret = if forinput {
            valid(state)
        } else {
            !dirty(state)
        };
        if canret {
            return false;
        }
        let ghost s0 = self.state;
        self.state = self.state | SLOT_IO_INPROGRESS;
        proof {
            lemma_startio_bits(s0, self.state);
        }
        true
    }

    /// Ends the I/O claimed by `startio`: clears the in-progress and
    /// error bits, clears dirty if this was a successful flush and nobody
    /// dirtied the slot while it ran, and sets `set_flag_bits`.
    pub fn endio(&mut self, clear_dirty: bool, set_flag_bits: u32)
        requires
            set_flag_bits == 0 || set_flag_bits == SLOT_VALID || set_flag_bits == SLOT_IO_ERR,
        ensures
            final(self).k == old(self).k,
            final(self).v == old(self).v,
            final(self).evict == old(self).evict,
            spec_rc(final(self).state) == spec_rc(old(self).state),
            !spec_bit(final(self).state, SLOT_IO_INPROGRESS),
            spec_bit(final(self).state, SLOT_IO_ERR) == (set_flag_bits == SLOT_IO_ERR),
            spec_bit(final(self).state, SLOT_VALID) == (spec_bit(old(self).state, SLOT_VALID)
                || set_flag_bits == SLOT_VALID),
            spec_bit(final(self).state, SLOT_DIRTY) == if clear_dirty && !spec_bit(
                old(self).state,
                SLOT_JUST_DIRTIED,
            ) {
                false
            } else {
                spec_bit(old(self).state, SLOT_DIRTY)
            },
            spec_bit(final(self).state, SLOT_JUST_DIRTIED) == spec_bit(
                old(self).state,
                SLOT_JUST_DIRTIED,
            ),
    {
        let ghost s0 = self.state;
        self.state = self.state & !(SLOT_IO_INPROGRESS | SLOT_IO_ERR);
        proof {
            lemma_endio_clear_bits(s0, self.state);
        }
        if clear_dirty && !just_dirtied(self.state) {
            let ghost s1 = self.state;
            self.state = self.state & !SLOT_DIRTY;
            proof {
                lemma_endio_clean_bits(s1, self.state);
            }
        }
        let ghost s2 = self.state;
        self.state = self.state | set_flag_bits;
        proof {
            lemma_endio_set_bits(s2, self.state, set_flag_bits);
        }
    }

    /// Records a failed load or store: the error bit is set and the next
    /// caller retries the I/O.
    pub fn abortio(&mut self)
        ensures
            final(self).k == old(self).k,
            final(self).v == old(self).v,
            final(self).evict == old(self).evict,
            spec_rc(final(self).state) == spec_rc(old(self).state),
            !spec_bit(final(self).state, SLOT_IO_INPROGRESS),
            spec_bit(final(self).state, SLOT_IO_ERR),
            spec_bit(final(self).state, SLOT_VALID) == spec_bit(old(self).state, SLOT_VALID),
            spec_bit(final(self).state, SLOT_DIRTY) == spec_bit(old(self).state, SLOT_DIRTY),
    {
        self.endio(false, SLOT_IO_ERR);
    }

    /// Writes a dirty slot back. On success the slot is clean unless a
    /// writer dirtied it again while the store ran; on failure the error
    /// is recorded on the slot.
    pub fn do_flush(&mut self, valctx: &V::Data) -> (r: Result<(), SbError>)
        requires
            !spec_bit(old(self).state, SLOT_IO_INPROGRESS),
            spec_bit(old(self).state, SLOT_DIRTY) ==> old(self).v is Some,
        ensures
            final(self).k == old(self).k,
            final(self).v == old(self).v,
            final(self).evict == old(self).evict,
            spec_rc(final(self).state) == spec_rc(old(self).state),
            !spec_bit(final(self).state, SLOT_IO_INPROGRESS),
            spec_bit(final(self).state, SLOT_VALID) == spec_bit(old(self).state, SLOT_VALID),
            !spec_bit(old(self).state, SLOT_DIRTY) ==> r is Ok && *final(self) == *old(self),
            r is Ok ==> !spec_bit(final(self).state, SLOT_DIRTY),
            r is Err ==> spec_bit(final(self).state, SLOT_IO_ERR) && spec_bit(
                final(self).state,
                SLOT_DIRTY,
            ) == spec_bit(old(self).state, SLOT_DIRTY),
    {
        if !self.startio(false) {
            return Ok(());
        }
        self.clear_just_dirtied();
        let res = match &self.v {
            Some(v) => v.store(&self.k, valctx),
            None => Err(SbError::StoreFailed),
        };
        match res {
            Ok(_) => {
                self.endio(true, 0);
                Ok(())
            },
            Err(e) => {
                self.abortio();
                Err(e)
            },
        }
    }

    /// As `do_flush`; in a concurrent deployment this first tries the
    /// value's read lock and reports contention, which a single caller
    /// never sees.
    pub fn try_flush(&mut self, valctx: &V::Data) -> (r: Result<bool, SbError>)
        requires
            !spec_bit(old(self).state, SLOT_IO_INPROGRESS),
            spec_bit(old(self).state, SLOT_DIRTY) ==> old(self).v is Some,
        ensures
            final(self).k == old(self).k,
            final(self).v == old(self).v,
            spec_rc(final(self).state) == spec_rc(old(self).state),
            !spec_bit(final(self).state, SLOT_IO_INPROGRESS),
            spec_bit(final(self).state, SLOT_VALID) == spec_bit(old(self).state, SLOT_VALID),
            !spec_bit(old(self).state, SLOT_DIRTY) ==> (r matches Ok(b) && b && *final(self)
                == *old(self)),
            r matches Ok(b) ==> b && !spec_bit(final(self).state, SLOT_DIRTY),
            r is Err ==> spec_bit(final(self).state, SLOT_IO_ERR),
    {
        match self.do_flush(valctx) {
            Ok(_) => Ok(true),
            Err(e) => Err(e),
        }
    }
}


/// A pin held on one slot; the holder must hand it back to `release`.
pub struct SlotPinGuard {
    pub idx: usize,
}

/// The shared buffer: up to `cap` slots, an eviction policy, and the
/// context values are loaded and stored with.
pub struct SharedBuffer<K: SBK, V: Value<K>, E: EvictPolicy<K, V>> {
    pub slots: Vec<Slot<K, V, E>>,
    pub evict: E,
    pub valctx: V::Data,
    pub cap: usize,
}

impl<K: SBK, V: Value<K>, E: EvictPolicy<K, V>> SharedBuffer<K, V, E> {
    /// The cache's own bookkeeping: distinct keys; a slot holds a value
    /// exactly when its valid bit is set; dirty and pinned slots are
    /// valid.
    pub open spec fn inv(self) -> bool {
        &&& self.slots@.len() <= self.cap
        &&& forall|i: int, j: int|
            0 <= i < j < self.slots@.len() ==> self.slots@[i].k != self.slots@[j].k
        &&& forall|i: int|
            0 <= i < self.slots@.len() ==> (spec_bit(#[trigger] self.slots@[i].state, SLOT_VALID)
                <==> self.slots@[i].v is Some)
        &&& forall|i: int|
            0 <= i < self.slots@.len() ==> (spec_bit(#[trigger] self.slots@[i].state, SLOT_DIRTY)
                ==> spec_bit(self.slots@[i].state, SLOT_VALID))
        &&& forall|i: int|
            0 <= i < self.slots@.len() ==> (spec_rc(#[trigger] self.slots@[i].state) > 0
                ==> spec_bit(self.slots@[i].state, SLOT_VALID))
    }

    /// No slot is in the middle of a load or store.
    pub open spec fn no_io(self) -> bool {
        forall|i: int|
            0 <= i < self.slots@.len() ==> !spec_bit(
                #[trigger] self.slots@[i].state,
                SLOT_IO_INPROGRESS,
            )
    }

    /// No slot's pin count is saturated.
    pub open spec fn pins_below_max(self) -> bool {
        forall|i: int|
            0 <= i < self.slots@.len() ==> spec_rc(#[trigger] self.slots@[i].state)
                < REFCOUNT_MASK
    }

    /// An empty cache with room for `cap` slots.
    pub fn new(cap: usize, evict: E, valctx: V::Data) -> (r: SharedBuffer<K, V, E>)
        ensures
            r.inv(),
            r.no_io(),
            r.pins_below_max(),
            r.cap == cap,
            r.slots@.len() == 0,
            r.evict == evict,
            r.valctx == valctx,
    {
        SharedBuffer { slots: Vec::new(), evict, valctx, cap }
    }

    /// The index of the slot that caches `k`, if one does.
    fn find(&self, k: &K) -> (r: Option<usize>)
        ensures
            r matches Some(i) ==> i < self.slots@.len() && self.slots@[i as int].k == *k,
            r is None ==> forall|j: int|
                0 <= j < self.slots@.len() ==> (#[trigger] self.slots@[j]).k != *k,
    {
        let n = self.slots.len();
        let mut i: usize = 0;
        while i < n
            invariant
                i <= n,
                n == self.slots@.len(),
                forall|j: int| 0 <= j < i ==> (#[trigger] self.slots@[j]).k != *k,
            decreases n - i,
        {
            if self.slots[i].k.key_eq(k) {
                return Some(i);
            }
            i = i + 1;
        }
        None
    }

    /// Whether `k` is cached.
    pub fn contains_key(&self, k: &K) -> (r: bool)
        ensures
            r == exists|j: int| 0 <= j < self.slots@.len() && (#[trigger] self.slots@[j]).k == *k,
    {
        match self.find(k) {
            Some(i) => {
                proof {
                    assert(self.slots@[i as int].k == *k);
                }
                true
            },
            None => false,
        }
    }

    /// Loads the value for a fresh or invalid slot; on failure the error
    /// is recorded on the slot for the next caller to retry.
    fn load_slot(slot: &mut Slot<K, V, E>, k: &K, valctx: &V::Data) -> (r: Result<(), SbError>)
        requires
            !spec_bit(old(slot).state, SLOT_IO_INPROGRESS),
            !spec_bit(old(slot).state, SLOT_VALID),
            !spec_bit(old(slot).state, SLOT_DIRTY),
            old(slot).v is None,
        ensures
            final(slot).k == old(slot).k,
            final(slot).evict == old(slot).evict,
            spec_rc(final(slot).state) == spec_rc(old(slot).state),
            !spec_bit(final(slot).state, SLOT_IO_INPROGRESS),
            !spec_bit(final(slot).state, SLOT_DIRTY),
            r is Ok ==> spec_bit(final(slot).state, SLOT_VALID) && final(slot).v is Some,
            r matches Err(e) ==> e == SbError::LoadFailed && !spec_bit(
                final(slot).state,
                SLOT_VALID,
            ) && final(slot).v is None && spec_bit(final(slot).state, SLOT_IO_ERR),
    {
        let started = slot.startio(true);
        match V::load(k, valctx) {
            Ok(v) => {
                slot.setv(v);
                slot.endio(false, SLOT_VALID);
                Ok(())
            },
            Err(_) => {
                slot.abortio();
                Err(SbError::LoadFailed)
            },
        }
    }

    /// Obtains a pinned, valid slot for `k`: the cached one if present,
    /// a fresh one (loading the value) if there is room, else the victim
    /// the policy nominates, flushed and replaced. Fails when every slot
    /// is pinned, when the flush of the victim fails, or when loading the
    /// value fails.
    pub fn read(&mut self, k: &K) -> (r: Result<SlotPinGuard, SbError>)
        requires
            old(self).inv(),
            old(self).no_io(),
            old(self).pins_below_max(),
        ensures
            final(self).inv(),
            final(self).no_io(),
            final(self).cap == old(self).cap,
            final(self).slots@.len() >= old(self).slots@.len(),
            final(self).slots@.len() <= old(self).cap,
            // Pin safety: a slot that anyone still has pinned is neither
            // evicted nor disturbed.
            forall|j: int|
                0 <= j < old(self).slots@.len() && spec_rc(
                    #[trigger] old(self).slots@[j].state,
                ) > 0 ==> final(self).slots@[j].k == old(self).slots@[j].k && final(self).slots@[j].v == old(self).slots@[j].v && spec_rc(final(self).slots@[j].state)
                    >= spec_rc(old(self).slots@[j].state),
            // Every successful read hands back a pinned slot for the
            // requested key whose valid bit is set.
            r matches Ok(g) ==> g.idx < final(self).slots@.len() && final(self).slots@[g.idx as int].k == *k && spec_bit(
                final(self).slots@[g.idx as int].state,
                SLOT_VALID,
            ) && final(self).slots@[g.idx as int].v is Some && spec_rc(
                final(self).slots@[g.idx as int].state,
            ) > 0,
            r matches Err(e) && e == SbError::NoUnpinnedBuffers ==> *final(self) == *old(self)
                && old(self).slots@.len() == old(self).cap && (forall|j: int|
                0 <= j < old(self).slots@.len() ==> spec_rc(
                    #[trigger] old(self).slots@[j].state,
                ) > 0),
            // When the key is cached with a valid value, no outside call
            // decides: success is owed, at that very slot, with one more
            // pin and the value untouched; nothing else changes.
            forall|i: int|
                0 <= i < old(self).slots@.len() && old(self).slots@[i].k == *k && spec_bit(
                    #[trigger] old(self).slots@[i].state,
                    SLOT_VALID,
                ) ==> (r matches Ok(g) && g.idx == i && final(self).slots@[i].v == old(
                    self,
                ).slots@[i].v && spec_rc(final(self).slots@[i].state) == spec_rc(
                    old(self).slots@[i].state,
                ) + 1 && (forall|j: int|
                    0 <= j < old(self).slots@.len() && j != i ==> final(self).slots@[j] == old(
                        self,
                    ).slots@[j])),
            // Conversely, a full cache of pinned slots with the key absent
            // leaves nothing to evict: the exhaustion error is owed.
            ((forall|j: int|
                0 <= j < old(self).slots@.len() ==> spec_rc(
                    #[trigger] old(self).slots@[j].state,
                ) != 0) && old(self).slots@.len() == old(self).cap && (forall|j: int|
                0 <= j < old(self).slots@.len() ==> (#[trigger] old(self).slots@[j]).k != *k))
                ==> (r matches Err(e) && e == SbError::NoUnpinnedBuffers),
            // A failed load leaves an unpinned, invalid slot for the key
            // with the error recorded, for the next caller to retry; the
            // caller's pin was released.
            r matches Err(e) && e == SbError::LoadFailed ==> exists|i: int|
                #![auto]
                0 <= i < final(self).slots@.len() && final(self).slots@[i].k == *k && spec_bit(
                    final(self).slots@[i].state,
                    SLOT_IO_ERR,
                ) && !spec_bit(final(self).slots@[i].state, SLOT_VALID) && spec_rc(
                    final(self).slots@[i].state,
                ) == 0,
            // A miss with room appends a fresh slot for the key, stamped
            // by the policy; existing slots are untouched.
            ((forall|j: int|
                0 <= j < old(self).slots@.len() ==> (#[trigger] old(self).slots@[j]).k != *k)
                && old(self).slots@.len() < old(self).cap) ==> {
                &&& final(self).slots@.len() == old(self).slots@.len() + 1
                &&& (forall|j: int|
                    0 <= j < old(self).slots@.len() ==> final(self).slots@[j] == old(
                        self,
                    ).slots@[j])
                &&& final(self).slots@.last().k == *k
                &&& E::creates(
                    old(self).evict,
                    final(self).evict,
                    final(self).slots@.last().evict,
                )
                &&& (r matches Ok(g) ==> g.idx == old(self).slots@.len())
            },
            // A miss with a full cache replaces exactly the policy's
            // nominee: an unpinned slot; every other slot is untouched,
            // and on success or a failed load the nominee's place now
            // holds the requested key, stamped by the policy after the
            // drop hook ran.
            ((forall|j: int|
                0 <= j < old(self).slots@.len() ==> (#[trigger] old(self).slots@[j]).k != *k)
                && old(self).slots@.len() == old(self).cap && !(r matches Err(e) && e
                == SbError::NoUnpinnedBuffers)) ==> exists|vi: int|
                #![auto]
                0 <= vi < old(self).slots@.len() && old(self).evict.is_candidate(
                    old(self).slots@,
                    vi,
                ) && spec_rc(old(self).slots@[vi].state) == 0 && (forall|j: int|
                    0 <= j < old(self).slots@.len() && j != vi ==> final(self).slots@[j] == old(
                        self,
                    ).slots@[j]) && ((r is Ok || (r matches Err(e2) && e2 == SbError::LoadFailed))
                    ==> final(self).slots@[vi].k == *k && (exists|mid: E|
                    E::drops(old(self).evict, mid) && E::creates(
                        mid,
                        final(self).evict,
                        final(self).slots@[vi].evict,
                    )) && (r matches Ok(g) ==> g.idx == vi)),
    {
        let found = self.find(k);
        match found {
            Some(i) => {
                let ghost pre = self.slots@;
                let mut slot = self.slots.remove(i);
                self.evict.on_use_slot(k, &slot.evict);
                let was_valid = slot.pin();
                if was_valid {
                    self.slots.insert(i, slot);
                    proof {
                        assert(self.slots@ =~= pre.update(i as int, self.slots@[i as int]));
                    }
                    return Ok(SlotPinGuard { idx: i });
                }
                // The last load failed; this caller retries it.
                let res = Self::load_slot(&mut slot, k, &self.valctx);
                match res {
                    Ok(_) => {
                        self.slots.insert(i, slot);
                        proof {
                            assert(self.slots@ =~= pre.update(i as int, self.slots@[i as int]));
                        }
                        Ok(SlotPinGuard { idx: i })
                    },
                    Err(e) => {
                        slot.unpin();
                        self.slots.insert(i, slot);
                        proof {
                            assert(self.slots@ =~= pre.update(i as int, self.slots@[i as int]));
                        }
                        Err(e)
                    },
                }
            },
            None => {
                if self.slots.len() < self.cap {
                    let ed = self.evict.on_create_slot(k);
                    let mut slot = Slot::<K, V, E>::new(k, ed);
                    let res = Self::load_slot(&mut slot, k, &self.valctx);
                    let i = self.slots.len();
                    match res {
                        Ok(_) => {
                            self.slots.push(slot);
                            Ok(SlotPinGuard { idx: i })
                        },
                        Err(e) => {
                            slot.unpin();
                            self.slots.push(slot);
                            Err(e)
                        },
                    }
                } else {
                    let cand = self.evict.evict_cand(&self.slots, k);
                    match cand {
                        None => Err(SbError::NoUnpinnedBuffers),
                        Some(vi) => {
                            let ghost pre = self.slots@;
                            let mut victim = self.slots.remove(vi);
                            if dirty(victim.get_state()) {
                                let fres = victim.do_flush(&self.valctx);
                                match fres {
                                    Ok(_) => {},
                                    Err(_) => {
                                        self.slots.insert(vi, victim);
                                        proof {
                                            assert(self.slots@ =~= pre.update(
                                                vi as int,
                                                self.slots@[vi as int],
                                            ));
                                        }
                                        return Err(SbError::StoreFailed);
                                    },
                                }
                            }
                            self.evict.on_drop_slot(&victim.k, &victim.evict);
                            let ed = self.evict.on_create_slot(k);
                            let mut slot = Slot::<K, V, E>::new(k, ed);
                            let res = Self::load_slot(&mut slot, k, &self.valctx);
                            match res {
                                Ok(_) => {
                                    self.slots.insert(vi, slot);
                                    proof {
                                        assert(self.slots@ =~= pre.update(
                                            vi as int,
                                            self.slots@[vi as int],
                                        ));
                                    }
                                    Ok(SlotPinGuard { idx: vi })
                                },
                                Err(e) => {
                                    slot.unpin();
                                    self.slots.insert(vi, slot);
                                    proof {
                                        assert(self.slots@ =~= pre.update(
                                            vi as int,
                                            self.slots@[vi as int],
                                        ));
                                    }
                                    Err(e)
                                },
                            }
                        },
                    }
                }
            },
        }
    }

    /// Releases the pin a `read` handed out.
    pub fn release(&mut self, g: SlotPinGuard)
        requires
            old(self).inv(),
            g.idx < old(self).slots@.len(),
            spec_rc(old(self).slots@[g.idx as int].state) > 0,
        ensures
            final(self).inv(),
            final(self).slots@.len() == old(self).slots@.len(),
            final(self).cap == old(self).cap,
            spec_rc(final(self).slots@[g.idx as int].state) == spec_rc(
                old(self).slots@[g.idx as int].state,
            ) - 1,
            final(self).slots@[g.idx as int].k == old(self).slots@[g.idx as int].k,
            final(self).slots@[g.idx as int].v == old(self).slots@[g.idx as int].v,
            forall|j: int|
                0 <= j < old(self).slots@.len() && j != g.idx ==> final(self).slots@[j] == old(self).slots@[j],
            final(self).no_io() == old(self).no_io(),
    {
        let ghost pre = self.slots@;
        let mut slot = self.slots.remove(g.idx);
        slot.unpin();
        self.slots.insert(g.idx, slot);
        proof {
            assert(self.slots@ =~= pre.update(g.idx as int, self.slots@[g.idx as int]));
            assert(final(self).no_io() == old(self).no_io()) by {
                assert forall|i: int|
                    0 <= i < self.slots@.len() implies (spec_bit(
                    self.slots@[i].state,
                    SLOT_IO_INPROGRESS,
                ) == spec_bit(pre[i].state, SLOT_IO_INPROGRESS)) by {}
            }
        }
    }

    /// The value a pinned, valid slot holds.
    pub fn value(&self, g: &SlotPinGuard) -> (r: &V)
        requires
            g.idx < self.slots@.len(),
            self.slots@[g.idx as int].v is Some,
        ensures
            Some(*r) == self.slots@[g.idx as int].v,
    {
        match &self.slots[g.idx].v {
            Some(v) => v,
            None => vstd::pervasive::unreached(),
        }
    }

    /// Marks a pinned slot dirty: its value now differs from the durable
    /// copy, and any flush already running must not mark it clean.
    pub fn mark_dirty(&mut self, g: &SlotPinGuard)
        requires
            old(self).inv(),
            g.idx < old(self).slots@.len(),
            spec_bit(old(self).slots@[g.idx as int].state, SLOT_VALID),
        ensures
            final(self).inv(),
            final(self).slots@.len() == old(self).slots@.len(),
            final(self).cap == old(self).cap,
            spec_bit(final(self).slots@[g.idx as int].state, SLOT_DIRTY),
            spec_bit(final(self).slots@[g.idx as int].state, SLOT_JUST_DIRTIED),
            final(self).slots@[g.idx as int].k == old(self).slots@[g.idx as int].k,
            final(self).slots@[g.idx as int].v == old(self).slots@[g.idx as int].v,
            spec_rc(final(self).slots@[g.idx as int].state) == spec_rc(
                old(self).slots@[g.idx as int].state,
            ),
            forall|j: int|
                0 <= j < old(self).slots@.len() && j != g.idx ==> final(self).slots@[j] == old(self).slots@[j],
    {
        let ghost pre = self.slots@;
        let mut slot = self.slots.remove(g.idx);
        slot.mark_dirty();
        self.slots.insert(g.idx, slot);
        proof {
            assert(self.slots@ =~= pre.update(g.idx as int, self.slots@[g.idx as int]));
        }
    }
}

/// First-in-first-out eviction: slots are stamped with a creation number
/// and the oldest unpinned slot is the victim.
pub struct FIFOPolicy {
    /// The next creation number.
    pub no: u64,
}

impl FIFOPolicy {
    pub fn new() -> (r: FIFOPolicy)
        ensures
            r.no == 0,
    {
        FIFOPolicy { no: 0 }
    }

}

impl<K: SBK, V: Value<K>> EvictPolicy<K, V> for FIFOPolicy {
    type Data = u64;

    /// Creation hands out the current counter value and advances it,
    /// saturating rather than wrapping; past that point the oldest-first
    /// order degenerates to ties.
    open spec fn creates(pre: FIFOPolicy, post: FIFOPolicy, stamp: u64) -> bool {
        stamp == pre.no && post.no == if pre.no < u64::MAX {
            pre.no + 1
        } else {
            pre.no as int
        }
    }

    /// Dropping a slot changes nothing.
    open spec fn drops(pre: FIFOPolicy, post: FIFOPolicy) -> bool {
        post == pre
    }

    /// The nominee is an unpinned slot with the least creation stamp
    /// among the unpinned.
    open spec fn is_candidate(&self, slots: Seq<Slot<K, V, Self>>, i: int) -> bool {
        &&& 0 <= i < slots.len()
        &&& spec_rc(slots[i].state) == 0
        &&& forall|j: int|
            0 <= j < slots.len() && spec_rc(#[trigger] slots[j].state) == 0 ==> slots[i].evict
                <= slots[j].evict
    }

    fn on_create_slot(&mut self, _k: &K) -> (r: u64) {
        let v = self.no;
        if self.no < u64::MAX {
            self.no = self.no + 1;
        }
        v
    }

    fn on_use_slot(&self, _k: &K, _s: &u64) {
    }

    fn on_drop_slot(&mut self, _k: &K, _s: &u64) {
    }

    fn evict_cand(&self, slots: &Vec<Slot<K, V, Self>>, _newk: &K) -> (r: Option<usize>) {
        let n = slots.len();
        let mut best: usize = n;
        let mut i: usize = 0;
        while i < n
            invariant
                i <= n,
                n == slots@.len(),
                best <= n,
                best < n ==> spec_rc(slots@[best as int].state) == 0,
                best == n ==> forall|j: int|
                    0 <= j < i ==> spec_rc(#[trigger] slots@[j].state) != 0,
                best < n ==> forall|j: int|
                    0 <= j < i && spec_rc(#[trigger] slots@[j].state) == 0
                        ==> slots@[best as int].evict <= slots@[j].evict,
            decreases n - i,
        {
            if rc(slots[i].state) == 0 {
                if best == n {
                    best = i;
                } else {
                    if slots[i].evict < slots[best].evict {
                        best = i;
                    }
                }
            }
            i = i + 1;
        }
        if best == n {
            None
        } else {
            Some(best)
        }
    }
}

/// A shared buffer with first-in-first-out eviction.
pub fn new_fifo_sb<K: SBK, V: Value<K>>(cap: usize, valctx: V::Data) -> (r: SharedBuffer<
    K,
    V,
    FIFOPolicy,
>)
    ensures
        r.inv(),
        r.no_io(),
        r.pins_below_max(),
        r.cap == cap,
        r.slots@.len() == 0,
        r.evict.no == 0,
{
    SharedBuffer::new(cap, FIFOPolicy::new(), valctx)
}

} // verus!
