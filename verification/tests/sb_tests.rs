use kuiba::sb::{
    dirty, io_in_progress, just_dirtied, new_fifo_sb, rc, valid, SbError, SharedBuffer, Slot,
    Value, FIFOPolicy, SLOT_VALID,
};
use std::cell::RefCell;

/// A page whose load is computed from the key and whose stores are logged,
/// with an optional one-shot load failure per key.
struct Page {
    v: u64,
}

struct PageCtx {
    stores: RefCell<Vec<(u64, u64)>>,
    fail_loads_of: RefCell<Vec<u64>>,
    fail_stores: std::cell::Cell<bool>,
}

impl PageCtx {
    fn new() -> PageCtx {
        PageCtx {
            stores: RefCell::new(Vec::new()),
            fail_loads_of: RefCell::new(Vec::new()),
            fail_stores: std::cell::Cell::new(false),
        }
    }
}

impl Value<u64> for Page {
    type Data = PageCtx;

    fn load(k: &u64, ctx: &PageCtx) -> Result<Page, SbError> {
        let mut fails = ctx.fail_loads_of.borrow_mut();
        if let Some(pos) = fails.iter().position(|x| x == k) {
            fails.remove(pos);
            return Err(SbError::LoadFailed);
        }
        Ok(Page { v: *k * 10 })
    }

    fn store(&self, k: &u64, ctx: &PageCtx) -> Result<(), SbError> {
        if ctx.fail_stores.get() {
            return Err(SbError::StoreFailed);
        }
        ctx.stores.borrow_mut().push((*k, self.v));
        Ok(())
    }
}

fn sb(cap: usize) -> SharedBuffer<u64, Page, FIFOPolicy> {
    new_fifo_sb(cap, PageCtx::new())
}

#[test]
fn read_returns_valid_pinned_slot() {
    let mut sb = sb(2);
    let g = sb.read(&3).expect("load must succeed");
    assert_eq!(sb.value(&g).v, 30);
    let st = sb.slots[g.idx].get_state();
    assert!(valid(st), "every successful read returns a valid slot");
    assert_eq!(rc(st), 1);
    sb.release(g);
    assert_eq!(rc(sb.slots[0].get_state()), 0);
}

#[test]
fn fifo_evicts_first_in() {
    // Capacity 2: read k1, k2, k3 in order; k1 is the victim.
    let mut sb = sb(2);
    let g1 = sb.read(&1).unwrap();
    sb.release(g1);
    let g2 = sb.read(&2).unwrap();
    sb.release(g2);
    let g3 = sb.read(&3).unwrap();
    sb.release(g3);
    assert!(!sb.contains_key(&1), "the oldest unpinned slot was evicted");
    assert!(sb.contains_key(&2));
    assert!(sb.contains_key(&3));
    assert_eq!(sb.slots.len(), 2);
}

#[test]
fn pinned_slots_are_never_evicted() {
    let mut sb = sb(2);
    let g1 = sb.read(&1).unwrap();
    // keep k1 pinned
    let g2 = sb.read(&2).unwrap();
    sb.release(g2);
    let g3 = sb.read(&3).unwrap();
    assert!(sb.contains_key(&1), "a pinned slot must survive eviction");
    assert!(!sb.contains_key(&2), "the unpinned slot was the victim");
    assert_eq!(sb.slots[g1.idx].k, 1);
    assert_eq!(sb.value(&g1).v, 10);
    sb.release(g3);
    sb.release(g1);
}

#[test]
fn exhausted_cache_reports_no_unpinned_buffers() {
    let mut sb = sb(1);
    let g1 = sb.read(&1).unwrap();
    match sb.read(&2) {
        Err(SbError::NoUnpinnedBuffers) => {}
        other => panic!("expected NoUnpinnedBuffers, got {:?}", other.map(|g| g.idx)),
    }
    sb.release(g1);
    assert!(sb.read(&2).is_ok(), "after the unpin the eviction succeeds");
}

#[test]
fn dirty_victim_is_stored_before_eviction() {
    let mut sb = sb(1);
    let g1 = sb.read(&1).unwrap();
    sb.mark_dirty(&g1);
    sb.release(g1);
    let g2 = sb.read(&2).unwrap();
    sb.release(g2);
    assert_eq!(sb.valctx.stores.borrow().as_slice(), &[(1, 10)], "the dirty page was written back");
    assert!(!sb.contains_key(&1));
    assert!(sb.contains_key(&2));
}

#[test]
fn failed_load_is_recorded_and_retried() {
    let mut sb = sb(2);
    sb.valctx.fail_loads_of.borrow_mut().push(9);
    match sb.read(&9) {
        Err(SbError::LoadFailed) => {}
        other => panic!("expected LoadFailed, got {:?}", other.map(|g| g.idx)),
    }
    // The slot stays, invalid and unpinned, for the next caller to retry.
    assert!(sb.contains_key(&9));
    assert_eq!(rc(sb.slots[0].get_state()), 0);
    assert!(!valid(sb.slots[0].get_state()));
    // The retry succeeds.
    let g = sb.read(&9).expect("retry must succeed");
    assert_eq!(sb.value(&g).v, 90);
    sb.release(g);
}

#[test]
fn just_dirtied_survives_a_flush() {
    // Thread A begins flushing a dirty slot; thread B dirties it during
    // the flush; on completion the slot must still be dirty.
    let mut sb = sb(1);
    let g = sb.read(&1).unwrap();
    sb.mark_dirty(&g);
    let slot = &mut sb.slots[g.idx];
    // Flush side: claim the slot for output and note the current dirtiers.
    assert!(slot.startio(false));
    slot.clear_just_dirtied();
    // Writer side, racing with the store: dirty the page again.
    slot.mark_dirty();
    assert!(just_dirtied(slot.get_state()));
    // Flush side completes and asks for dirty to be cleared.
    slot.endio(true, 0);
    assert!(dirty(slot.get_state()), "a slot dirtied during the flush stays dirty");
    assert!(!io_in_progress(slot.get_state()));
    sb.release(g);
}

#[test]
fn flush_without_interference_cleans_the_slot() {
    let mut sb = sb(1);
    let g = sb.read(&1).unwrap();
    sb.mark_dirty(&g);
    let slot = &mut sb.slots[g.idx];
    assert!(slot.startio(false));
    slot.clear_just_dirtied();
    slot.endio(true, 0);
    assert!(!dirty(slot.get_state()), "nobody interfered: the flush cleans the slot");
    sb.release(g);
}

#[test]
fn slot_state_bits_round_trip() {
    let slot: Slot<u64, Page, FIFOPolicy> = Slot::new(&5, 0);
    let st = slot.get_state();
    assert_eq!(rc(st), 1, "a fresh slot is pinned once by its creator");
    assert!(!valid(st));
    assert!(!dirty(st));
    assert!(!io_in_progress(st));
    assert!(!just_dirtied(st));
    assert_eq!(st & SLOT_VALID, 0);
}

#[test]
fn failed_flush_keeps_the_victim() {
    let mut sb = sb(1);
    let g1 = sb.read(&1).unwrap();
    sb.mark_dirty(&g1);
    sb.release(g1);
    sb.valctx.fail_stores.set(true);
    match sb.read(&2) {
        Err(SbError::StoreFailed) => {}
        other => panic!("expected StoreFailed, got {:?}", other.map(|g| g.idx)),
    }
    assert!(sb.contains_key(&1), "the dirty page stays until its flush succeeds");
    // Once stores work again, the eviction goes through.
    sb.valctx.fail_stores.set(false);
    let g2 = sb.read(&2).unwrap();
    sb.release(g2);
    assert!(sb.contains_key(&2));
}
