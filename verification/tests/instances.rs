use std::ops::Range;

use tech_paws_graphics::instances::{
    BumpInstances, BumpRangesIter, PoolDrainIter, PoolInstances, PoolRangesIter,
};
use tech_paws_graphics::memory_new::SlotId;

#[derive(Copy, Clone, PartialEq, Debug)]
struct TestId(usize);

impl SlotId for TestId {
    fn spec_index(&self) -> usize {
        self.0
    }

    fn spec_from_index(index: usize) -> Self {
        TestId(index)
    }

    fn from_index(index: usize) -> Self {
        TestId(index)
    }

    fn index(&self) -> usize {
        self.0
    }
}

fn drained(indices: &[usize]) -> Vec<Range<u32>> {
    let ids = indices.iter().map(|&i| TestId(i)).collect();

    PoolDrainIter::new(ids).collect_ranges()
}

fn active(max_index: usize, free: &[usize]) -> Vec<Range<u32>> {
    let free_ids = free.iter().map(|&i| TestId(i)).collect();

    PoolRangesIter::new(free_ids, max_index).collect_ranges()
}

#[test]
fn bump_iter_empty() {
    assert_eq!(BumpRangesIter::new(None).collect_ranges(), vec![]);
}

#[test]
fn bump_iter_single_range() {
    assert_eq!(BumpRangesIter::new(Some(0..4)).collect_ranges(), vec![0..4]);
}

#[test]
fn bump_iter_yields_once() {
    let mut iter = BumpRangesIter::new(Some(2..7));
    assert_eq!(iter.next(), Some(2..7));
    assert_eq!(iter.next(), None);
    assert_eq!(iter.next(), None);
}

#[test]
fn drain_empty() {
    assert_eq!(drained(&[]), vec![]);
}

#[test]
fn drain_single() {
    assert_eq!(drained(&[3]), vec![3..4]);
}

#[test]
fn drain_contiguous() {
    assert_eq!(drained(&[0, 1, 2]), vec![0..3]);
}

#[test]
fn drain_two_gaps() {
    assert_eq!(drained(&[0, 1, 3, 4]), vec![0..2, 3..5]);
}

#[test]
fn drain_three_gaps() {
    assert_eq!(drained(&[0, 2, 5, 6]), vec![0..1, 2..3, 5..7]);
}

#[test]
fn drain_all_isolated() {
    assert_eq!(drained(&[0, 2, 4]), vec![0..1, 2..3, 4..5]);
}

#[test]
fn active_none() {
    assert_eq!(active(0, &[]), vec![]);
}

#[test]
fn active_no_free() {
    assert_eq!(active(4, &[]), vec![0..4]);
}

#[test]
fn active_single_slot() {
    assert_eq!(active(1, &[]), vec![0..1]);
}

#[test]
fn active_all_free() {
    assert_eq!(active(4, &[0, 1, 2, 3]), vec![]);
}

#[test]
fn active_free_at_start() {
    assert_eq!(active(4, &[0]), vec![1..4]);
}

#[test]
fn active_free_run_at_start() {
    assert_eq!(active(4, &[0, 1]), vec![2..4]);
}

#[test]
fn active_free_at_end() {
    assert_eq!(active(4, &[3]), vec![0..3]);
}

#[test]
fn active_free_run_at_end() {
    assert_eq!(active(6, &[4, 5]), vec![0..4]);
}

#[test]
fn active_free_in_middle() {
    assert_eq!(active(6, &[2, 3]), vec![0..2, 4..6]);
}

#[test]
fn active_multiple_gaps() {
    assert_eq!(active(5, &[1, 3]), vec![0..1, 2..3, 4..5]);
}

#[test]
fn active_free_splits_run() {
    // slots: active 0..3, free 3, active 4, free 5
    assert_eq!(active(6, &[3, 5]), vec![0..3, 4..5]);
}

fn make_pool() -> PoolInstances<TestId, i32> {
    PoolInstances::new(8)
}

fn make_bump() -> BumpInstances<TestId, i32> {
    BumpInstances::new(8)
}

#[test]
fn pool_insert_adds_to_pending() {
    let mut instances = make_pool();
    let id = instances.insert(42);
    assert_eq!(instances.pending_ids(), &[id]);
}

#[test]
fn pool_multiple_inserts_all_pending() {
    let mut instances = make_pool();
    let id1 = instances.insert(1);
    let id2 = instances.insert(2);
    let id3 = instances.insert(3);
    assert_eq!(instances.pending_ids(), &[id1, id2, id3]);
}

#[test]
fn pool_remove_clears_from_pending() {
    let mut instances = make_pool();
    let id1 = instances.insert(1);
    let id2 = instances.insert(2);
    instances.remove(id1);
    assert_eq!(instances.pending_ids(), &[id2]);
}

#[test]
fn pool_slot_reuse_after_remove() {
    let mut instances = make_pool();
    let id1 = instances.insert(1);
    instances.insert(2);
    instances.remove(id1);
    let id3 = instances.insert(3);
    assert_eq!(id1.index(), id3.index());
    assert!(instances.pending_ids().contains(&id3));
}

#[test]
fn bump_insert_increments_len() {
    let mut instances = make_bump();
    assert_eq!(instances.len(), 0);
    instances.insert(1);
    assert_eq!(instances.len(), 1);
    instances.insert(2);
    assert_eq!(instances.len(), 2);
}

#[test]
fn bump_clear_resets_len_and_drain_cursor() {
    let mut instances = make_bump();
    instances.insert(1);
    instances.insert(2);
    // Draining moves the cursor past both instances.
    instances.drain_iter();
    assert_eq!(instances.drained_count(), 2);
    instances.clear();
    assert_eq!(instances.len(), 0);
    assert_eq!(instances.drained_count(), 0);
}

#[test]
fn bump_drain_cursor_advances() {
    let mut instances = make_bump();
    instances.insert(1);
    instances.insert(2);

    // First drain covers everything inserted so far.
    let start = instances.drained_count();
    instances.drain_iter();
    assert_eq!(start as u32..instances.drained_count() as u32, 0..2);

    // After another insert, second drain covers only the new item.
    instances.insert(3);
    let start2 = instances.drained_count();
    instances.drain_iter();
    assert_eq!(start2 as u32..instances.drained_count() as u32, 2..3);
}

#[test]
fn bump_drain_cursor_empty_when_nothing_new() {
    let mut instances = make_bump();
    instances.insert(1);
    instances.drain_iter();
    assert_eq!(instances.drained_count(), instances.len());
    assert_eq!(instances.drain_iter().collect_ranges(), vec![]);
}

#[test]
fn pool_ranges_iter_after_remove() {
    let mut instances = make_pool();
    instances.insert(1);
    let id2 = instances.insert(2);
    let id3 = instances.insert(3);
    instances.insert(4);

    instances.remove(id2);
    instances.remove(id3);

    let ranges: Vec<Range<u32>> = instances.ranges_iter().collect_ranges();
    assert_eq!(ranges, vec![0..1, 3..4]);
}

#[test]
fn pool_drain_iter_yields_only_pending() {
    let mut instances = make_pool();
    instances.insert(1);
    instances.insert(2);

    // Drain pending — clears pending list.
    let _ = instances.drain_iter().collect_ranges();

    // Insert one more; only the new item should appear in the next drain.
    instances.insert(3);
    let ranges: Vec<Range<u32>> = instances.drain_iter().collect_ranges();
    assert_eq!(ranges, vec![2..3]);
}

#[test]
fn bump_ranges_iter_covers_all() {
    let mut instances = make_bump();
    instances.insert(1);
    instances.insert(2);
    instances.insert(3);

    let ranges: Vec<Range<u32>> = instances.ranges_iter().collect_ranges();
    assert_eq!(ranges, vec![0..3]);
}

#[test]
fn bump_drain_iter_incremental() {
    let mut instances = make_bump();
    instances.insert(1);
    instances.insert(2);

    let first: Vec<Range<u32>> = instances.drain_iter().collect_ranges();
    assert_eq!(first, vec![0..2]);

    instances.insert(3);

    let second: Vec<Range<u32>> = instances.drain_iter().collect_ranges();
    assert_eq!(second, vec![2..3]);
}

#[test]
fn pool_drain_merges_out_of_order_inserts_into_runs() {
    let mut instances = make_pool();
    let a = instances.insert(1);
    let b = instances.insert(2);
    instances.insert(3);
    instances.drain_iter();
    // Slots 1 then 0 are reused, pending in that order; the drain sorts them.
    instances.remove(b);
    instances.remove(a);
    instances.insert(4);
    instances.insert(5);
    assert_eq!(instances.drain_iter().collect_ranges(), vec![0..2]);
}

#[test]
fn pool_update_changes_slot_data() {
    let mut instances = make_pool();
    let id = instances.insert(1);
    instances.insert(2);
    instances.update(id, 7);
    assert_eq!(instances.data(), &[7, 2]);
    assert_eq!(instances.len(), 2);
    assert!(!instances.is_empty());
}

#[test]
fn bump_flush_plans_upload_of_every_instance() {
    let mut instances = make_bump();
    instances.insert(1);
    instances.insert(2);
    let plan = instances.flush();
    assert_eq!(plan.upload, Some(2));
    assert!(matches!(plan.capacity, tech_paws_graphics::memory_new::CapacityPlan::Recreate { flush_old: None, capacity: 8 }));
    // Nothing changed since: nothing to do.
    let again = instances.flush();
    assert_eq!(again.upload, None);
    assert!(matches!(again.capacity, tech_paws_graphics::memory_new::CapacityPlan::Keep));
}
