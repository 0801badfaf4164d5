use std::ops::Range;

use tech_paws_graphics::graphics_context::LoadToGPUSchedule;
use tech_paws_graphics::memory::{BumpInstances, InstanceId, PoolInstances};

// Mock implementation of InstanceId for testing
#[derive(Copy, Clone, PartialEq, Debug)]
struct TestId(usize);

impl InstanceId for TestId {
    fn spec_index(&self) -> usize {
        self.0
    }

    fn index(&self) -> usize {
        self.0
    }
}

fn make_id(idx: usize, _data: &i32) -> TestId {
    TestId(idx)
}

type TestPool = PoolInstances<TestId, i32, fn(usize, &i32) -> TestId>;
type TestBump = BumpInstances<TestId, i32, fn(usize, &i32) -> TestId>;

fn pool_with_capacity(capacity: usize) -> TestPool {
    let mut instances: TestPool = PoolInstances::new(capacity);
    instances.create_buffer(make_id);
    instances
}

fn bump_with_capacity(capacity: usize) -> TestBump {
    let mut instances: TestBump = BumpInstances::new(capacity);
    instances.create_buffer(make_id);
    instances
}

fn create_test_instances() -> TestPool {
    pool_with_capacity(10)
}

#[test]
fn test_add_instance() {
    let mut instances = create_test_instances();

    let id1 = instances.insert(42);
    assert_eq!(id1.index(), 0);
    assert_eq!(instances.full_buffer_data()[0], 42);
    assert_eq!(instances.high_water_mark(), 1);

    let id2 = instances.insert(24);
    assert_eq!(id2.index(), 1);
    assert_eq!(instances.full_buffer_data()[1], 24);
    assert_eq!(instances.high_water_mark(), 2);
}

#[test]
fn test_remove_instance() {
    let mut instances = create_test_instances();

    let id1 = instances.insert(42);
    let id2 = instances.insert(24);

    instances.remove(id1);
    assert!(!instances.ids().contains(&id1));
    assert!(instances.ids().contains(&id2));
    assert_eq!(instances.removed_ids_slice().len(), 1);
    assert_eq!(instances.removed_ids_slice()[0], id1);
}

#[test]
fn test_reuse_removed_index() {
    let mut instances = create_test_instances();

    let id1 = instances.insert(42);
    instances.remove(id1);

    let id2 = instances.insert(24);
    assert_eq!(id1.index(), id2.index());
    assert!(instances.removed_ids_slice().is_empty());
}

#[test]
fn test_ranges_iter() {
    let mut instances = create_test_instances();

    instances.insert(1);
    let id2 = instances.insert(2);
    let id3 = instances.insert(3);
    instances.insert(4);

    instances.remove(id2);
    instances.remove(id3);

    let ranges: Vec<Range<u32>> = instances.ranges_iter().collect_ranges();

    println!("{:?}", ranges);

    assert_eq!(ranges.len(), 2);
    assert_eq!(ranges[0], (0..1));
    assert_eq!(ranges[1], (3..4));
}

#[test]
fn test_ranges_empty_iter() {
    let instances = create_test_instances();
    let ranges: Vec<Range<u32>> = instances.ranges_iter().collect_ranges();

    assert_eq!(ranges.len(), 0);
}

#[test]
fn test_ranges_iter_when_remove_last_item() {
    let mut instances = create_test_instances();

    instances.insert(1);
    let id2 = instances.insert(2);
    instances.insert(3);
    let id4 = instances.insert(4);

    instances.remove(id2);
    instances.remove(id4);

    let ranges: Vec<Range<u32>> = instances.ranges_iter().collect_ranges();

    assert_eq!(ranges.len(), 2);
    assert_eq!(ranges[0], (0..1));
    assert_eq!(ranges[1], (2..3));
}

#[test]
fn test_ranges_iter_when_remove_first_item() {
    let mut instances = create_test_instances();

    let id1 = instances.insert(1);
    instances.insert(2);
    instances.insert(3);
    instances.insert(4);

    instances.remove(id1);

    let ranges: Vec<Range<u32>> = instances.ranges_iter().collect_ranges();

    println!("RANGES: {:?}", ranges);

    assert_eq!(ranges.len(), 1);
    assert_eq!(ranges[0], (1..4));
}

#[test]
fn test_ranges_iter_when_remove_first_consequent_items() {
    let mut instances = create_test_instances();

    let id1 = instances.insert(1);
    let id2 = instances.insert(2);
    instances.insert(3);
    instances.insert(4);

    instances.remove(id1);
    instances.remove(id2);

    let ranges: Vec<Range<u32>> = instances.ranges_iter().collect_ranges();

    println!("RANGES: {:?}", ranges);

    assert_eq!(ranges.len(), 1);
    assert_eq!(ranges[0], (2..4));
}

#[test]
fn test_ranges_iter_when_remove_last_consequent_items() {
    let mut instances = create_test_instances();

    instances.insert(1);
    instances.insert(2);
    let id3 = instances.insert(3);
    let id4 = instances.insert(4);
    instances.insert(5);
    let id6 = instances.insert(6);

    instances.remove(id3);
    instances.remove(id4);
    instances.remove(id6);

    let ranges: Vec<Range<u32>> = instances.ranges_iter().collect_ranges();

    assert_eq!(ranges.len(), 2);
    assert_eq!(ranges[0], (0..2));
    assert_eq!(ranges[1], (3..5));
}

#[test]
fn test_ranges_without_removing_iter() {
    let mut instances = create_test_instances();

    instances.insert(1);
    instances.insert(2);
    instances.insert(3);
    instances.insert(4);

    let ranges: Vec<Range<u32>> = instances.ranges_iter().collect_ranges();

    assert_eq!(ranges.len(), 1);
    assert_eq!(ranges[0], (0..4));
}

#[test]
fn test_ranges_with_all_removed() {
    let mut instances = create_test_instances();

    let id1 = instances.insert(1);
    let id2 = instances.insert(2);
    let id3 = instances.insert(3);
    let id4 = instances.insert(4);

    instances.remove(id1);
    instances.remove(id2);
    instances.remove(id3);
    instances.remove(id4);

    let ranges: Vec<Range<u32>> = instances.ranges_iter().collect_ranges();

    assert_eq!(ranges.len(), 0);
}

#[test]
fn test_bump_instances_grow_on_overflow() {
    let mut instances = bump_with_capacity(2);

    instances.insert(1);
    instances.insert(2);
    instances.insert(3); // exceeds initial capacity of 2

    assert_eq!(instances.full_buffer_data().len(), 4); // grew 2x
    assert_eq!(instances.high_water_mark(), 3);
    assert_eq!(instances.full_buffer_data()[2], 3);
}

#[test]
fn test_pool_instances_grow_on_overflow() {
    let mut instances = pool_with_capacity(2);

    instances.insert(1);
    instances.insert(2);
    instances.insert(3); // exceeds initial capacity of 2

    assert_eq!(instances.full_buffer_data().len(), 4); // grew 2x
    assert_eq!(instances.high_water_mark(), 3);
    assert_eq!(instances.full_buffer_data()[2], 3);
}

#[test]
fn test_pool_instances_slot_reuse_does_not_grow() {
    let mut instances = pool_with_capacity(2);

    let id0 = instances.insert(1);
    instances.insert(2);
    instances.remove(id0);
    instances.insert(99); // reuses slot 0, no grow needed

    assert_eq!(instances.full_buffer_data().len(), 2); // no growth
    assert_eq!(instances.full_buffer_data()[0], 99);
}

#[test]
fn test_buffer_resized_starts_false() {
    let instances: TestBump = BumpInstances::new(4);
    assert!(!instances.is_buffer_resized());
}

#[test]
fn test_take_buffer_resized_returns_false_without_gpu_recreate() {
    let mut instances: TestBump = BumpInstances::new(4);
    assert!(!instances.take_buffer_resized());
    assert!(!instances.take_buffer_resized()); // idempotent
}

#[test]
fn ranges_after_removing_first_and_inner_slot_follow_removed_positions() {
    // The ranges restart after a gap at one past the number of removed
    // identifiers looked at, not one past the removed slot.
    let mut instances = create_test_instances();
    let mut ids = Vec::new();
    for value in 0..8 {
        ids.push(instances.insert(value));
    }
    instances.remove(ids[0]);
    instances.remove(ids[5]);

    let ranges: Vec<Range<u32>> = instances.ranges_iter().collect_ranges();
    assert_eq!(ranges, vec![1..5, 3..8]);
}

#[test]
fn load_plans_write_one_slot_or_recreate() {
    let mut instances = create_test_instances();
    let id = instances.insert(1);
    let plan = instances.load_instance_to_gpu(LoadToGPUSchedule::NextFrame, id);
    assert_eq!(plan.recreate, None);
    assert_eq!((plan.write_start, plan.write_end), (0, 1));
    assert!(!plan.submit);

    for value in 0..10 {
        instances.insert(value);
    }
    // 11 instances no longer fit the buffer made for 10.
    let plan = instances.load_all_instances_to_gpu(LoadToGPUSchedule::Immediately);
    assert_eq!(plan.recreate, Some(20));
    assert_eq!((plan.write_start, plan.write_end), (0, 11));
    assert!(plan.submit);
    assert!(instances.take_buffer_resized());
    assert!(!instances.take_buffer_resized());
}
