use tech_paws_graphics::memory_new::{GpuPoolBuffer, GpuVec, SlotId};

#[derive(Copy, Clone, PartialEq, Debug)]
struct TestId(usize);

impl SlotId for TestId {
    fn spec_index(&self) -> usize {
        self.0
    }

    fn spec_from_index(index: usize) -> Self {
        TestId(index)
    }

    fn from_index(index: usize) -> Self {
        TestId(index)
    }

    fn index(&self) -> usize {
        self.0
    }
}

fn make_pool(capacity: usize) -> GpuPoolBuffer<TestId, i32> {
    GpuPoolBuffer::new(capacity)
}

#[test]
fn test_pool_insert() {
    let mut buffer = make_pool(10);

    let id1 = buffer.insert(42);
    assert_eq!(id1.index(), 0);
    assert_eq!(buffer.slot_data(id1)[0], 42);
    assert_eq!(buffer.high_water_mark(), 1);

    let id2 = buffer.insert(24);
    assert_eq!(id2.index(), 1);
    assert_eq!(buffer.slot_data(id2)[0], 24);
    assert_eq!(buffer.high_water_mark(), 2);
}

#[test]
fn test_pool_remove() {
    let mut buffer = make_pool(10);

    let id1 = buffer.insert(42);
    let id2 = buffer.insert(24);

    buffer.remove(id1);
    assert!(!buffer.ids().contains(&id1));
    assert!(buffer.ids().contains(&id2));
    assert_eq!(buffer.free_ids_slice().len(), 1);
    assert_eq!(buffer.free_ids_slice()[0], id1);
}

#[test]
fn test_pool_slot_reuse() {
    let mut buffer = make_pool(10);

    let id1 = buffer.insert(42);
    buffer.remove(id1);

    let id2 = buffer.insert(24);
    assert_eq!(id1.index(), id2.index());
    assert!(buffer.free_ids_slice().is_empty());
}

#[test]
fn test_pool_grow() {
    let mut buffer = make_pool(2);

    buffer.insert(1);
    buffer.insert(2);
    buffer.insert(3);

    assert_eq!(buffer.len(), 3);
    assert_eq!(buffer.slot_data(TestId(2))[0], 3);
}

#[test]
fn test_pool_slot_reuse_no_grow() {
    let mut buffer = make_pool(2);

    let id0 = buffer.insert(1);
    buffer.insert(2);
    buffer.remove(id0);
    let id_reused = buffer.insert(99);

    assert_eq!(id_reused.index(), 0);
    assert_eq!(buffer.slot_data(id_reused)[0], 99);
}

#[test]
fn test_buffer_resized_false_initially() {
    let mut buffer = make_pool(4);
    assert!(!buffer.take_buffer_resized());
}

#[test]
fn test_pool_update() {
    let mut buffer = make_pool(10);

    let id = buffer.insert(42);
    buffer.update(id, 99);

    assert_eq!(buffer.slot_data(id)[0], 99);
}

#[test]
fn test_pool_contains() {
    let mut buffer = make_pool(10);

    let id1 = buffer.insert(1);
    let id2 = buffer.insert(2);

    assert!(buffer.contains(id1));
    assert!(buffer.contains(id2));

    buffer.remove(id1);

    assert!(!buffer.contains(id1));
    assert!(buffer.contains(id2));
}

#[test]
fn test_pool_len_tracks_active_slots() {
    let mut buffer = make_pool(10);

    assert_eq!(buffer.len(), 0);

    let id1 = buffer.insert(1);
    assert_eq!(buffer.len(), 1);

    buffer.insert(2);
    assert_eq!(buffer.len(), 2);

    buffer.remove(id1);
    assert_eq!(buffer.len(), 1);
}

#[test]
fn test_pool_is_empty() {
    let mut buffer = make_pool(10);

    assert!(buffer.is_empty());

    let id = buffer.insert(1);
    assert!(!buffer.is_empty());

    buffer.remove(id);
    assert!(buffer.is_empty());
}

#[test]
fn test_pool_clear() {
    let mut buffer = make_pool(10);

    buffer.insert(1);
    buffer.insert(2);
    let id3 = buffer.insert(3);
    buffer.remove(id3);

    buffer.clear();

    assert!(buffer.is_empty());
    assert_eq!(buffer.len(), 0);
    assert!(buffer.free_ids_slice().is_empty());
    assert_eq!(buffer.high_water_mark(), 0);
}

#[test]
fn test_pool_gpu_len_does_not_shrink_on_remove() {
    let mut buffer = make_pool(10);

    buffer.insert(1);
    buffer.insert(2);
    let id3 = buffer.insert(3);

    assert_eq!(buffer.high_water_mark(), 3);

    buffer.remove(id3);

    // the high-water mark stays; the active count drops
    assert_eq!(buffer.high_water_mark(), 3);
    assert_eq!(buffer.len(), 2);
}

fn make_gpu_vec(capacity: usize) -> GpuVec<i32> {
    GpuVec::new(capacity)
}

#[test]
fn test_gpu_vec_push_increments_len() {
    let mut vec = make_gpu_vec(4);

    assert_eq!(vec.len(), 0);
    assert!(vec.is_empty());

    vec.push(10);
    assert_eq!(vec.len(), 1);
    assert!(!vec.is_empty());

    vec.push(20);
    assert_eq!(vec.len(), 2);
}

#[test]
fn test_gpu_vec_data_reflects_pushes() {
    let mut vec = make_gpu_vec(4);

    vec.push(1);
    vec.push(2);
    vec.push(3);

    assert_eq!(vec.data(), &[1, 2, 3]);
}

#[test]
fn test_gpu_vec_update() {
    let mut vec = make_gpu_vec(4);

    vec.push(1);
    vec.push(2);
    vec.update(0, 99);

    assert_eq!(vec.data()[0], 99);
    assert_eq!(vec.data()[1], 2);
}

#[test]
fn test_gpu_vec_clear() {
    let mut vec = make_gpu_vec(4);

    vec.push(1);
    vec.push(2);
    vec.clear();

    assert_eq!(vec.len(), 0);
    assert!(vec.is_empty());
}

#[test]
fn test_gpu_vec_grow() {
    let mut vec = make_gpu_vec(2);

    vec.push(1);
    vec.push(2);
    vec.push(3); // triggers resize

    assert_eq!(vec.len(), 3);
    assert_eq!(vec.data(), &[1, 2, 3]);
    assert_eq!(vec.raw_data().len(), 4);
}

#[test]
fn gpu_vec_grown_storage_is_filled_with_defaults() {
    let mut vec: GpuVec<(u8, bool)> = GpuVec::new(2);
    assert_eq!(vec.raw_data(), &[(0, false), (0, false)]);

    vec.push((1, true));
    vec.push((2, true));
    vec.push((3, true));
    vec.push((4, true));
    vec.push((5, true)); // second doubling

    assert_eq!(vec.raw_data().len(), 8);
    assert_eq!(
        vec.raw_data(),
        &[(1, true), (2, true), (3, true), (4, true), (5, true), (0, false), (0, false), (0, false)]
    );
}
