use std::ops::Range;

use vstd::prelude::*;
use vstd::slice::slice_subrange;
use vstd::std_specs::cmp::PartialEqSpec;

use crate::graphics_context::LoadToGPUSchedule;
use crate::instances::{run_len, u32_range, u32_ranges, lemma_run_len};
use crate::memory_new::{
    default_filled, first_match, has_match, is_first_match, lemma_first_match, made_by_default,
    stored_after_append,
};

verus! {

/// An identifier of an instance: it gives the index of the instance's slot.
pub trait InstanceId {
    /// The slot index this identifier designates.
    spec fn spec_index(&self) -> usize;

    fn index(&self) -> (index: usize)
        ensures
            index == self.spec_index(),
    ;
}

/// The slot indices of `ids`, in order.
pub open spec fn instance_indices<ID: InstanceId>(ids: Seq<ID>) -> Seq<int> {
    ids.map_values(|id: ID| id.spec_index() as int)
}

/// The identifiers are in non-decreasing order of slot index.
pub open spec fn sorted_by_instance_index<ID: InstanceId>(ids: Seq<ID>) -> bool {
    forall|i: int, j: int|
        0 <= i <= j < ids.len() ==> #[trigger] ids[i].spec_index() <= #[trigger] ids[j].spec_index()
}

/// `ids` with `id` added after every identifier whose slot index is not
/// greater than its own: what a stable sort by index makes of `ids` sorted
/// and `id` pushed at the end.
pub open spec fn insert_by_instance_index<ID: InstanceId>(ids: Seq<ID>, id: ID) -> Seq<ID>
    decreases ids.len(),
{
    if ids.len() == 0 || ids.last().spec_index() <= id.spec_index() {
        ids.push(id)
    } else {
        insert_by_instance_index(ids.drop_last(), id).push(ids.last())
    }
}

pub proof fn lemma_insert_by_instance_index<ID: InstanceId>(ids: Seq<ID>, id: ID, pos: int)
    requires
        0 <= pos <= ids.len(),
        forall|j: int| pos <= j < ids.len() ==> (#[trigger] ids[j]).spec_index() > id.spec_index(),
        pos > 0 ==> ids[pos - 1].spec_index() <= id.spec_index(),
    ensures
        insert_by_instance_index(ids, id) == ids.insert(pos, id),
    decreases ids.len(),
{
    if pos == ids.len() {
        assert(ids.insert(pos, id) =~= ids.push(id));
    } else {
        let d = ids.drop_last();
        assert(ids.last() == ids[ids.len() - 1]);
        lemma_insert_by_instance_index(d, id, pos);
        assert(ids.insert(pos, id) =~= d.insert(pos, id).push(ids.last()));
    }
}

/// One step of the ranges iterator over removed slot indices `r`: what it
/// yields, then the next position in `r` and the next range start.
///
/// While the range start equals the next removed index, the start moves to
/// the next position; otherwise it yields `last..r[cur]`, skips the run of
/// consecutive removed indices and restarts one past that run's position.
/// Once `r` is used up it yields `last..len`, unless nothing was ever added
/// or the last slot is removed.
pub open spec fn ranges_step(r: Seq<int>, cur: int, len: int, last: int) -> (
    Option<(int, int)>,
    int,
    int,
)
    decreases r.len() - cur,
{
    if 0 <= cur < r.len() {
        if last == r[cur] {
            ranges_step(r, cur + 1, len, cur + 1)
        } else {
            let e = cur + run_len(r, cur);
            (Some((last, r[cur])), e, e + 1)
        }
    } else if cur == r.len() {
        if len == 0 || (r.len() > 0 && r.last() == len - 1) {
            (None, cur, last)
        } else {
            (Some((last, len)), cur + 1, last)
        }
    } else {
        (None, cur, last)
    }
}

pub proof fn lemma_ranges_step(r: Seq<int>, cur: int, len: int, last: int)
    requires
        0 <= cur,
    ensures
        ranges_step(r, cur, len, last).1 >= cur,
        cur <= r.len() ==> ranges_step(r, cur, len, last).1 <= r.len() + 1,
        ranges_step(r, cur, len, last).0 is Some ==> ranges_step(r, cur, len, last).1 > cur,
        cur > r.len() ==> ranges_step(r, cur, len, last).0 is None,
    decreases r.len() - cur,
{
    if 0 <= cur < r.len() {
        if last == r[cur] {
            lemma_ranges_step(r, cur + 1, len, cur + 1);
        } else {
            lemma_run_len(r, cur);
        }
    }
}

/// Every range the iterator yields from the given state on, in order.
pub open spec fn removed_ranges(r: Seq<int>, cur: int, len: int, last: int) -> Seq<(int, int)>
    decreases r.len() + 1 - cur,
{
    if 0 <= cur <= r.len() {
        let (res, c2, l2) = ranges_step(r, cur, len, last);
        match res {
            Some(x) => {
                proof {
                    lemma_ranges_step(r, cur, len, last);
                }
                seq![x] + removed_ranges(r, c2, len, l2)
            },
            None => Seq::empty(),
        }
    } else {
        Seq::empty()
    }
}

/// The integers of `r` strictly increase and none is negative, as the slot
/// indices of distinct removed instances do.
pub open spec fn strictly_increasing_slots(r: Seq<int>) -> bool {
    &&& forall|i: int, j: int| 0 <= i < j < r.len() ==> #[trigger] r[i] < #[trigger] r[j]
    &&& forall|i: int| 0 <= i < r.len() ==> 0 <= #[trigger] r[i]
}

/// Some range of `ranges` holds `x`.
pub open spec fn covered_by(ranges: Seq<(int, int)>, x: int) -> bool {
    exists|j: int| 0 <= j < ranges.len() && (#[trigger] ranges[j]).0 <= x < ranges[j].1
}

proof fn lemma_spread(r: Seq<int>, i: int, j: int)
    requires
        strictly_increasing_slots(r),
        0 <= i <= j < r.len(),
    ensures
        r[j] - r[i] >= j - i,
    decreases j - i,
{
    if i < j {
        lemma_spread(r, i, j - 1);
        assert(r[j - 1] < r[j]);
    }
}

/// Where the slots not yet looked at begin: one past the removed index
/// before position `cur`.
spec fn scan_start(r: Seq<int>, cur: int) -> int {
    if cur == 0 {
        0
    } else {
        r[cur - 1] + 1
    }
}

proof fn lemma_ranges_cover(r: Seq<int>, cur: int, len: int, last: int)
    requires
        strictly_increasing_slots(r),
        0 <= cur <= r.len(),
        last <= scan_start(r, cur),
        (cur == 0 || r[cur - 1] == cur - 1) ==> last == cur,
    ensures
        forall|x: int|
            scan_start(r, cur) <= x < len && !r.contains(x) ==> #[trigger] covered_by(
                removed_ranges(r, cur, len, last),
                x,
            ),
    decreases r.len() - cur,
{
    let n = r.len();
    let all = removed_ranges(r, cur, len, last);
    if cur < n {
        lemma_spread(r, 0, cur);
        assert(r[cur] >= cur);
        if last == r[cur] {
            assert(ranges_step(r, cur, len, last) == ranges_step(r, cur + 1, len, cur + 1));
            assert(all == removed_ranges(r, cur + 1, len, cur + 1));
            lemma_ranges_cover(r, cur + 1, len, cur + 1);
            assert forall|x: int|
                scan_start(r, cur) <= x < len && !r.contains(x) implies covered_by(all, x) by {
                if x == r[cur] {
                    assert(r.contains(x));
                }
                assert(scan_start(r, cur + 1) <= x);
                assert(covered_by(removed_ranges(r, cur + 1, len, cur + 1), x));
            }
        } else {
            lemma_run_len(r, cur);
            let k = run_len(r, cur) as int;
            let e = cur + k;
            if r[cur] == cur {
                if cur > 0 {
                    assert(r[cur - 1] < r[cur]);
                    lemma_spread(r, 0, cur - 1);
                }
                assert(false);
            }
            assert(r[cur + (k - 1)] == r[cur] + (k - 1));
            assert(r[e - 1] >= e);
            assert(ranges_step(r, cur, len, last) == (Some((last, r[cur])), e, e + 1));
            let tail = removed_ranges(r, e, len, e + 1);
            assert(all == seq![(last, r[cur])] + tail);
            lemma_ranges_cover(r, e, len, e + 1);
            assert forall|x: int|
                scan_start(r, cur) <= x < len && !r.contains(x) implies covered_by(all, x) by {
                if x < r[cur] {
                    assert(all[0] == (last, r[cur]));
                } else {
                    if x < r[cur] + k {
                        let i = x - r[cur];
                        assert(r[cur + i] == r[cur] + i);
                        assert(r.contains(x));
                    }
                    assert(scan_start(r, e) <= x);
                    assert(covered_by(tail, x));
                    let j = choose|j: int| 0 <= j < tail.len() && (#[trigger] tail[j]).0 <= x < tail[j].1;
                    assert(all[j + 1] == tail[j]);
                }
            }
        }
    } else {
        if len == 0 || (n > 0 && r.last() == len - 1) {
            assert(ranges_step(r, cur, len, last).0 is None);
        } else {
            assert(ranges_step(r, cur, len, last) == (Some((last, len)), cur + 1, last));
            assert(all == seq![(last, len)] + removed_ranges(r, cur + 1, len, last));
            assert forall|x: int|
                scan_start(r, cur) <= x < len && !r.contains(x) implies covered_by(all, x) by {
                assert(all[0] == (last, len));
            }
        }
    }
}

/// Law: the ranges of instances to draw leave out no instance: given the
/// removed slot indices (distinct, in increasing order) and the number of
/// slots handed out, every slot below that number that is not removed lies
/// in some range the iterator yields from its start.
pub proof fn law_ranges_cover_live_slots(r: Seq<int>, len: int)
    requires
        strictly_increasing_slots(r),
    ensures
        forall|x: int|
            0 <= x < len && !r.contains(x) ==> #[trigger] covered_by(removed_ranges(r, 0, len, 0), x),
{
    lemma_ranges_cover(r, 0, len, 0);
}

/// An iterator over the ranges of instances to draw, computed from the sorted
/// removed identifiers and the number of slots ever handed out.
pub struct InstancesRangesIter<ID> {
    removed_ids: Vec<ID>,
    current_id_index: usize,
    len: usize,
    last_index: usize,
}

impl<ID: InstanceId> InstancesRangesIter<ID> {
    /// The slot indices of the removed identifiers.
    pub closed spec fn removed(&self) -> Seq<int> {
        instance_indices(self.removed_ids@)
    }

    pub closed spec fn cursor(&self) -> int {
        self.current_id_index as int
    }

    /// The number of slots ever handed out.
    pub closed spec fn slot_count(&self) -> int {
        self.len as int
    }

    /// Where the next range starts.
    pub closed spec fn last_index(&self) -> int {
        self.last_index as int
    }

    pub open spec fn wf(&self) -> bool {
        &&& forall|i: int, j: int|
            0 <= i <= j < self.removed().len() ==> #[trigger] self.removed()[i]
                <= #[trigger] self.removed()[j]
        &&& self.removed().len() < usize::MAX
    }

    /// The ranges still to be yielded.
    pub open spec fn remaining(&self) -> Seq<(int, int)> {
        removed_ranges(self.removed(), self.cursor(), self.slot_count(), self.last_index())
    }

    /// Yields the next range (see `ranges_step`).
    pub fn next(&mut self) -> (res: Option<Range<u32>>)
        requires
            old(self).wf(),
        ensures
            final(self).wf(),
            final(self).removed() == old(self).removed(),
            final(self).slot_count() == old(self).slot_count(),
            ({
                let (step, c2, l2) = ranges_step(
                    old(self).removed(),
                    old(self).cursor(),
                    old(self).slot_count(),
                    old(self).last_index(),
                );
                &&& res == match step {
                    Some(x) => Some(u32_range(x.0, x.1)),
                    None => None,
                }
                &&& final(self).cursor() == c2
                &&& final(self).last_index() == l2
            }),
    {
        let ghost r = self.removed();
        let ghost len = self.len as int;
        let ghost target = ranges_step(r, self.cursor(), len, self.last_index());
        proof {
            assert(r.len() == self.removed_ids@.len());
        }
        while self.current_id_index < self.removed_ids.len()
            && self.last_index == self.removed_ids[self.current_id_index].index()
            invariant
                r == instance_indices(self.removed_ids@),
                self.removed_ids@ == old(self).removed_ids@,
                self.len == old(self).len,
                len == self.len,
                self.removed_ids@.len() < usize::MAX,
                ranges_step(r, self.cursor(), len, self.last_index()) == target,
                target == ranges_step(
                    old(self).removed(),
                    old(self).cursor(),
                    old(self).slot_count(),
                    old(self).last_index(),
                ),
            decreases self.removed_ids@.len() - self.current_id_index,
        {
            proof {
                assert(r[self.current_id_index as int] == self.removed_ids@[self.current_id_index as int].spec_index());
            }
            self.current_id_index = self.current_id_index + 1;
            self.last_index = self.current_id_index;
        }
        if self.current_id_index < self.removed_ids.len() {
            let cur0 = self.current_id_index;
            let next_index = self.removed_ids[cur0].index();
            proof {
                assert(r[cur0 as int] == next_index);
                lemma_run_len(r, cur0 as int);
            }
            let mut idx = next_index;
            let ghost last0 = self.last_index;
            self.current_id_index = cur0 + 1;
            while self.current_id_index < self.removed_ids.len()
                && self.removed_ids[self.current_id_index].index() - idx == 1
                invariant
                    r == instance_indices(self.removed_ids@),
                    self.removed_ids@ == old(self).removed_ids@,
                    self.len == old(self).len,
                    self.last_index == last0,
                    forall|i: int, j: int|
                        0 <= i <= j < r.len() ==> #[trigger] r[i] <= #[trigger] r[j],
                    cur0 < self.current_id_index <= self.removed_ids@.len() < usize::MAX,
                    idx == r[self.current_id_index - 1],
                    run_len(r, cur0 as int) == (self.current_id_index - 1 - cur0) + run_len(
                        r,
                        self.current_id_index - 1,
                    ),
                decreases self.removed_ids@.len() - self.current_id_index,
            {
                proof {
                    assert(r[self.current_id_index as int] == self.removed_ids@[self.current_id_index as int].spec_index());
                    assert(r[self.current_id_index - 1] <= r[self.current_id_index as int]);
                }
                idx = self.removed_ids[self.current_id_index].index();
                self.current_id_index = self.current_id_index + 1;
            }
            proof {
                let k = self.current_id_index - 1;
                if self.current_id_index < self.removed_ids@.len() {
                    assert(r[self.current_id_index as int] == self.removed_ids@[self.current_id_index as int].spec_index());
                    assert(r[k] <= r[self.current_id_index as int]);
                }
                assert(run_len(r, k) == 1);
            }
            let range = #[verifier::truncate] (self.last_index as u32)..#[verifier::truncate] (
            next_index as u32);
            self.last_index = self.current_id_index + 1;
            Some(range)
        } else if self.current_id_index == self.removed_ids.len() {
            let n = self.removed_ids.len();
            if self.len == 0 || (n > 0 && self.removed_ids[n - 1].index() == self.len - 1) {
                proof {
                    if n > 0 {
                        assert(r.last() == self.removed_ids@[n - 1].spec_index());
                    }
                }
                None
            } else {
                proof {
                    if n > 0 {
                        assert(r.last() == self.removed_ids@[n - 1].spec_index());
                    }
                }
                self.current_id_index = self.current_id_index + 1;
                Some(#[verifier::truncate] (self.last_index as u32)..#[verifier::truncate] (
                self.len as u32))
            }
        } else {
            None
        }
    }

    /// Every range still to be yielded, in order.
    pub fn collect_ranges(&mut self) -> (out: Vec<Range<u32>>)
        requires
            old(self).wf(),
        ensures
            final(self).wf(),
            out@ == u32_ranges(old(self).remaining()),
    {
        let mut out: Vec<Range<u32>> = Vec::new();
        let ghost all = self.remaining();
        loop
            invariant
                self.wf(),
                self.removed() == old(self).removed(),
                self.slot_count() == old(self).slot_count(),
                all == old(self).remaining(),
                out@ + u32_ranges(self.remaining()) == u32_ranges(all),
            decreases self.removed().len() + 2 - self.cursor(),
        {
            let ghost r = self.removed();
            let ghost c = self.cursor();
            let ghost len = self.slot_count();
            let ghost l = self.last_index();
            let ghost before = self.remaining();
            proof {
                lemma_ranges_step(r, c, len, l);
            }
            match self.next() {
                Some(x) => {
                    proof {
                        assert(c <= r.len());
                        assert(u32_ranges(before) =~= seq![x] + u32_ranges(self.remaining()));
                    }
                    out.push(x);
                    proof {
                        assert(out@ + u32_ranges(self.remaining()) =~= u32_ranges(all));
                    }
                },
                None => {
                    proof {
                        assert(before =~= Seq::<(int, int)>::empty());
                        assert(u32_ranges(before) =~= Seq::<Range<u32>>::empty());
                        assert(out@ =~= u32_ranges(all));
                    }
                    return out;
                },
            }
        }
    }
}


/// What the owner of instances must do to the GPU buffer.
pub struct LoadPlan {
    /// Where `Some(n)`, first recreate the GPU buffer from the whole storage
    /// of `n` elements.
    pub recreate: Option<usize>,
    /// The stored elements `write_start..write_end` to write to the GPU
    /// buffer at the same position.
    pub write_start: usize,
    pub write_end: usize,
    /// Whether to submit the queue afterwards.
    pub submit: bool,
}

/// Instances in slots that are reused after removal: freed slots are kept
/// sorted by index and the highest one is filled first. The identifiers are
/// made by a factory set with `create_buffer`.
pub struct PoolInstances<ID, T, F> {
    buffer_data: Vec<T>,
    has_gpu_buffer: bool,
    removed_ids: Vec<ID>,
    ids: Vec<ID>,
    max_index: usize,
    id_factory: Option<F>,
    gpu_capacity: usize,
    buffer_resized: bool,
}

impl<ID: InstanceId + Copy + PartialEq, T: Default + Clone, F: Fn(usize, &T) -> ID> PoolInstances<
    ID,
    T,
    F,
> {
    /// Every stored element.
    pub closed spec fn storage(&self) -> Seq<T> {
        self.buffer_data@
    }

    /// The identifiers in use, in insertion order.
    pub closed spec fn active(&self) -> Seq<ID> {
        self.ids@
    }

    /// The removed identifiers, sorted by slot index.
    pub closed spec fn removed(&self) -> Seq<ID> {
        self.removed_ids@
    }

    /// The number of slots ever handed out.
    pub closed spec fn max_index(&self) -> nat {
        self.max_index as nat
    }

    pub closed spec fn has_gpu_buffer(&self) -> bool {
        self.has_gpu_buffer
    }

    pub closed spec fn gpu_capacity(&self) -> nat {
        self.gpu_capacity as nat
    }

    pub closed spec fn resized(&self) -> bool {
        self.buffer_resized
    }

    pub closed spec fn has_factory(&self) -> bool {
        self.id_factory is Some
    }

    /// The identifier factory.
    pub closed spec fn factory(&self) -> Option<F> {
        self.id_factory
    }

    /// The factory accepts slot `index` and `data`.
    pub open spec fn factory_accepts(&self, index: usize, data: &T) -> bool {
        self.factory() is Some && call_requires(self.factory()->0, (index, data))
    }

    /// The factory may return `id` for slot `index` and `data`.
    pub open spec fn factory_made(&self, index: usize, data: &T, id: ID) -> bool {
        self.factory() is Some && call_ensures(self.factory()->0, (index, data), id)
    }

    pub open spec fn wf(&self) -> bool {
        &&& self.max_index() <= self.storage().len()
        &&& self.gpu_capacity() <= self.storage().len()
        &&& sorted_by_instance_index(self.removed())
    }

    /// The slot the next `insert` fills.
    pub open spec fn next_slot(&self) -> nat {
        if self.removed().len() == 0 {
            self.max_index()
        } else {
            self.removed().last().spec_index() as nat
        }
    }

    /// The next `insert` can proceed.
    pub open spec fn can_insert(&self, data: &T) -> bool {
        &&& self.factory_accepts(self.next_slot() as usize, data)
        &&& self.removed().len() == 0 ==> {
            ||| self.max_index() < self.storage().len()
            ||| (self.storage().len() > 0 && self.storage().len() * 2 <= usize::MAX)
        }
        &&& self.removed().len() > 0 ==> self.next_slot() < self.storage().len()
    }

    pub fn new(capacity: usize) -> (p: Self)
        ensures
            p.wf(),
            p.storage().len() == capacity,
            p.active() == Seq::<ID>::empty(),
            p.removed() == Seq::<ID>::empty(),
            p.max_index() == 0,
            !p.has_factory(),
            !p.has_gpu_buffer(),
            p.gpu_capacity() == 0,
            !p.resized(),
            default_filled(p.storage(), 0, capacity as int),
    {
        let fill = T::default();
        proof {
            assert(made_by_default(fill));
        }
        PoolInstances {
            buffer_data: vec![fill; capacity],
            has_gpu_buffer: false,
            removed_ids: Vec::with_capacity(capacity),
            ids: Vec::with_capacity(capacity),
            max_index: 0,
            id_factory: None,
            gpu_capacity: 0,
            buffer_resized: false,
        }
    }

    /// Records that the GPU buffer was created from the whole storage and
    /// sets the identifier factory.
    pub fn create_buffer(&mut self, id_factory: F)
        requires
            old(self).wf(),
            !old(self).has_gpu_buffer(),
        ensures
            final(self).wf(),
            final(self).has_gpu_buffer(),
            final(self).has_factory(),
            final(self).factory() == Some(id_factory),
            forall|i: usize, d: &T| #[trigger] final(self).factory_accepts(i, d) <==> call_requires(id_factory, (i, d)),
            forall|i: usize, d: &T, id: ID| #[trigger] final(self).factory_made(i, d, id) <==> call_ensures(id_factory, (i, d), id),
            final(self).gpu_capacity() == old(self).storage().len(),
            final(self).storage() == old(self).storage(),
            final(self).active() == old(self).active(),
            final(self).removed() == old(self).removed(),
            final(self).max_index() == old(self).max_index(),
            final(self).resized() == old(self).resized(),
    {
        self.id_factory = Some(id_factory);
        self.has_gpu_buffer = true;
        self.gpu_capacity = self.buffer_data.len();
    }

    /// One past the highest slot index handed out since the last clear.
    pub fn high_water_mark(&self) -> (n: usize)
        ensures
            n == self.max_index(),
    {
        self.max_index
    }

    /// The identifiers of removed instances whose slots wait for reuse; the
    /// last one is reused first.
    pub fn removed_ids_slice(&self) -> (out: &[ID])
        ensures
            out@ == self.removed(),
    {
        self.removed_ids.as_slice()
    }

    /// Whether the GPU buffer was recreated since the last
    /// `take_buffer_resized`.
    pub fn is_buffer_resized(&self) -> (b: bool)
        ensures
            b == self.resized(),
    {
        self.buffer_resized
    }

    /// The number of instances in use.
    pub fn len(&self) -> (n: usize)
        ensures
            n == self.active().len(),
    {
        self.ids.len()
    }

    pub fn is_empty(&self) -> (b: bool)
        ensures
            b == (self.active().len() == 0),
    {
        self.ids.len() == 0
    }

    /// Fills the highest removed slot, or a new slot when none is removed
    /// (doubling the storage when it is full), with `data`; returns the
    /// identifier the factory makes for that slot.
    pub fn insert(&mut self, data: T) -> (id: ID)
        requires
            old(self).wf(),
            old(self).can_insert(&data),
        ensures
            final(self).wf(),
            old(self).factory_made(old(self).next_slot() as usize, &data, id),
            final(self).active() == old(self).active().push(id),
            final(self).storage()[old(self).next_slot() as int] == data,
            old(self).removed().len() == 0 ==> {
                &&& final(self).removed() == old(self).removed()
                &&& final(self).max_index() == old(self).max_index() + 1
                &&& stored_after_append(
                    old(self).storage(),
                    old(self).max_index() as int,
                    data,
                    final(self).storage(),
                )
            },
            old(self).removed().len() > 0 ==> {
                &&& final(self).removed() == old(self).removed().drop_last()
                &&& final(self).max_index() == old(self).max_index()
                &&& final(self).storage() == old(self).storage().update(
                    old(self).next_slot() as int,
                    data,
                )
            },
            final(self).factory() == old(self).factory(),
            final(self).has_gpu_buffer() == old(self).has_gpu_buffer(),
            final(self).gpu_capacity() == old(self).gpu_capacity(),
            final(self).resized() == old(self).resized(),
    {
        let index = if self.removed_ids.len() == 0 {
            let idx = self.max_index;
            let n = self.buffer_data.len();
            self.max_index = idx + 1;
            if idx >= n {
                let fill = T::default();
                proof {
                    assert(made_by_default(fill));
                }
                self.buffer_data.resize(n * 2, fill);
            }
            idx
        } else {
            let last = self.removed_ids.pop();
            match last {
                Some(r) => r.index(),
                None => 0,
            }
        };
        let f = self.id_factory.as_ref().unwrap();
        let id = f(index, &data);
        self.buffer_data.set(index, data);
        self.ids.push(id);
        proof {
            if old(self).removed().len() == 0 {
                if old(self).max_index() < old(self).storage().len() {
                    assert(self.storage() =~= old(self).storage().update(index as int, data));
                } else {
                    assert(self.storage().subrange(0, old(self).storage().len() as int) =~= old(
                        self,
                    ).storage());
                }
            }
        }
        id
    }

    /// Records that the GPU buffer was recreated from the whole storage.
    fn recreate_gpu_buffer(&mut self) -> (capacity: usize)
        requires
            old(self).wf(),
        ensures
            final(self).wf(),
            capacity == old(self).storage().len(),
            final(self).has_gpu_buffer(),
            final(self).gpu_capacity() == old(self).storage().len(),
            final(self).resized(),
            final(self).storage() == old(self).storage(),
            final(self).active() == old(self).active(),
            final(self).removed() == old(self).removed(),
            final(self).max_index() == old(self).max_index(),
            final(self).factory() == old(self).factory(),
    {
        self.has_gpu_buffer = true;
        self.gpu_capacity = self.buffer_data.len();
        self.buffer_resized = true;
        self.gpu_capacity
    }

    /// How to bring the instance of `id` to the GPU: when the buffer is too
    /// small, recreate it and write every occupied slot; otherwise write the
    /// slot of `id` alone. The queue is submitted when the schedule says
    /// `Immediately`.
    pub fn load_instance_to_gpu(&mut self, schedule: LoadToGPUSchedule, id: ID) -> (plan: LoadPlan)
        requires
            old(self).wf(),
            old(self).max_index() > old(self).gpu_capacity() || {
                &&& old(self).has_gpu_buffer()
                &&& id.spec_index() < old(self).max_index()
                &&& ID::obeys_eq_spec()
                &&& !has_match(old(self).removed(), id)
            },
        ensures
            final(self).factory() == old(self).factory(),
            final(self).wf(),
            final(self).storage() == old(self).storage(),
            final(self).active() == old(self).active(),
            final(self).removed() == old(self).removed(),
            final(self).max_index() == old(self).max_index(),
            final(self).has_gpu_buffer(),
            plan.submit == (schedule == LoadToGPUSchedule::Immediately),
            old(self).max_index() > old(self).gpu_capacity() ==> {
                &&& plan.recreate == Some(old(self).storage().len() as usize)
                &&& plan.write_start == 0
                &&& plan.write_end == old(self).max_index()
                &&& final(self).gpu_capacity() == old(self).storage().len()
                &&& final(self).resized()
            },
            old(self).max_index() <= old(self).gpu_capacity() ==> {
                &&& plan.recreate == None::<usize>
                &&& plan.write_start == id.spec_index()
                &&& plan.write_end == id.spec_index() + 1
                &&& final(self).gpu_capacity() == old(self).gpu_capacity()
                &&& final(self).resized() == old(self).resized()
            },
    {
        let submit = schedule == LoadToGPUSchedule::Immediately;
        if self.max_index > self.gpu_capacity {
            let capacity = self.recreate_gpu_buffer();
            return LoadPlan {
                recreate: Some(capacity),
                write_start: 0,
                write_end: self.max_index,
                submit,
            };
        }
        let index = id.index();
        LoadPlan { recreate: None, write_start: index, write_end: index + 1, submit }
    }

    /// How to bring every occupied slot to the GPU: recreate the buffer first
    /// when it is too small; the queue is submitted when the schedule says
    /// `Immediately`.
    pub fn load_all_instances_to_gpu(&mut self, schedule: LoadToGPUSchedule) -> (plan: LoadPlan)
        requires
            old(self).wf(),
            old(self).max_index() > old(self).gpu_capacity() || old(self).has_gpu_buffer(),
        ensures
            final(self).factory() == old(self).factory(),
            final(self).wf(),
            final(self).storage() == old(self).storage(),
            final(self).active() == old(self).active(),
            final(self).removed() == old(self).removed(),
            final(self).max_index() == old(self).max_index(),
            final(self).has_gpu_buffer(),
            plan.submit == (schedule == LoadToGPUSchedule::Immediately),
            plan.write_start == 0,
            plan.write_end == old(self).max_index(),
            old(self).max_index() > old(self).gpu_capacity() ==> {
                &&& plan.recreate == Some(old(self).storage().len() as usize)
                &&& final(self).gpu_capacity() == old(self).storage().len()
                &&& final(self).resized()
            },
            old(self).max_index() <= old(self).gpu_capacity() ==> {
                &&& plan.recreate == None::<usize>
                &&& final(self).gpu_capacity() == old(self).gpu_capacity()
                &&& final(self).resized() == old(self).resized()
            },
    {
        let submit = schedule == LoadToGPUSchedule::Immediately;
        let recreate = if self.max_index > self.gpu_capacity {
            Some(self.recreate_gpu_buffer())
        } else {
            None
        };
        LoadPlan { recreate, write_start: 0, write_end: self.max_index, submit }
    }

    /// Whether the GPU buffer was recreated since the last call, and resets it.
    pub fn take_buffer_resized(&mut self) -> (was: bool)
        ensures
            final(self).factory() == old(self).factory(),
            was == old(self).resized(),
            !final(self).resized(),
            final(self).storage() == old(self).storage(),
            final(self).active() == old(self).active(),
            final(self).removed() == old(self).removed(),
            final(self).max_index() == old(self).max_index(),
            final(self).has_gpu_buffer() == old(self).has_gpu_buffer(),
            final(self).gpu_capacity() == old(self).gpu_capacity(),
            old(self).wf() ==> final(self).wf(),
    {
        let was = self.buffer_resized;
        self.buffer_resized = false;
        was
    }

    /// The ranges of slots to draw (see `ranges_step`).
    pub fn ranges_iter(&self) -> (it: InstancesRangesIter<ID>)
        requires
            self.wf(),
            self.removed().len() < usize::MAX,
        ensures
            it.wf(),
            it.removed() == instance_indices(self.removed()),
            it.cursor() == 0,
            it.slot_count() == self.max_index(),
            it.last_index() == 0,
    {
        let mut copy: Vec<ID> = Vec::new();
        let mut i: usize = 0;
        while i < self.removed_ids.len()
            invariant
                i <= self.removed_ids@.len(),
                copy@ == self.removed_ids@.subrange(0, i as int),
            decreases self.removed_ids@.len() - i,
        {
            copy.push(self.removed_ids[i]);
            i = i + 1;
            proof {
                assert(copy@ =~= self.removed_ids@.subrange(0, i as int));
            }
        }
        proof {
            assert(copy@ =~= self.removed_ids@);
        }
        InstancesRangesIter {
            removed_ids: copy,
            current_id_index: 0,
            len: self.max_index,
            last_index: 0,
        }
    }

    /// Whether some identifier in use equals `id`.
    pub fn contains(&self, id: ID) -> (b: bool)
        ensures
            ID::obeys_eq_spec() ==> b == has_match(self.active(), id),
    {
        let mut k: usize = 0;
        while k < self.ids.len()
            invariant
                k <= self.ids@.len(),
                ID::obeys_eq_spec() ==> forall|j: int|
                    0 <= j < k ==> !(#[trigger] self.ids@[j]).eq_spec(&id),
            decreases self.ids@.len() - k,
        {
            let cur = self.ids[k];
            if cur == id {
                return true;
            }
            k = k + 1;
        }
        false
    }

    /// The identifiers in use, in insertion order.
    pub fn ids(&self) -> (out: &[ID])
        ensures
            out@ == self.active(),
    {
        self.ids.as_slice()
    }

    /// The stored elements of the slots ever handed out.
    pub fn occupied_buffer(&self) -> (out: &[T])
        requires
            self.wf(),
        ensures
            out@ == self.storage().subrange(0, self.max_index() as int),
    {
        slice_subrange(self.buffer_data.as_slice(), 0, self.max_index)
    }

    /// Every stored element.
    pub fn full_buffer_data(&self) -> (out: &[T])
        ensures
            out@ == self.storage(),
    {
        self.buffer_data.as_slice()
    }

    /// The one-element slice holding the instance of `id`, whose slot must
    /// have been handed out and not be removed.
    pub fn instance_buffer(&self, id: ID) -> (out: &[T])
        requires
            self.wf(),
            id.spec_index() < self.max_index(),
            ID::obeys_eq_spec(),
            !has_match(self.removed(), id),
        ensures
            out@ == seq![self.storage()[id.spec_index() as int]],
    {
        let idx = id.index();
        let out = slice_subrange(self.buffer_data.as_slice(), idx, idx + 1);
        proof {
            assert(out@ =~= seq![self.storage()[id.spec_index() as int]]);
        }
        out
    }

    /// Removes every instance and forgets the slots handed out; the storage
    /// stays.
    pub fn clear(&mut self)
        requires
            old(self).wf(),
        ensures
            final(self).wf(),
            final(self).active() == Seq::<ID>::empty(),
            final(self).removed() == Seq::<ID>::empty(),
            final(self).max_index() == 0,
            final(self).storage() == old(self).storage(),
            final(self).factory() == old(self).factory(),
            final(self).has_gpu_buffer() == old(self).has_gpu_buffer(),
            final(self).gpu_capacity() == old(self).gpu_capacity(),
            final(self).resized() == old(self).resized(),
    {
        self.max_index = 0;
        self.ids.clear();
        self.removed_ids.clear();
    }

    /// Removes the first identifier in use that equals `id`; `id` joins the
    /// removed list after every removed identifier of a slot index not
    /// greater than its own.
    pub fn remove(&mut self, id: ID)
        requires
            old(self).wf(),
            ID::obeys_eq_spec(),
            has_match(old(self).active(), id),
        ensures
            final(self).wf(),
            final(self).active() == old(self).active().remove(first_match(old(self).active(), id)),
            final(self).removed() == insert_by_instance_index(old(self).removed(), id),
            final(self).storage() == old(self).storage(),
            final(self).max_index() == old(self).max_index(),
            final(self).factory() == old(self).factory(),
            final(self).has_gpu_buffer() == old(self).has_gpu_buffer(),
            final(self).gpu_capacity() == old(self).gpu_capacity(),
            final(self).resized() == old(self).resized(),
    {
        let mut k: usize = 0;
        while k < self.ids.len()
            invariant
                self.ids@ == old(self).active(),
                ID::obeys_eq_spec(),
                has_match(old(self).active(), id),
                k <= self.ids@.len(),
                forall|j: int| 0 <= j < k ==> !(#[trigger] self.ids@[j]).eq_spec(&id),
            ensures
                k <= self.ids@.len(),
                forall|j: int| 0 <= j < k ==> !(#[trigger] self.ids@[j]).eq_spec(&id),
                k < self.ids@.len() ==> self.ids@[k as int].eq_spec(&id),
            decreases self.ids@.len() - k,
        {
            let cur = self.ids[k];
            if cur == id {
                break;
            }
            k = k + 1;
        }
        proof {
            if k >= self.ids@.len() {
                let w = choose|w: int|
                    0 <= w < old(self).active().len() && (#[trigger] old(self).active()[w]).eq_spec(
                        &id,
                    );
                assert(!old(self).active()[w].eq_spec(&id));
            }
            assert(is_first_match(old(self).active(), id, k as int));
            lemma_first_match(old(self).active(), id, k as int);
        }
        self.ids.remove(k);
        let key = id.index();
        let mut pos = self.removed_ids.len();
        while pos > 0 && self.removed_ids[pos - 1].index() > key
            invariant
                self.removed_ids@ == old(self).removed(),
                pos <= self.removed_ids@.len(),
                key == id.spec_index(),
                forall|j: int|
                    pos <= j < self.removed_ids@.len() ==> (#[trigger] self.removed_ids@[j]).spec_index()
                        > key,
            decreases pos,
        {
            pos = pos - 1;
        }
        proof {
            lemma_insert_by_instance_index(old(self).removed(), id, pos as int);
        }
        self.removed_ids.insert(pos, id);
        proof {
            let rm = old(self).removed();
            let nr = self.removed();
            let p = pos as int;
            assert(nr == rm.insert(p, id));
            assert forall|i: int, j: int| 0 <= i <= j < nr.len() implies #[trigger] nr[i].spec_index()
                <= #[trigger] nr[j].spec_index() by {
                if j < p {
                    assert(nr[i] == rm[i] && nr[j] == rm[j]);
                } else if j == p {
                    if i < p {
                        assert(nr[i] == rm[i]);
                        assert(rm[i].spec_index() <= rm[p - 1].spec_index());
                    }
                } else {
                    assert(nr[j] == rm[j - 1]);
                    if i < p {
                        assert(nr[i] == rm[i]);
                    } else if i > p {
                        assert(nr[i] == rm[i - 1]);
                    }
                }
            }
        }
    }
}


/// Instances appended one after another; only `clear` frees them. The
/// identifiers are made by a factory set with `create_buffer`.
pub struct BumpInstances<ID, T, F> {
    buffer_data: Vec<T>,
    has_gpu_buffer: bool,
    ids: Vec<ID>,
    max_index: usize,
    id_factory: Option<F>,
    gpu_capacity: usize,
    buffer_resized: bool,
}

impl<ID: InstanceId + Copy + PartialEq, T: Default + Clone, F: Fn(usize, &T) -> ID> BumpInstances<
    ID,
    T,
    F,
> {
    /// Every stored element.
    pub closed spec fn storage(&self) -> Seq<T> {
        self.buffer_data@
    }

    /// The identifiers in use, in insertion order.
    pub closed spec fn active(&self) -> Seq<ID> {
        self.ids@
    }

    /// The number of slots handed out.
    pub closed spec fn max_index(&self) -> nat {
        self.max_index as nat
    }

    pub closed spec fn has_gpu_buffer(&self) -> bool {
        self.has_gpu_buffer
    }

    pub closed spec fn gpu_capacity(&self) -> nat {
        self.gpu_capacity as nat
    }

    pub closed spec fn resized(&self) -> bool {
        self.buffer_resized
    }

    /// The identifier factory.
    pub closed spec fn factory(&self) -> Option<F> {
        self.id_factory
    }

    /// The factory accepts slot `index` and `data`.
    pub open spec fn factory_accepts(&self, index: usize, data: &T) -> bool {
        self.factory() is Some && call_requires(self.factory()->0, (index, data))
    }

    /// The factory may return `id` for slot `index` and `data`.
    pub open spec fn factory_made(&self, index: usize, data: &T, id: ID) -> bool {
        self.factory() is Some && call_ensures(self.factory()->0, (index, data), id)
    }

    pub open spec fn wf(&self) -> bool {
        &&& self.max_index() <= self.storage().len()
        &&& self.gpu_capacity() <= self.storage().len()
    }

    /// The next `insert` can proceed.
    pub open spec fn can_insert(&self, data: &T) -> bool {
        &&& self.factory_accepts(self.max_index() as usize, data)
        &&& {
            ||| self.max_index() < self.storage().len()
            ||| (self.storage().len() > 0 && self.storage().len() * 2 <= usize::MAX)
        }
    }

    pub fn new(capacity: usize) -> (b: Self)
        ensures
            b.wf(),
            b.storage().len() == capacity,
            b.active() == Seq::<ID>::empty(),
            b.max_index() == 0,
            b.factory() == None::<F>,
            !b.has_gpu_buffer(),
            b.gpu_capacity() == 0,
            !b.resized(),
            default_filled(b.storage(), 0, capacity as int),
    {
        let fill = T::default();
        proof {
            assert(made_by_default(fill));
        }
        BumpInstances {
            buffer_data: vec![fill; capacity],
            has_gpu_buffer: false,
            ids: Vec::with_capacity(capacity),
            max_index: 0,
            id_factory: None,
            gpu_capacity: 0,
            buffer_resized: false,
        }
    }

    /// Records that the GPU buffer was created from the whole storage and
    /// sets the identifier factory.
    pub fn create_buffer(&mut self, id_factory: F)
        requires
            old(self).wf(),
            !old(self).has_gpu_buffer(),
        ensures
            final(self).wf(),
            final(self).has_gpu_buffer(),
            final(self).factory() == Some(id_factory),
            forall|i: usize, d: &T| #[trigger] final(self).factory_accepts(i, d) <==> call_requires(id_factory, (i, d)),
            forall|i: usize, d: &T, id: ID| #[trigger] final(self).factory_made(i, d, id) <==> call_ensures(id_factory, (i, d), id),
            final(self).gpu_capacity() == old(self).storage().len(),
            final(self).storage() == old(self).storage(),
            final(self).active() == old(self).active(),
            final(self).max_index() == old(self).max_index(),
            final(self).resized() == old(self).resized(),
    {
        self.id_factory = Some(id_factory);
        self.has_gpu_buffer = true;
        self.gpu_capacity = self.buffer_data.len();
    }

    /// One past the highest slot index handed out since the last clear.
    pub fn high_water_mark(&self) -> (n: usize)
        ensures
            n == self.max_index(),
    {
        self.max_index
    }

    /// Whether the GPU buffer was recreated since the last
    /// `take_buffer_resized`.
    pub fn is_buffer_resized(&self) -> (b: bool)
        ensures
            b == self.resized(),
    {
        self.buffer_resized
    }

    /// The number of instances.
    pub fn len(&self) -> (n: usize)
        ensures
            n == self.active().len(),
    {
        self.ids.len()
    }

    pub fn is_empty(&self) -> (b: bool)
        ensures
            b == (self.active().len() == 0),
    {
        self.ids.len() == 0
    }

    /// Appends `data` in the next slot (doubling the storage when it is
    /// full); returns the identifier the factory makes for that slot.
    pub fn insert(&mut self, data: T) -> (id: ID)
        requires
            old(self).wf(),
            old(self).can_insert(&data),
        ensures
            final(self).wf(),
            old(self).factory_made(old(self).max_index() as usize, &data, id),
            final(self).active() == old(self).active().push(id),
            final(self).max_index() == old(self).max_index() + 1,
            final(self).storage()[old(self).max_index() as int] == data,
            stored_after_append(
                old(self).storage(),
                old(self).max_index() as int,
                data,
                final(self).storage(),
            ),
            final(self).factory() == old(self).factory(),
            final(self).has_gpu_buffer() == old(self).has_gpu_buffer(),
            final(self).gpu_capacity() == old(self).gpu_capacity(),
            final(self).resized() == old(self).resized(),
    {
        let index = self.max_index;
        let n = self.buffer_data.len();
        self.max_index = index + 1;
        if index >= n {
            let fill = T::default();
            proof {
                assert(made_by_default(fill));
            }
            self.buffer_data.resize(n * 2, fill);
        }
        let f = self.id_factory.as_ref().unwrap();
        let id = f(index, &data);
        self.buffer_data.set(index, data);
        self.ids.push(id);
        proof {
            if old(self).max_index() < old(self).storage().len() {
                assert(self.storage() =~= old(self).storage().update(index as int, data));
            } else {
                assert(self.storage().subrange(0, old(self).storage().len() as int) =~= old(
                    self,
                ).storage());
            }
        }
        id
    }

    /// Replaces the stored instance of `id`, which must be in use.
    pub fn update_instance(&mut self, id: ID, data: T)
        requires
            old(self).wf(),
            ID::obeys_eq_spec(),
            has_match(old(self).active(), id),
            id.spec_index() < old(self).storage().len(),
        ensures
            final(self).wf(),
            final(self).storage() == old(self).storage().update(id.spec_index() as int, data),
            final(self).active() == old(self).active(),
            final(self).max_index() == old(self).max_index(),
            final(self).factory() == old(self).factory(),
            final(self).has_gpu_buffer() == old(self).has_gpu_buffer(),
            final(self).gpu_capacity() == old(self).gpu_capacity(),
            final(self).resized() == old(self).resized(),
    {
        let index = id.index();
        self.buffer_data.set(index, data);
    }

    /// Removes every instance; the storage stays.
    pub fn clear(&mut self)
        requires
            old(self).wf(),
        ensures
            final(self).wf(),
            final(self).active() == Seq::<ID>::empty(),
            final(self).max_index() == 0,
            final(self).storage() == old(self).storage(),
            final(self).factory() == old(self).factory(),
            final(self).has_gpu_buffer() == old(self).has_gpu_buffer(),
            final(self).gpu_capacity() == old(self).gpu_capacity(),
            final(self).resized() == old(self).resized(),
    {
        self.max_index = 0;
        self.ids.clear();
    }

    /// Records that the GPU buffer was recreated from the whole storage.
    fn recreate_gpu_buffer(&mut self) -> (capacity: usize)
        requires
            old(self).wf(),
        ensures
            final(self).wf(),
            capacity == old(self).storage().len(),
            final(self).has_gpu_buffer(),
            final(self).gpu_capacity() == old(self).storage().len(),
            final(self).resized(),
            final(self).storage() == old(self).storage(),
            final(self).active() == old(self).active(),
            final(self).max_index() == old(self).max_index(),
            final(self).factory() == old(self).factory(),
    {
        self.has_gpu_buffer = true;
        self.gpu_capacity = self.buffer_data.len();
        self.buffer_resized = true;
        self.gpu_capacity
    }

    /// How to bring the instance of `id` to the GPU: when the buffer is too
    /// small, recreate it and write every occupied slot; otherwise write the
    /// slot of `id` alone. The queue is submitted when the schedule says
    /// `Immediately`.
    pub fn load_instance_to_gpu(&mut self, schedule: LoadToGPUSchedule, id: ID) -> (plan: LoadPlan)
        requires
            old(self).wf(),
            old(self).max_index() > old(self).gpu_capacity() || {
                &&& old(self).has_gpu_buffer()
                &&& id.spec_index() < old(self).max_index()
            },
        ensures
            final(self).factory() == old(self).factory(),
            final(self).wf(),
            final(self).storage() == old(self).storage(),
            final(self).active() == old(self).active(),
            final(self).max_index() == old(self).max_index(),
            final(self).has_gpu_buffer(),
            plan.submit == (schedule == LoadToGPUSchedule::Immediately),
            old(self).max_index() > old(self).gpu_capacity() ==> {
                &&& plan.recreate == Some(old(self).storage().len() as usize)
                &&& plan.write_start == 0
                &&& plan.write_end == old(self).max_index()
                &&& final(self).gpu_capacity() == old(self).storage().len()
                &&& final(self).resized()
            },
            old(self).max_index() <= old(self).gpu_capacity() ==> {
                &&& plan.recreate == None::<usize>
                &&& plan.write_start == id.spec_index()
                &&& plan.write_end == id.spec_index() + 1
                &&& final(self).gpu_capacity() == old(self).gpu_capacity()
                &&& final(self).resized() == old(self).resized()
            },
    {
        let submit = schedule == LoadToGPUSchedule::Immediately;
        if self.max_index > self.gpu_capacity {
            let capacity = self.recreate_gpu_buffer();
            return LoadPlan {
                recreate: Some(capacity),
                write_start: 0,
                write_end: self.max_index,
                submit,
            };
        }
        let index = id.index();
        LoadPlan { recreate: None, write_start: index, write_end: index + 1, submit }
    }

    /// How to bring every occupied slot to the GPU: recreate the buffer first
    /// when it is too small; the queue is submitted when the schedule says
    /// `Immediately`.
    pub fn load_all_instances_to_gpu(&mut self, schedule: LoadToGPUSchedule) -> (plan: LoadPlan)
        requires
            old(self).wf(),
            old(self).max_index() > old(self).gpu_capacity() || old(self).has_gpu_buffer(),
        ensures
            final(self).factory() == old(self).factory(),
            final(self).wf(),
            final(self).storage() == old(self).storage(),
            final(self).active() == old(self).active(),
            final(self).max_index() == old(self).max_index(),
            final(self).has_gpu_buffer(),
            plan.submit == (schedule == LoadToGPUSchedule::Immediately),
            plan.write_start == 0,
            plan.write_end == old(self).max_index(),
            old(self).max_index() > old(self).gpu_capacity() ==> {
                &&& plan.recreate == Some(old(self).storage().len() as usize)
                &&& final(self).gpu_capacity() == old(self).storage().len()
                &&& final(self).resized()
            },
            old(self).max_index() <= old(self).gpu_capacity() ==> {
                &&& plan.recreate == None::<usize>
                &&& final(self).gpu_capacity() == old(self).gpu_capacity()
                &&& final(self).resized() == old(self).resized()
            },
    {
        let submit = schedule == LoadToGPUSchedule::Immediately;
        let recreate = if self.max_index > self.gpu_capacity {
            Some(self.recreate_gpu_buffer())
        } else {
            None
        };
        LoadPlan { recreate, write_start: 0, write_end: self.max_index, submit }
    }

    /// Whether the GPU buffer was recreated since the last call, and resets it.
    pub fn take_buffer_resized(&mut self) -> (was: bool)
        ensures
            final(self).factory() == old(self).factory(),
            was == old(self).resized(),
            !final(self).resized(),
            final(self).storage() == old(self).storage(),
            final(self).active() == old(self).active(),
            final(self).max_index() == old(self).max_index(),
            final(self).has_gpu_buffer() == old(self).has_gpu_buffer(),
            final(self).gpu_capacity() == old(self).gpu_capacity(),
            old(self).wf() ==> final(self).wf(),
    {
        let was = self.buffer_resized;
        self.buffer_resized = false;
        was
    }

    /// One range over every instance, if there is any.
    pub fn ranges_iter(&self) -> (it: InstancesRangesIter<ID>)
        ensures
            it.wf(),
            it.removed() == Seq::<int>::empty(),
            it.cursor() == 0,
            it.slot_count() == self.max_index(),
            it.last_index() == 0,
    {
        let it = InstancesRangesIter {
            removed_ids: Vec::new(),
            current_id_index: 0,
            len: self.max_index,
            last_index: 0,
        };
        proof {
            assert(it.removed() =~= Seq::<int>::empty());
        }
        it
    }

    /// Whether some identifier in use equals `id`.
    pub fn contains(&self, id: ID) -> (b: bool)
        ensures
            ID::obeys_eq_spec() ==> b == has_match(self.active(), id),
    {
        let mut k: usize = 0;
        while k < self.ids.len()
            invariant
                k <= self.ids@.len(),
                ID::obeys_eq_spec() ==> forall|j: int|
                    0 <= j < k ==> !(#[trigger] self.ids@[j]).eq_spec(&id),
            decreases self.ids@.len() - k,
        {
            let cur = self.ids[k];
            if cur == id {
                return true;
            }
            k = k + 1;
        }
        false
    }

    /// The identifiers in use, in insertion order.
    pub fn ids(&self) -> (out: &[ID])
        ensures
            out@ == self.active(),
    {
        self.ids.as_slice()
    }

    /// The stored elements of the slots handed out.
    pub fn occupied_buffer(&self) -> (out: &[T])
        requires
            self.wf(),
        ensures
            out@ == self.storage().subrange(0, self.max_index() as int),
    {
        slice_subrange(self.buffer_data.as_slice(), 0, self.max_index)
    }

    /// Every stored element.
    pub fn full_buffer_data(&self) -> (out: &[T])
        ensures
            out@ == self.storage(),
    {
        self.buffer_data.as_slice()
    }

    /// The one-element slice holding the instance of `id`, whose slot must
    /// have been handed out.
    pub fn instance_buffer(&self, id: ID) -> (out: &[T])
        requires
            self.wf(),
            id.spec_index() < self.max_index(),
        ensures
            out@ == seq![self.storage()[id.spec_index() as int]],
    {
        let idx = id.index();
        let out = slice_subrange(self.buffer_data.as_slice(), idx, idx + 1);
        proof {
            assert(out@ =~= seq![self.storage()[id.spec_index() as int]]);
        }
        out
    }
}

} // verus!
