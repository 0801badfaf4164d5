use vstd::prelude::*;
use vstd::std_specs::cmp::PartialEqSpec;
use vstd::slice::slice_subrange;

verus! {

/// An identifier of a slot in a GPU-backed buffer: it is built from a slot
/// index and gives that index back.
pub trait SlotId: Sized {
    /// The slot index this identifier designates.
    spec fn spec_index(&self) -> usize;

    /// The identifier that `from_index(index)` builds.
    spec fn spec_from_index(index: usize) -> Self;

    fn from_index(index: usize) -> (id: Self)
        ensures
            id == Self::spec_from_index(index),
    ;

    fn index(&self) -> (index: usize)
        ensures
            index == self.spec_index(),
    ;
}

/// `d` is a value that `T::default()` can return.
pub open spec fn made_by_default<T: Default>(d: T) -> bool {
    call_ensures(T::default, (), d)
}

/// Every element of `s` from position `start` up to position `end` is a
/// clone of one value that `T::default()` returned.
pub open spec fn default_filled<T: Default + Clone>(s: Seq<T>, start: int, end: int) -> bool {
    exists|d: T|
        made_by_default(d) && forall|i: int| start <= i < end ==> cloned::<T>(d, #[trigger] s[i])
}

/// `after` is the storage `before` once `data` is stored at `index`, at most
/// its length: a full storage first doubles, its new places filled with
/// clones of a default value.
pub open spec fn stored_after_append<T: Default + Clone>(
    before: Seq<T>,
    index: int,
    data: T,
    after: Seq<T>,
) -> bool {
    if index < before.len() {
        after == before.update(index, data)
    } else {
        &&& after.len() == before.len() * 2
        &&& after.subrange(0, before.len() as int) == before
        &&& after[index] == data
        &&& default_filled(after, before.len() + 1int, after.len() as int)
    }
}

/// `==` on the identifier type is decided by the slot index alone.
pub open spec fn eq_by_index<ID: SlotId + PartialEq>() -> bool {
    &&& ID::obeys_eq_spec()
    &&& forall|a: ID, b: ID| #[trigger] a.eq_spec(&b) <==> a.spec_index() == b.spec_index()
}

/// Building an identifier from `index` gives an identifier of slot `index`.
pub open spec fn round_trips<ID: SlotId>(index: usize) -> bool {
    ID::spec_from_index(index).spec_index() == index
}

/// What the owner of a `GpuVec` must do to the GPU buffer before it can hold
/// every element.
#[derive(Clone, Copy, Debug, PartialEq, Eq, Structural)]
pub enum CapacityPlan {
    /// The GPU buffer exists and is large enough: nothing to do.
    Keep,
    /// Create a new GPU buffer of `capacity` elements. Where `flush_old` is
    /// `Some(n)`, first write the first `n` stored elements to the buffer that
    /// is being replaced.
    Recreate { flush_old: Option<usize>, capacity: usize },
}

/// What the owner of a `GpuVec` must do to bring the GPU buffer up to date.
#[derive(Clone, Copy, Debug, PartialEq, Eq, Structural)]
pub struct FlushPlan {
    /// The buffer (re)creation to perform first.
    pub capacity: CapacityPlan,
    /// Where `Some(n)`, write the first `n` elements to the GPU buffer.
    pub upload: Option<usize>,
}

/// A growable array mirrored into a GPU buffer. This type holds the CPU side
/// and the bookkeeping; the buffer itself is created and written by its owner
/// following the plans that `ensure_capacity` and `flush` return.
pub struct GpuVec<T> {
    data: Vec<T>,
    has_gpu_buffer: bool,
    gpu_buffer_len: usize,
    gpu_buffer_capacity: usize,
    buffer_resized: bool,
    dirty: bool,
}

impl<T> View for GpuVec<T> {
    type V = Seq<T>;

    /// The active elements.
    closed spec fn view(&self) -> Seq<T> {
        self.data@.subrange(0, self.gpu_buffer_len as int)
    }
}

impl<T: Default + Clone> GpuVec<T> {
    pub closed spec fn wf(&self) -> bool {
        &&& self.gpu_buffer_len <= self.data@.len()
        &&& self.gpu_buffer_capacity <= self.data@.len()
    }

    /// Every stored element, active or not.
    pub closed spec fn storage(&self) -> Seq<T> {
        self.data@
    }

    /// The number of elements the CPU storage can hold.
    pub open spec fn capacity(&self) -> nat {
        self.storage().len()
    }

    pub closed spec fn spec_len(&self) -> nat {
        self.gpu_buffer_len as nat
    }

    pub closed spec fn has_gpu_buffer(&self) -> bool {
        self.has_gpu_buffer
    }

    /// The number of elements the GPU buffer holds.
    pub closed spec fn gpu_capacity(&self) -> nat {
        self.gpu_buffer_capacity as nat
    }

    pub closed spec fn resized(&self) -> bool {
        self.buffer_resized
    }

    pub closed spec fn dirty(&self) -> bool {
        self.dirty
    }

    /// Whether `push` can make room for one more element.
    pub open spec fn can_push(&self) -> bool {
        ||| self.spec_len() < self.capacity()
        ||| (self.capacity() > 0 && self.capacity() * 2 <= usize::MAX)
    }

    /// The storage size after one `push`.
    pub open spec fn capacity_after_push(&self) -> nat {
        if self.spec_len() < self.capacity() {
            self.capacity()
        } else {
            self.capacity() * 2
        }
    }

    /// `after` is the storage once `data` is pushed to the first free place.
    pub open spec fn push_storage(&self, data: T, after: Seq<T>) -> bool {
        stored_after_append(self.storage(), self.spec_len() as int, data, after)
    }

    pub proof fn lemma_view(&self)
        requires
            self.wf(),
        ensures
            self@.len() == self.spec_len(),
            self.spec_len() <= self.capacity(),
            self.spec_len() <= usize::MAX,
            self.gpu_capacity() <= self.capacity(),
            forall|i: int| 0 <= i < self.spec_len() ==> #[trigger] self@[i] == self.storage()[i],
    {
    }

    /// A vector with storage for `capacity` default elements, no active
    /// element and no GPU buffer yet.
    pub fn new(capacity: usize) -> (v: Self)
        ensures
            v.wf(),
            v@ == Seq::<T>::empty(),
            v.spec_len() == 0,
            v.capacity() == capacity,
            default_filled(v.storage(), 0, capacity as int),
            !v.has_gpu_buffer(),
            v.gpu_capacity() == 0,
            !v.resized(),
            !v.dirty(),
    {
        let fill = T::default();
        proof {
            assert(made_by_default(fill));
        }
        GpuVec {
            data: vec![fill; capacity],
            has_gpu_buffer: false,
            gpu_buffer_len: 0,
            gpu_buffer_capacity: 0,
            buffer_resized: false,
            dirty: false,
        }
    }

    /// The active elements.
    pub fn data(&self) -> (out: &[T])
        requires
            self.wf(),
        ensures
            out@ == self@,
    {
        slice_subrange(self.data.as_slice(), 0, self.gpu_buffer_len)
    }

    /// Every stored element, including those beyond the active ones.
    pub fn raw_data(&self) -> (out: &[T])
        ensures
            out@ == self.storage(),
    {
        self.data.as_slice()
    }

    /// Whether the GPU buffer was recreated since the last call, and resets it.
    pub fn take_buffer_resized(&mut self) -> (was: bool)
        ensures
            was == old(self).resized(),
            !final(self).resized(),
            final(self)@ == old(self)@,
            final(self).storage() == old(self).storage(),
            final(self).spec_len() == old(self).spec_len(),
            final(self).has_gpu_buffer() == old(self).has_gpu_buffer(),
            final(self).gpu_capacity() == old(self).gpu_capacity(),
            final(self).dirty() == old(self).dirty(),
            old(self).wf() ==> final(self).wf(),
    {
        let was = self.buffer_resized;
        self.buffer_resized = false;
        was
    }

    pub fn len(&self) -> (n: usize)
        ensures
            n == self.spec_len(),
    {
        self.gpu_buffer_len
    }

    pub fn is_empty(&self) -> (b: bool)
        ensures
            b == (self.spec_len() == 0),
    {
        self.gpu_buffer_len == 0
    }

    /// Whether `push` can make room for one more element.
    pub fn push_fits(&self) -> (b: bool)
        ensures
            b == self.can_push(),
    {
        let cap = self.data.len();
        self.gpu_buffer_len < cap || (cap > 0 && cap <= usize::MAX / 2)
    }

    /// Appends `data`, doubling the storage when it is full.
    pub fn push(&mut self, data: T)
        requires
            old(self).wf(),
            old(self).can_push(),
        ensures
            final(self).wf(),
            final(self)@ == old(self)@.push(data),
            final(self).capacity() == old(self).capacity_after_push(),
            old(self).push_storage(data, final(self).storage()),
            final(self).dirty(),
            final(self).has_gpu_buffer() == old(self).has_gpu_buffer(),
            final(self).gpu_capacity() == old(self).gpu_capacity(),
            final(self).resized() == old(self).resized(),
    {
        let index = self.gpu_buffer_len;
        if index >= self.data.len() {
            let n = self.data.len();
            let fill = T::default();
            proof {
                assert(made_by_default(fill));
            }
            self.data.resize(n * 2, fill);
        }
        self.gpu_buffer_len = index + 1;
        self.data.set(index, data);
        self.dirty = true;
        proof {
            assert(self@ =~= old(self)@.push(data));
            if old(self).spec_len() < old(self).capacity() {
                assert(self.storage() =~= old(self).storage().update(index as int, data));
            } else {
                assert(self.storage().subrange(0, old(self).capacity() as int) =~= old(self).storage());
            }
        }
    }

    /// Replaces the active element at `index`.
    pub fn update(&mut self, index: usize, data: T)
        requires
            old(self).wf(),
            index < old(self).spec_len(),
        ensures
            final(self).wf(),
            final(self)@ == old(self)@.update(index as int, data),
            final(self).storage() == old(self).storage().update(index as int, data),
            final(self).spec_len() == old(self).spec_len(),
            final(self).dirty(),
            final(self).has_gpu_buffer() == old(self).has_gpu_buffer(),
            final(self).gpu_capacity() == old(self).gpu_capacity(),
            final(self).resized() == old(self).resized(),
    {
        self.data.set(index, data);
        self.dirty = true;
        proof {
            assert(self@ =~= old(self)@.update(index as int, data));
        }
    }

    /// Drops every active element; the storage and the GPU buffer stay.
    pub fn clear(&mut self)
        requires
            old(self).wf(),
        ensures
            final(self).wf(),
            final(self)@ == Seq::<T>::empty(),
            final(self).storage() == old(self).storage(),
            final(self).dirty() == old(self).dirty(),
            final(self).has_gpu_buffer() == old(self).has_gpu_buffer(),
            final(self).gpu_capacity() == old(self).gpu_capacity(),
            final(self).resized() == old(self).resized(),
    {
        self.gpu_buffer_len = 0;
        proof {
            assert(self@ =~= Seq::<T>::empty());
        }
    }

    /// The GPU buffer is missing or too small for the active elements.
    pub open spec fn needs_new_buffer(&self) -> bool {
        !(self.has_gpu_buffer() && self.spec_len() <= self.gpu_capacity())
    }

    /// What `ensure_capacity` asks of the owner.
    pub open spec fn capacity_plan(&self) -> CapacityPlan {
        if self.needs_new_buffer() {
            CapacityPlan::Recreate {
                flush_old: if self.has_gpu_buffer() {
                    Some(self.gpu_capacity() as usize)
                } else {
                    None
                },
                capacity: self.capacity() as usize,
            }
        } else {
            CapacityPlan::Keep
        }
    }

    /// What `flush` asks of the owner.
    pub open spec fn flush_plan(&self) -> FlushPlan {
        FlushPlan {
            capacity: self.capacity_plan(),
            upload: if self.dirty() || self.needs_new_buffer() {
                Some(self.spec_len() as usize)
            } else {
                None
            },
        }
    }

    /// What `flush` asks of the owner right after a `push`.
    pub open spec fn plan_after_push(&self) -> FlushPlan {
        let needs_new = !(self.has_gpu_buffer() && self.spec_len() + 1 <= self.gpu_capacity());
        FlushPlan {
            capacity: if needs_new {
                CapacityPlan::Recreate {
                    flush_old: if self.has_gpu_buffer() {
                        Some(self.gpu_capacity() as usize)
                    } else {
                        None
                    },
                    capacity: self.capacity_after_push() as usize,
                }
            } else {
                CapacityPlan::Keep
            },
            upload: Some((self.spec_len() + 1) as usize),
        }
    }

    /// Same active elements and same storage.
    pub open spec fn same_contents(&self, other: Self) -> bool {
        &&& self@ == other@
        &&& self.storage() == other.storage()
        &&& self.spec_len() == other.spec_len()
    }

    /// Decides whether the GPU buffer must be (re)created so that it holds
    /// every active element. On recreation the whole storage gets a buffer,
    /// the old buffer (if any) first receives the elements it had room for,
    /// and the vector is marked resized and dirty.
    pub fn ensure_capacity(&mut self) -> (plan: CapacityPlan)
        requires
            old(self).wf(),
        ensures
            final(self).wf(),
            plan == old(self).capacity_plan(),
            old(self).needs_new_buffer() ==> plan == (CapacityPlan::Recreate {
                flush_old: if old(self).has_gpu_buffer() {
                    Some(old(self).gpu_capacity() as usize)
                } else {
                    None
                },
                capacity: old(self).capacity() as usize,
            }),
            !old(self).needs_new_buffer() ==> plan == CapacityPlan::Keep,
            final(self).same_contents(*old(self)),
            final(self).has_gpu_buffer(),
            final(self).spec_len() <= final(self).gpu_capacity(),
            final(self).gpu_capacity() == if old(self).needs_new_buffer() {
                old(self).capacity()
            } else {
                old(self).gpu_capacity()
            },
            final(self).resized() == (old(self).resized() || old(self).needs_new_buffer()),
            final(self).dirty() == (old(self).dirty() || old(self).needs_new_buffer()),
    {
        if !self.has_gpu_buffer || self.gpu_buffer_len > self.gpu_buffer_capacity {
            let flush_old = if self.has_gpu_buffer {
                Some(self.gpu_buffer_capacity)
            } else {
                None
            };
            let capacity = self.data.len();
            self.has_gpu_buffer = true;
            self.gpu_buffer_capacity = capacity;
            self.buffer_resized = true;
            self.dirty = true;
            CapacityPlan::Recreate { flush_old, capacity }
        } else {
            CapacityPlan::Keep
        }
    }

    /// Decides how to bring the GPU buffer up to date: first what
    /// `ensure_capacity` decides, then, if anything changed since the last
    /// upload, an upload of every active element. Afterwards nothing is dirty.
    pub fn flush(&mut self) -> (plan: FlushPlan)
        requires
            old(self).wf(),
        ensures
            final(self).wf(),
            plan == old(self).flush_plan(),
            final(self).same_contents(*old(self)),
            final(self).has_gpu_buffer(),
            final(self).spec_len() <= final(self).gpu_capacity(),
            final(self).gpu_capacity() == if old(self).needs_new_buffer() {
                old(self).capacity()
            } else {
                old(self).gpu_capacity()
            },
            final(self).resized() == (old(self).resized() || old(self).needs_new_buffer()),
            !final(self).dirty(),
    {
        let capacity = self.ensure_capacity();
        if !self.dirty {
            return FlushPlan { capacity, upload: None };
        }
        self.dirty = false;
        FlushPlan { capacity, upload: Some(self.gpu_buffer_len) }
    }
}

/// The old GPU buffer, if any, is given the elements it has room for before
/// it is replaced: `plan` flushes it with `gpu_capacity` elements exactly
/// when a GPU buffer exists.
pub open spec fn flushes_existing_buffer<T: Default + Clone>(v: GpuVec<T>, plan: CapacityPlan) -> bool {
    plan matches CapacityPlan::Recreate { flush_old, .. } ==> {
        &&& (flush_old is Some <==> v.has_gpu_buffer())
        &&& flush_old is Some ==> flush_old->0 == v.gpu_capacity()
    }
}

impl<T: Default + Clone> GpuVec<T> {
    /// Law: whenever a plan recreates the GPU buffer, an existing buffer is
    /// first given the elements it holds room for, and no buffer that does
    /// not exist is written; this holds of the plan of `ensure_capacity`, of
    /// `flush` and of the one `flush` makes right after a `push`.
    pub proof fn law_recreate_flushes_existing_buffer(v: GpuVec<T>)
        ensures
            flushes_existing_buffer(v, v.capacity_plan()),
            flushes_existing_buffer(v, v.flush_plan().capacity),
            flushes_existing_buffer(v, v.plan_after_push().capacity),
    {
    }

    /// Law: a flush writes every active element when something changed since
    /// the last flush or the buffer is recreated, and writes nothing when the
    /// GPU buffer is kept and already up to date.
    pub proof fn law_flush_uploads_what_changed(v: GpuVec<T>)
        ensures
            v.dirty() || v.capacity_plan() is Recreate ==> v.flush_plan().upload == Some(
                v.spec_len() as usize,
            ),
            !v.dirty() && v.capacity_plan() is Keep ==> v.flush_plan().upload is None,
            v.flush_plan().capacity == v.capacity_plan(),
    {
    }

    /// Law: the plans do not depend on the resized flag: two vectors that
    /// differ in nothing else get the same plans.
    pub proof fn law_plans_ignore_resized(v: GpuVec<T>, w: GpuVec<T>)
        requires
            v@ == w@,
            v.storage() == w.storage(),
            v.spec_len() == w.spec_len(),
            v.has_gpu_buffer() == w.has_gpu_buffer(),
            v.gpu_capacity() == w.gpu_capacity(),
            v.dirty() == w.dirty(),
        ensures
            v.capacity_plan() == w.capacity_plan(),
            v.flush_plan() == w.flush_plan(),
            v.plan_after_push() == w.plan_after_push(),
    {
    }

    /// Law: the plan announced for the `flush` after a `push` is the plan
    /// that `flush` makes of the vector the push leaves.
    pub proof fn law_plan_after_push_is_next_flush(v: GpuVec<T>, w: GpuVec<T>)
        requires
            w.spec_len() == v.spec_len() + 1,
            w.capacity() == v.capacity_after_push(),
            w.has_gpu_buffer() == v.has_gpu_buffer(),
            w.gpu_capacity() == v.gpu_capacity(),
            w.dirty(),
        ensures
            w.flush_plan() == v.plan_after_push(),
    {
    }
}



/// Law: a flush leaves nothing to do. In the state that `flush` ensures (a
/// GPU buffer that holds every active element, nothing dirty), the next
/// flush keeps the buffer and uploads nothing.
pub proof fn law_flush_is_idempotent<T: Default + Clone>(v: GpuVec<T>)
    requires
        v.has_gpu_buffer(),
        v.spec_len() <= v.gpu_capacity(),
        !v.dirty(),
    ensures
        v.flush_plan() == (FlushPlan { capacity: CapacityPlan::Keep, upload: None }),
{
}

/// The slot indices of `ids`, in order.
pub open spec fn indices_of<ID: SlotId>(ids: Seq<ID>) -> Seq<int> {
    ids.map_values(|id: ID| id.spec_index() as int)
}

/// The identifiers are in non-decreasing order of slot index.
pub open spec fn sorted_by_index<ID: SlotId>(ids: Seq<ID>) -> bool {
    forall|i: int, j: int|
        0 <= i <= j < ids.len() ==> #[trigger] ids[i].spec_index() <= #[trigger] ids[j].spec_index()
}

/// `ids` with `id` added after every identifier whose slot index is not
/// greater than its own: what a stable sort by index makes of `ids` sorted
/// and `id` pushed at the end.
pub open spec fn insert_by_index<ID: SlotId>(ids: Seq<ID>, id: ID) -> Seq<ID>
    decreases ids.len(),
{
    if ids.len() == 0 || ids.last().spec_index() <= id.spec_index() {
        ids.push(id)
    } else {
        insert_by_index(ids.drop_last(), id).push(ids.last())
    }
}

/// `k` is the first position of `ids` that compares equal to `id`.
pub open spec fn is_first_match<ID: PartialEq>(ids: Seq<ID>, id: ID, k: int) -> bool {
    &&& 0 <= k < ids.len()
    &&& ids[k].eq_spec(&id)
    &&& forall|j: int| 0 <= j < k ==> !(#[trigger] ids[j]).eq_spec(&id)
}

/// Some position of `ids` compares equal to `id`.
pub open spec fn has_match<ID: PartialEq>(ids: Seq<ID>, id: ID) -> bool {
    exists|k: int| 0 <= k < ids.len() && (#[trigger] ids[k]).eq_spec(&id)
}

/// The first position of `ids` that compares equal to `id`.
pub open spec fn first_match<ID: PartialEq>(ids: Seq<ID>, id: ID) -> int {
    choose|k: int| is_first_match(ids, id, k)
}

/// Every slot below `len` is designated by exactly one identifier of `ids`,
/// and `ids` designates no other slot.
pub open spec fn partitions<ID: SlotId>(ids: Seq<ID>, len: nat) -> bool {
    &&& ids.len() == len
    &&& forall|i: int| 0 <= i < ids.len() ==> 0 <= #[trigger] ids[i].spec_index() < len
    &&& forall|u: int| 0 <= u < len ==> #[trigger] designates(ids, u)
    &&& forall|i: int, j: int|
        0 <= i < j < ids.len() ==> (#[trigger] ids[i]).spec_index() != (#[trigger] ids[j]).spec_index()
}

/// Some identifier of `ids` designates slot `u`.
pub open spec fn designates<ID: SlotId>(ids: Seq<ID>, u: int) -> bool {
    exists|i: int| 0 <= i < ids.len() && #[trigger] ids[i].spec_index() == u
}

pub proof fn lemma_first_match<ID: PartialEq>(ids: Seq<ID>, id: ID, k: int)
    requires
        is_first_match(ids, id, k),
    ensures
        first_match(ids, id) == k,
{
    let c = first_match(ids, id);
    assert(is_first_match(ids, id, c));
    if c < k {
        assert(!ids[c].eq_spec(&id));
    } else if c > k {
        assert(!ids[k].eq_spec(&id));
    }
}

pub proof fn lemma_first_match_exists<ID: PartialEq>(ids: Seq<ID>, id: ID)
    requires
        has_match(ids, id),
    ensures
        is_first_match(ids, id, first_match(ids, id)),
    decreases ids.len(),
{
    if ids[0].eq_spec(&id) {
        assert(is_first_match(ids, id, 0));
    } else {
        let t = ids.drop_first();
        let w = choose|w: int| 0 <= w < ids.len() && (#[trigger] ids[w]).eq_spec(&id);
        assert(t[w - 1] == ids[w]);
        lemma_first_match_exists(t, id);
        let k = first_match(t, id);
        assert forall|j: int| 0 <= j < k + 1 implies !(#[trigger] ids[j]).eq_spec(&id) by {
            if j > 0 {
                assert(ids[j] == t[j - 1]);
            }
        }
        assert(ids[k + 1] == t[k]);
        assert(is_first_match(ids, id, k + 1));
    }
}

/// Inserting at the position found by scanning from the back gives
/// `insert_by_index`.
/// Law: a removed identifier joins the free list in its place by slot index:
/// the list stays sorted and holds exactly the identifiers it held before and
/// the removed one.
pub proof fn law_removed_id_joins_free_list<ID: SlotId>(free: Seq<ID>, id: ID)
    requires
        sorted_by_index(free),
    ensures
        sorted_by_index(insert_by_index(free, id)),
        insert_by_index(free, id).to_multiset() == free.to_multiset().insert(id),
        insert_by_index(free, id).len() == free.len() + 1,
    decreases free.len(),
{
    broadcast use vstd::seq_lib::group_to_multiset_ensures;

    let r = insert_by_index(free, id);
    if free.len() == 0 || free.last().spec_index() <= id.spec_index() {
        assert(r == free.push(id));
        assert forall|i: int, j: int| 0 <= i <= j < r.len() implies #[trigger] r[i].spec_index()
            <= #[trigger] r[j].spec_index() by {
            if j == free.len() as int && i < j {
                assert(free[i].spec_index() <= free.last().spec_index());
            }
        }
    } else {
        let d = free.drop_last();
        assert forall|i: int, j: int| 0 <= i <= j < d.len() implies #[trigger] d[i].spec_index()
            <= #[trigger] d[j].spec_index() by {
            assert(d[i] == free[i] && d[j] == free[j]);
        }
        law_removed_id_joins_free_list(d, id);
        let rd = insert_by_index(d, id);
        assert(r == rd.push(free.last()));
        assert(free =~= d.push(free.last()));
        assert forall|i: int, j: int| 0 <= i <= j < r.len() implies #[trigger] r[i].spec_index()
            <= #[trigger] r[j].spec_index() by {
            if j == rd.len() as int && i < j {
                let x = r[i];
                assert(x == rd[i]);
                assert(rd.to_multiset().count(x) > 0);
                assert(rd.contains(x));
                if x == id {
                } else {
                    assert(d.to_multiset().count(x) > 0);
                    assert(d.contains(x));
                    let k = choose|k: int| 0 <= k < d.len() && d[k] == x;
                    assert(free[k] == x);
                    assert(free[k].spec_index() <= free[free.len() - 1].spec_index());
                }
            }
        }
        assert(r.to_multiset() == rd.to_multiset().insert(free.last()));
        assert(free.to_multiset() == d.to_multiset().insert(free.last()));
        assert(r.to_multiset() =~= free.to_multiset().insert(id));
    }
}

/// Law: a pool fills its highest free slot first. After a removal the next
/// slot to fill is the higher of the removed slot and the highest slot that
/// was already free; with no slot free before, it is the removed slot.
pub proof fn law_highest_free_slot_is_reused<ID: SlotId>(free: Seq<ID>, id: ID)
    ensures
        insert_by_index(free, id).len() == free.len() + 1,
        free.len() == 0 ==> insert_by_index(free, id).last() == id,
        free.len() > 0 ==> insert_by_index(free, id).last().spec_index() == if free.last().spec_index()
            <= id.spec_index() {
            id.spec_index()
        } else {
            free.last().spec_index()
        },
    decreases free.len(),
{
    if free.len() > 0 && free.last().spec_index() > id.spec_index() {
        law_highest_free_slot_is_reused(free.drop_last(), id);
    }
}

pub proof fn lemma_insert_by_index<ID: SlotId>(ids: Seq<ID>, id: ID, pos: int)
    requires
        0 <= pos <= ids.len(),
        forall|j: int| pos <= j < ids.len() ==> (#[trigger] ids[j]).spec_index() > id.spec_index(),
        pos > 0 ==> ids[pos - 1].spec_index() <= id.spec_index(),
    ensures
        insert_by_index(ids, id) == ids.insert(pos, id),
    decreases ids.len(),
{
    if pos == ids.len() {
        assert(ids.insert(pos, id) =~= ids.push(id));
    } else {
        let d = ids.drop_last();
        assert(ids.last() == ids[ids.len() - 1]);
        lemma_insert_by_index(d, id, pos);
        assert(ids.insert(pos, id) =~= d.insert(pos, id).push(ids.last()));
    }
}


pub proof fn lemma_partition_push<ID: SlotId>(all: Seq<ID>, id: ID, hw: nat)
    requires
        partitions(all, hw),
        id.spec_index() == hw,
    ensures
        partitions(all.push(id), hw + 1),
{
    let all2 = all.push(id);
    assert forall|i: int, j: int| 0 <= i < j < all2.len() implies (#[trigger] all2[i]).spec_index()
        != (#[trigger] all2[j]).spec_index() by {
        assert(all2[i] == all[i]);
        if j < all.len() {
            assert(all2[j] == all[j]);
        }
    }
    assert forall|i: int| 0 <= i < all2.len() implies 0 <= #[trigger] all2[i].spec_index() < hw + 1 by {
        if i < all.len() {
            assert(all2[i] == all[i]);
        }
    }
    assert forall|u: int| 0 <= u < hw + 1 implies #[trigger] designates(all2, u) by {
        if u < hw {
            assert(designates(all, u));
            let i = choose|i: int| 0 <= i < all.len() && #[trigger] all[i].spec_index() == u;
            assert(all2[i] == all[i]);
        } else {
            assert(all2[all.len() as int] == id);
        }
    }
}

pub proof fn lemma_partition_reuse<ID: SlotId>(act: Seq<ID>, free: Seq<ID>, id: ID, hw: nat)
    requires
        partitions(act + free, hw),
        free.len() > 0,
        id.spec_index() == free.last().spec_index(),
    ensures
        partitions(act.push(id) + free.drop_last(), hw),
{
    let all = act + free;
    let all2 = act.push(id) + free.drop_last();
    let a = act.len() as int;
    let f = free.len() as int;
    assert(all[a + f - 1] == free.last());
    let sigma = |i: int|
        if i < a {
            i
        } else if i == a {
            a + f - 1
        } else {
            i - 1
        };
    assert forall|i: int| 0 <= i < all2.len() implies (#[trigger] all2[i]).spec_index() == all[sigma(
        i,
    )].spec_index() by {
        if i < a {
            assert(all2[i] == all[i]);
        } else if i > a {
            assert(all2[i] == all[i - 1]);
        }
    }
    assert forall|i: int, j: int| 0 <= i < j < all2.len() implies (#[trigger] all2[i]).spec_index()
        != (#[trigger] all2[j]).spec_index() by {
        let si = sigma(i);
        let sj = sigma(j);
        assert(si != sj);
        if si < sj {
            assert(all[si].spec_index() != all[sj].spec_index());
        } else {
            assert(all[sj].spec_index() != all[si].spec_index());
        }
    }
    assert forall|i: int| 0 <= i < all2.len() implies 0 <= #[trigger] all2[i].spec_index() < hw by {
        assert(all2[i].spec_index() == all[sigma(i)].spec_index());
    }
    assert forall|u: int| 0 <= u < hw implies #[trigger] designates(all2, u) by {
        assert(designates(all, u));
        let i = choose|i: int| 0 <= i < all.len() && #[trigger] all[i].spec_index() == u;
        if i < a {
            assert(all2[i] == all[i]);
        } else if i < a + f - 1 {
            assert(all2[i + 1] == all[i]);
        } else {
            assert(all2[a] == id);
        }
    }
}

pub proof fn lemma_partition_remove<ID: SlotId>(
    act: Seq<ID>,
    free: Seq<ID>,
    id: ID,
    k: int,
    p: int,
    hw: nat,
)
    requires
        partitions(act + free, hw),
        0 <= k < act.len(),
        0 <= p <= free.len(),
        act[k].spec_index() == id.spec_index(),
    ensures
        partitions(act.remove(k) + free.insert(p, id), hw),
        forall|j: int|
            0 <= j < act.remove(k).len() ==> (#[trigger] act.remove(k)[j]).spec_index()
                != id.spec_index(),
{
    let all = act + free;
    let nf = free.insert(p, id);
    let na = act.remove(k);
    let all2 = na + nf;
    let a = act.len() as int;
    assert(all2.len() == all.len());
    let sigma = |i: int|
        if i < k {
            i
        } else if i < a - 1 + p {
            i + 1
        } else if i == a - 1 + p {
            k
        } else {
            i
        };
    assert forall|i: int| 0 <= i < all2.len() implies (#[trigger] all2[i]).spec_index() == all[sigma(
        i,
    )].spec_index() by {
        if i < k {
            assert(all2[i] == all[i]);
        } else if i < a - 1 + p {
            assert(all2[i] == all[i + 1]);
        } else if i == a - 1 + p {
            assert(all2[i] == id);
            assert(all[k] == act[k]);
        } else {
            assert(all2[i] == all[i]);
        }
    }
    assert forall|i: int, j: int| 0 <= i < j < all2.len() implies (#[trigger] all2[i]).spec_index()
        != (#[trigger] all2[j]).spec_index() by {
        let si = sigma(i);
        let sj = sigma(j);
        assert(si != sj);
        if si < sj {
            assert(all[si].spec_index() != all[sj].spec_index());
        } else {
            assert(all[sj].spec_index() != all[si].spec_index());
        }
    }
    assert forall|i: int| 0 <= i < all2.len() implies 0 <= #[trigger] all2[i].spec_index() < hw by {
        assert(all2[i].spec_index() == all[sigma(i)].spec_index());
    }
    assert forall|u: int| 0 <= u < hw implies #[trigger] designates(all2, u) by {
        assert(designates(all, u));
        let i = choose|i: int| 0 <= i < all.len() && #[trigger] all[i].spec_index() == u;
        if i < k {
            assert(all2[i] == all[i]);
        } else if i == k {
            assert(all2[a - 1 + p] == id);
            assert(all[k] == act[k]);
        } else if i < a {
            assert(all2[i - 1] == all[i]);
        } else if i - a < p {
            assert(all2[i - 1] == all[i]);
        } else {
            assert(all2[i] == all[i]);
        }
    }
    assert forall|j: int| 0 <= j < na.len() implies (#[trigger] na[j]).spec_index()
        != id.spec_index() by {
        assert(all[k] == act[k]);
        if j < k {
            assert(all[j] == act[j]);
            assert(na[j] == act[j]);
            assert(all[j].spec_index() != all[k].spec_index());
        } else {
            assert(na[j] == act[j + 1]);
            assert(all[j + 1] == act[j + 1]);
            assert(all[k].spec_index() != all[j + 1].spec_index());
        }
    }
}


/// A GPU-backed pool of slots. Removed slots go to a free list, kept sorted
/// by slot index, and are reused (highest index first) before the pool grows.
pub struct GpuPoolBuffer<ID, T> {
    gpu: GpuVec<T>,
    free_ids: Vec<ID>,
    ids: Vec<ID>,
}

impl<ID: SlotId + Copy + PartialEq, T: Default + Clone> GpuPoolBuffer<ID, T> {
    pub closed spec fn gpu(&self) -> GpuVec<T> {
        self.gpu
    }

    /// The identifiers of the slots in use, in insertion order.
    pub closed spec fn active(&self) -> Seq<ID> {
        self.ids@
    }

    /// The identifiers of the removed slots, sorted by slot index.
    pub closed spec fn free(&self) -> Seq<ID> {
        self.free_ids@
    }

    /// The contents of every slot below the high-water mark.
    pub open spec fn slots(&self) -> Seq<T> {
        self.gpu()@
    }

    /// The number of slots ever appended (the high-water mark).
    pub open spec fn high_water(&self) -> nat {
        self.gpu().spec_len()
    }

    pub open spec fn wf(&self) -> bool {
        &&& self.gpu().wf()
        &&& sorted_by_index(self.free())
    }

    /// Every slot below the high-water mark is designated by exactly one
    /// identifier, in use or free, and no identifier designates another slot.
    pub open spec fn slots_partitioned(&self) -> bool {
        partitions(self.active() + self.free(), self.high_water())
    }

    /// The slot the next `insert` fills.
    pub open spec fn next_slot(&self) -> nat {
        if self.free().len() == 0 {
            self.high_water()
        } else {
            self.free().last().spec_index() as nat
        }
    }

    /// The next `insert` can proceed: the storage can grow where it appends,
    /// and holds the slot it reuses otherwise.
    pub open spec fn can_insert(&self) -> bool {
        &&& self.free().len() == 0 ==> self.gpu().can_push()
        &&& self.free().len() > 0 ==> self.next_slot() < self.gpu().capacity()
    }

    pub fn new(capacity: usize) -> (pool: Self)
        ensures
            pool.wf(),
            pool.slots_partitioned(),
            pool.active() == Seq::<ID>::empty(),
            pool.free() == Seq::<ID>::empty(),
            pool.slots() == Seq::<T>::empty(),
            pool.high_water() == 0,
            pool.gpu().capacity() == capacity,
            !pool.gpu().has_gpu_buffer(),
            !pool.gpu().resized(),
            !pool.gpu().dirty(),
    {
        let pool = GpuPoolBuffer {
            gpu: GpuVec::new(capacity),
            free_ids: Vec::with_capacity(capacity),
            ids: Vec::with_capacity(capacity),
        };
        proof {
            assert(pool.active() + pool.free() =~= Seq::<ID>::empty());
        }
        pool
    }

    /// The number of slots in use.
    pub fn len(&self) -> (n: usize)
        ensures
            n == self.active().len(),
    {
        self.ids.len()
    }

    pub fn is_empty(&self) -> (b: bool)
        ensures
            b == (self.active().len() == 0),
    {
        self.ids.is_empty()
    }

    /// Fills the highest free slot with `data`, or, when no slot is free,
    /// appends a slot; returns the identifier built from the slot's index.
    pub fn insert(&mut self, data: T) -> (id: ID)
        requires
            old(self).wf(),
            old(self).can_insert(),
        ensures
            final(self).wf(),
            id == ID::spec_from_index(old(self).next_slot() as usize),
            final(self).active() == old(self).active().push(id),
            final(self).gpu().storage()[old(self).next_slot() as int] == data,
            old(self).free().len() == 0 ==> {
                &&& final(self).free() == old(self).free()
                &&& final(self).slots() == old(self).slots().push(data)
                &&& final(self).gpu().capacity() == old(self).gpu().capacity_after_push()
                &&& old(self).gpu().push_storage(data, final(self).gpu().storage())
            },
            old(self).free().len() > 0 ==> {
                &&& final(self).free() == old(self).free().drop_last()
                &&& final(self).gpu().storage() == old(self).gpu().storage().update(
                    old(self).next_slot() as int,
                    data,
                )
                &&& final(self).high_water() == old(self).high_water()
            },
            final(self).gpu().dirty(),
            final(self).gpu().has_gpu_buffer() == old(self).gpu().has_gpu_buffer(),
            final(self).gpu().gpu_capacity() == old(self).gpu().gpu_capacity(),
            final(self).gpu().resized() == old(self).gpu().resized(),
            old(self).slots_partitioned() && round_trips::<ID>(old(self).next_slot() as usize)
                ==> final(self).slots_partitioned(),
    {
        proof {
            old(self).gpu.lemma_view();
        }
        let id = if self.free_ids.len() == 0 {
            self.gpu.push(data);
            proof {
                self.gpu.lemma_view();
            }
            ID::from_index(self.gpu.len() - 1)
        } else {
            let last = self.free_ids.pop();
            let index = match last {
                Some(f) => f.index(),
                None => 0,
            };
            self.gpu.data.set(index, data);
            self.gpu.dirty = true;
            ID::from_index(index)
        };
        self.ids.push(id);
        proof {
            self.gpu.lemma_view();
            if old(self).slots_partitioned() && round_trips::<ID>(old(self).next_slot() as usize) {
                if old(self).free().len() == 0 {
                    assert(old(self).active() + old(self).free() =~= old(self).active());
                    lemma_partition_push(old(self).active(), id, old(self).high_water());
                    assert(self.active() + self.free() =~= old(self).active().push(id));
                } else {
                    lemma_partition_reuse(old(self).active(), old(self).free(), id, old(self).high_water());
                }
            }
        }
        id
    }

    /// Frees the first slot in use whose identifier equals `id`; `id` joins
    /// the free list after every free identifier of a slot index not greater
    /// than its own.
    pub fn remove(&mut self, id: ID)
        requires
            old(self).wf(),
            ID::obeys_eq_spec(),
            has_match(old(self).active(), id),
        ensures
            final(self).wf(),
            final(self).active() == old(self).active().remove(first_match(old(self).active(), id)),
            final(self).free() == insert_by_index(old(self).free(), id),
            final(self).gpu() == old(self).gpu(),
            final(self).active().len() == old(self).active().len() - 1,
            final(self).free().len() == old(self).free().len() + 1,
            old(self).slots_partitioned() && eq_by_index::<ID>() ==> {
                &&& final(self).slots_partitioned()
                &&& !has_match(final(self).active(), id)
                &&& has_match(final(self).free(), id)
            },
    {
        let mut k: usize = 0;
        while k < self.ids.len()
            invariant
                self.ids@ == old(self).active(),
                ID::obeys_eq_spec(),
                has_match(old(self).active(), id),
                k <= self.ids@.len(),
                forall|j: int| 0 <= j < k ==> !(#[trigger] self.ids@[j]).eq_spec(&id),
            ensures
                k <= self.ids@.len(),
                forall|j: int| 0 <= j < k ==> !(#[trigger] self.ids@[j]).eq_spec(&id),
                k < self.ids@.len() ==> self.ids@[k as int].eq_spec(&id),
            decreases self.ids@.len() - k,
        {
            let cur = self.ids[k];
            if cur == id {
                break;
            }
            k = k + 1;
        }
        proof {
            if k >= self.ids@.len() {
                let w = choose|w: int|
                    0 <= w < old(self).active().len() && (#[trigger] old(self).active()[w]).eq_spec(
                        &id,
                    );
                assert(!old(self).active()[w].eq_spec(&id));
            }
            assert(is_first_match(old(self).active(), id, k as int));
            lemma_first_match(old(self).active(), id, k as int);
        }
        self.ids.remove(k);
        let key = id.index();
        let mut pos = self.free_ids.len();
        while pos > 0 && self.free_ids[pos - 1].index() > key
            invariant
                self.free_ids@ == old(self).free(),
                pos <= self.free_ids@.len(),
                key == id.spec_index(),
                forall|j: int|
                    pos <= j < self.free_ids@.len() ==> (#[trigger] self.free_ids@[j]).spec_index()
                        > key,
            decreases pos,
        {
            pos = pos - 1;
        }
        proof {
            lemma_insert_by_index(old(self).free(), id, pos as int);
        }
        self.free_ids.insert(pos, id);
        proof {
            let free = old(self).free();
            let nf = self.free();
            let p = pos as int;
            assert(nf == free.insert(p, id));
            assert forall|i: int, j: int| 0 <= i <= j < nf.len() implies #[trigger] nf[i].spec_index()
                <= #[trigger] nf[j].spec_index() by {
                if j < p {
                    assert(nf[i] == free[i] && nf[j] == free[j]);
                } else if j == p {
                    if i < p {
                        assert(nf[i] == free[i]);
                        assert(free[i].spec_index() <= free[p - 1].spec_index());
                    }
                } else {
                    assert(nf[j] == free[j - 1]);
                    if i < p {
                        assert(nf[i] == free[i]);
                    } else if i > p {
                        assert(nf[i] == free[i - 1]);
                    }
                }
            }
            if old(self).slots_partitioned() && eq_by_index::<ID>() {
                let ki = k as int;
                assert(old(self).active()[ki].eq_spec(&id));
                lemma_partition_remove(old(self).active(), free, id, ki, p, old(self).high_water());
                let na = self.active();
                assert forall|j: int| 0 <= j < na.len() implies !(#[trigger] na[j]).eq_spec(&id) by {
                    assert(na[j].spec_index() != id.spec_index());
                }
                assert(nf[p] == id);
                assert(nf[p].eq_spec(&id));
            }
        }
    }

    /// Replaces the contents of the slot of `id`, which must be in use.
    pub fn update(&mut self, id: ID, data: T)
        requires
            old(self).wf(),
            ID::obeys_eq_spec(),
            has_match(old(self).active(), id),
            id.spec_index() < old(self).gpu().capacity(),
        ensures
            final(self).wf(),
            final(self).gpu().storage() == old(self).gpu().storage().update(
                id.spec_index() as int,
                data,
            ),
            final(self).gpu().storage()[id.spec_index() as int] == data,
            final(self).slots() == if id.spec_index() < old(self).high_water() {
                old(self).slots().update(id.spec_index() as int, data)
            } else {
                old(self).slots()
            },
            final(self).high_water() == old(self).high_water(),
            final(self).active() == old(self).active(),
            final(self).free() == old(self).free(),
            final(self).gpu().dirty(),
            final(self).gpu().has_gpu_buffer() == old(self).gpu().has_gpu_buffer(),
            final(self).gpu().gpu_capacity() == old(self).gpu().gpu_capacity(),
            final(self).gpu().resized() == old(self).gpu().resized(),
    {
        let index = id.index();
        self.gpu.data.set(index, data);
        self.gpu.dirty = true;
        proof {
            old(self).gpu.lemma_view();
            self.gpu.lemma_view();
            if id.spec_index() < old(self).high_water() {
                assert(self.gpu@ =~= old(self).gpu@.update(index as int, data));
            } else {
                assert(self.gpu@ =~= old(self).gpu@);
            }
        }
    }

    /// Frees every slot and forgets the high-water mark; the storage and the
    /// GPU buffer stay.
    pub fn clear(&mut self)
        requires
            old(self).wf(),
        ensures
            final(self).wf(),
            final(self).slots_partitioned(),
            final(self).active() == Seq::<ID>::empty(),
            final(self).free() == Seq::<ID>::empty(),
            final(self).slots() == Seq::<T>::empty(),
            final(self).high_water() == 0,
            final(self).gpu().storage() == old(self).gpu().storage(),
            final(self).gpu().dirty() == old(self).gpu().dirty(),
            final(self).gpu().has_gpu_buffer() == old(self).gpu().has_gpu_buffer(),
            final(self).gpu().gpu_capacity() == old(self).gpu().gpu_capacity(),
            final(self).gpu().resized() == old(self).gpu().resized(),
    {
        self.gpu.clear();
        self.ids.clear();
        self.free_ids.clear();
        proof {
            self.gpu.lemma_view();
            assert(self.active() + self.free() =~= Seq::<ID>::empty());
        }
    }

    /// See `GpuVec::ensure_capacity`.
    pub fn ensure_capacity(&mut self) -> (plan: CapacityPlan)
        requires
            old(self).wf(),
        ensures
            final(self).wf(),
            plan == old(self).gpu().capacity_plan(),
            final(self).active() == old(self).active(),
            final(self).free() == old(self).free(),
            final(self).gpu().same_contents(old(self).gpu()),
            final(self).gpu().has_gpu_buffer(),
            final(self).high_water() <= final(self).gpu().gpu_capacity(),
            final(self).gpu().gpu_capacity() == if old(self).gpu().needs_new_buffer() {
                old(self).gpu().capacity()
            } else {
                old(self).gpu().gpu_capacity()
            },
            final(self).gpu().resized() == (old(self).gpu().resized()
                || old(self).gpu().needs_new_buffer()),
            final(self).gpu().dirty() == (old(self).gpu().dirty()
                || old(self).gpu().needs_new_buffer()),
    {
        self.gpu.ensure_capacity()
    }

    /// See `GpuVec::flush`.
    pub fn flush(&mut self) -> (plan: FlushPlan)
        requires
            old(self).wf(),
        ensures
            final(self).wf(),
            plan == old(self).gpu().flush_plan(),
            final(self).active() == old(self).active(),
            final(self).free() == old(self).free(),
            final(self).gpu().same_contents(old(self).gpu()),
            final(self).gpu().has_gpu_buffer(),
            final(self).high_water() <= final(self).gpu().gpu_capacity(),
            final(self).gpu().gpu_capacity() == if old(self).gpu().needs_new_buffer() {
                old(self).gpu().capacity()
            } else {
                old(self).gpu().gpu_capacity()
            },
            final(self).gpu().resized() == (old(self).gpu().resized()
                || old(self).gpu().needs_new_buffer()),
            !final(self).gpu().dirty(),
    {
        self.gpu.flush()
    }

    /// The identifiers of the free slots, sorted by slot index.
    pub fn free_ids_slice(&self) -> (out: &[ID])
        ensures
            out@ == self.free(),
    {
        self.free_ids.as_slice()
    }

    /// The number of slots ever handed out.
    pub fn high_water_mark(&self) -> (n: usize)
        ensures
            n == self.high_water(),
    {
        self.gpu.len()
    }

    /// The identifiers of the slots in use, in insertion order.
    pub fn ids(&self) -> (out: &[ID])
        ensures
            out@ == self.active(),
    {
        self.ids.as_slice()
    }

    /// The contents of every slot below the high-water mark.
    pub fn data(&self) -> (out: &[T])
        requires
            self.wf(),
        ensures
            out@ == self.slots(),
    {
        self.gpu.data()
    }

    /// Every stored element, including those beyond the high-water mark.
    pub fn raw_data(&self) -> (out: &[T])
        ensures
            out@ == self.gpu().storage(),
    {
        self.gpu.raw_data()
    }

    /// Whether the GPU buffer was recreated since the last call, and resets it.
    pub fn take_buffer_resized(&mut self) -> (was: bool)
        ensures
            was == old(self).gpu().resized(),
            !final(self).gpu().resized(),
            final(self).active() == old(self).active(),
            final(self).free() == old(self).free(),
            final(self).gpu().same_contents(old(self).gpu()),
            final(self).gpu().has_gpu_buffer() == old(self).gpu().has_gpu_buffer(),
            final(self).gpu().gpu_capacity() == old(self).gpu().gpu_capacity(),
            final(self).gpu().dirty() == old(self).gpu().dirty(),
            old(self).wf() ==> final(self).wf(),
    {
        self.gpu.take_buffer_resized()
    }

    /// Whether some identifier in use equals `id`.
    pub fn contains(&self, id: ID) -> (b: bool)
        ensures
            ID::obeys_eq_spec() ==> b == has_match(self.active(), id),
    {
        let mut k: usize = 0;
        while k < self.ids.len()
            invariant
                k <= self.ids@.len(),
                ID::obeys_eq_spec() ==> forall|j: int|
                    0 <= j < k ==> !(#[trigger] self.ids@[j]).eq_spec(&id),
            decreases self.ids@.len() - k,
        {
            let cur = self.ids[k];
            if cur == id {
                return true;
            }
            k = k + 1;
        }
        false
    }

    /// The one-element slice holding the contents of the slot of `id`, which
    /// must be below the high-water mark and not free.
    pub fn slot_data(&self, id: ID) -> (out: &[T])
        requires
            self.wf(),
            id.spec_index() < self.high_water(),
            ID::obeys_eq_spec(),
            !has_match(self.free(), id),
        ensures
            out@ == seq![self.slots()[id.spec_index() as int]],
    {
        let index = id.index();
        proof {
            self.gpu.lemma_view();
        }
        let out = slice_subrange(self.gpu.data.as_slice(), index, index + 1);
        proof {
            assert(out@ =~= seq![self.slots()[id.spec_index() as int]]);
        }
        out
    }
}

} // verus!
