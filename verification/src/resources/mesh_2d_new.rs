use vstd::prelude::*;
use vstd::std_specs::cmp::PartialEqSpec;

use crate::memory_new::{eq_by_index, round_trips, FlushPlan, GpuVec, SlotId};
use crate::resources::mesh_2d::{
    byte_size, bytes_of, Mesh2DGpuPrimitive, Mesh2DId, MeshDraw, PRIMITIVES_PER_MESH,
    zero_primitive, zero_primitives,
};

verus! {

/// The identifier of a mesh instance: the index of its slot.
#[derive(Debug, Default, Copy, Clone)]
pub struct Mesh2DInstanceId {
    pub value: u32,
}

impl PartialEq for Mesh2DInstanceId {
    fn eq(&self, other: &Self) -> (r: bool) {
        self.value == other.value
    }
}

impl vstd::std_specs::cmp::PartialEqSpecImpl for Mesh2DInstanceId {
    open spec fn obeys_eq_spec() -> bool {
        true
    }

    open spec fn eq_spec(&self, other: &Self) -> bool {
        self.value == other.value
    }
}

impl SlotId for Mesh2DInstanceId {
    open spec fn spec_index(&self) -> usize {
        self.value as usize
    }

    open spec fn spec_from_index(index: usize) -> Self {
        Mesh2DInstanceId { value: index as u32 }
    }

    fn from_index(index: usize) -> (id: Self) {
        Mesh2DInstanceId { value: #[verifier::truncate] (index as u32) }
    }

    fn index(&self) -> (index: usize) {
        self.value as usize
    }
}

impl Mesh2DInstanceId {
    /// `==` on instance identifiers compares slot indices, and an identifier
    /// built from a slot index that fits in `u32` gives that index back.
    pub proof fn lemma_index_laws()
        ensures
            eq_by_index::<Mesh2DInstanceId>(),
            forall|i: usize| i <= u32::MAX ==> #[trigger] round_trips::<Mesh2DInstanceId>(i),
    {
    }
}

impl SlotId for Mesh2DId {
    open spec fn spec_index(&self) -> usize {
        self.value
    }

    open spec fn spec_from_index(index: usize) -> Self {
        Mesh2DId { value: index }
    }

    fn from_index(index: usize) -> (id: Self) {
        Mesh2DId { value: index }
    }

    fn index(&self) -> (index: usize) {
        self.value
    }
}

impl Mesh2DId {
    /// A mesh identifier built from any slot index gives that index back.
    pub proof fn lemma_index_laws()
        ensures
            forall|i: usize| #[trigger] round_trips::<Mesh2DId>(i),
    {
    }
}

/// The primitives of one mesh, padded to a fixed size for the GPU.
#[derive(Copy, Clone, Debug)]
pub struct GPUPrimitivesBuck {
    data: [Mesh2DGpuPrimitive; 1024],
}

impl GPUPrimitivesBuck {
    pub closed spec fn primitives(&self) -> Seq<Mesh2DGpuPrimitive> {
        self.data@
    }

    /// Every primitive of the block, in order.
    pub fn primitives_slice(&self) -> (out: &[Mesh2DGpuPrimitive])
        ensures
            out@ == self.primitives(),
    {
        self.data.as_slice()
    }

    /// The primitives `primitives`, followed by zero primitives up to the
    /// fixed size.
    pub fn pack(primitives: &[Mesh2DGpuPrimitive]) -> (b: Self)
        requires
            primitives@.len() <= PRIMITIVES_PER_MESH,
        ensures
            b.primitives().len() == PRIMITIVES_PER_MESH,
            b.primitives().subrange(0, primitives@.len() as int) == primitives@,
            forall|i: int|
                primitives@.len() <= i < PRIMITIVES_PER_MESH ==> #[trigger] b.primitives()[i]
                    == zero_primitive(),
    {
        let mut b = GPUPrimitivesBuck::default();
        let mut idx: usize = 0;
        while idx < primitives.len()
            invariant
                idx <= primitives@.len() <= PRIMITIVES_PER_MESH,
                b.data@.len() == PRIMITIVES_PER_MESH,
                forall|i: int| 0 <= i < idx ==> #[trigger] b.data@[i] == primitives@[i],
                forall|i: int|
                    idx <= i < PRIMITIVES_PER_MESH ==> #[trigger] b.data@[i] == zero_primitive(),
            decreases primitives@.len() - idx,
        {
            b.data[idx] = primitives[idx];
            idx = idx + 1;
        }
        proof {
            assert(b.data@.subrange(0, primitives@.len() as int) =~= primitives@);
        }
        b
    }
}

impl Default for GPUPrimitivesBuck {
    fn default() -> (b: Self)
        ensures
            b.primitives().len() == PRIMITIVES_PER_MESH,
            forall|i: int| 0 <= i < PRIMITIVES_PER_MESH ==> #[trigger] b.primitives()[i] == zero_primitive(),
    {
        GPUPrimitivesBuck { data: zero_primitives() }
    }
}


/// What the owner must do to bring the three storage buffers up to date.
#[derive(Clone, Copy, Debug, PartialEq, Eq, Structural)]
pub struct MeshFlushPlans {
    pub primitives: FlushPlan,
    pub transforms: FlushPlan,
    pub sizes: FlushPlan,
}

/// The meshes loaded so far: what the owner keeps to draw each (`M`), its
/// number of indices, and its primitives, transforms (`TB`) and size (`S`)
/// in storage vectors mirrored to the GPU.
pub struct Mesh2DResources<M, TB, S> {
    meshes: Vec<M>,
    indices_lens: Vec<u32>,
    primitives_buf: GpuVec<GPUPrimitivesBuck>,
    transforms_buf: GpuVec<TB>,
    sizes_buf: GpuVec<S>,
}

impl<M, TB: Default + Clone, S: Default + Clone> Mesh2DResources<M, TB, S> {
    pub closed spec fn spec_meshes(&self) -> Seq<M> {
        self.meshes@
    }

    /// The number of indices of each mesh, as stored for drawing.
    pub closed spec fn spec_index_counts(&self) -> Seq<u32> {
        self.indices_lens@
    }

    pub closed spec fn primitives_buf(&self) -> GpuVec<GPUPrimitivesBuck> {
        self.primitives_buf
    }

    pub closed spec fn transforms_buf(&self) -> GpuVec<TB> {
        self.transforms_buf
    }

    pub closed spec fn sizes_buf(&self) -> GpuVec<S> {
        self.sizes_buf
    }

    /// One index count and one entry of each storage vector per mesh.
    pub open spec fn wf(&self) -> bool {
        &&& self.primitives_buf().wf()
        &&& self.transforms_buf().wf()
        &&& self.sizes_buf().wf()
        &&& self.spec_index_counts().len() == self.spec_meshes().len()
        &&& self.primitives_buf().spec_len() == self.spec_meshes().len()
        &&& self.transforms_buf().spec_len() == self.spec_meshes().len()
        &&& self.sizes_buf().spec_len() == self.spec_meshes().len()
    }

    /// Whether one more mesh fits in the storage vectors.
    pub open spec fn can_load(&self) -> bool {
        &&& self.primitives_buf().can_push()
        &&& self.transforms_buf().can_push()
        &&& self.sizes_buf().can_push()
    }

    /// No mesh yet; each storage vector has room for eight meshes.
    pub fn new() -> (r: Self)
        ensures
            r.wf(),
            r.spec_meshes() == Seq::<M>::empty(),
            r.primitives_buf().capacity() == 8,
            r.transforms_buf().capacity() == 8,
            r.sizes_buf().capacity() == 8,
            !r.primitives_buf().has_gpu_buffer(),
            !r.transforms_buf().has_gpu_buffer(),
            !r.sizes_buf().has_gpu_buffer(),
    {
        Mesh2DResources {
            meshes: Vec::new(),
            indices_lens: Vec::new(),
            primitives_buf: GpuVec::new(8),
            transforms_buf: GpuVec::new(8),
            sizes_buf: GpuVec::new(8),
        }
    }

    /// The number of meshes.
    /// Whether one more mesh fits in the storage vectors.
    pub fn can_load_mesh(&self) -> (b: bool)
        ensures
            b == self.can_load(),
    {
        self.primitives_buf.push_fits() && self.transforms_buf.push_fits() && self.sizes_buf.push_fits()
    }

    pub fn mesh_count(&self) -> (n: usize)
        ensures
            n == self.spec_meshes().len(),
    {
        self.meshes.len()
    }

    /// The whole storage of the primitives vector, used or not.
    pub fn primitives_storage(&self) -> (out: &[GPUPrimitivesBuck])
        ensures
            out@ == self.primitives_buf().storage(),
    {
        self.primitives_buf.raw_data()
    }

    /// The whole storage of the transforms vector, used or not.
    pub fn transforms_storage(&self) -> (out: &[TB])
        ensures
            out@ == self.transforms_buf().storage(),
    {
        self.transforms_buf.raw_data()
    }

    /// The whole storage of the sizes vector, used or not.
    pub fn sizes_storage(&self) -> (out: &[S])
        ensures
            out@ == self.sizes_buf().storage(),
    {
        self.sizes_buf.raw_data()
    }

    /// Every mesh's primitives, in mesh order.
    pub fn primitives_data(&self) -> (out: &[GPUPrimitivesBuck])
        requires
            self.wf(),
        ensures
            out@ == self.primitives_buf()@,
    {
        self.primitives_buf.data()
    }

    /// Every mesh's transforms, in mesh order.
    pub fn transforms_data(&self) -> (out: &[TB])
        requires
            self.wf(),
        ensures
            out@ == self.transforms_buf()@,
    {
        self.transforms_buf.data()
    }

    /// Every mesh's size, in mesh order.
    pub fn sizes_data(&self) -> (out: &[S])
        requires
            self.wf(),
        ensures
            out@ == self.sizes_buf()@,
    {
        self.sizes_buf.data()
    }

    /// The bytes taken by the primitives of every mesh.
    pub fn primitives_byte_size(&self) -> (n: u64)
        requires
            byte_size(
                self.primitives_buf().spec_len(),
                vstd::layout::size_of::<GPUPrimitivesBuck>(),
            ) <= usize::MAX,
        ensures
            n == byte_size(
                self.primitives_buf().spec_len(),
                vstd::layout::size_of::<GPUPrimitivesBuck>(),
            ),
    {
        bytes_of(self.primitives_buf.len(), core::mem::size_of::<GPUPrimitivesBuck>())
    }

    /// The bytes taken by the transforms of every mesh.
    pub fn transforms_byte_size(&self) -> (n: u64)
        requires
            byte_size(self.transforms_buf().spec_len(), vstd::layout::size_of::<TB>())
                <= usize::MAX,
        ensures
            n == byte_size(self.transforms_buf().spec_len(), vstd::layout::size_of::<TB>()),
    {
        bytes_of(self.transforms_buf.len(), core::mem::size_of::<TB>())
    }

    /// The bytes taken by the sizes of every mesh.
    pub fn mesh_sizes_byte_size(&self) -> (n: u64)
        requires
            byte_size(self.sizes_buf().spec_len(), vstd::layout::size_of::<S>()) <= usize::MAX,
        ensures
            n == byte_size(self.sizes_buf().spec_len(), vstd::layout::size_of::<S>()),
    {
        bytes_of(self.sizes_buf.len(), core::mem::size_of::<S>())
    }

    /// Whether any storage buffer was recreated since the last call (the
    /// owner then rebuilds what binds them); resets all three.
    pub fn take_buffer_resized(&mut self) -> (was: bool)
        requires
            old(self).wf(),
        ensures
            final(self).wf(),
            was == (old(self).primitives_buf().resized() || old(self).transforms_buf().resized()
                || old(self).sizes_buf().resized()),
            !final(self).primitives_buf().resized(),
            !final(self).transforms_buf().resized(),
            !final(self).sizes_buf().resized(),
            final(self).spec_meshes() == old(self).spec_meshes(),
            final(self).spec_index_counts() == old(self).spec_index_counts(),
            final(self).primitives_buf()@ == old(self).primitives_buf()@,
            final(self).transforms_buf()@ == old(self).transforms_buf()@,
            final(self).sizes_buf()@ == old(self).sizes_buf()@,
    {
        let a = self.primitives_buf.take_buffer_resized();
        let b = self.transforms_buf.take_buffer_resized();
        let c = self.sizes_buf.take_buffer_resized();
        a || b || c
    }

    /// Registers a mesh: `mesh` is what draws it, `indices_len` the number of
    /// its indices (kept as its low 32 bits), `primitives` its primitives (at
    /// most `PRIMITIVES_PER_MESH`, packed into one fixed-size block),
    /// `transforms` its packed transforms and `size` its size. Returns the
    /// identifier of the mesh, the next one in order, and what the owner must
    /// do to each storage buffer, after which none is dirty.
    pub fn load_mesh_to_gpu(
        &mut self,
        mesh: M,
        indices_len: usize,
        primitives: &[Mesh2DGpuPrimitive],
        transforms: TB,
        size: S,
    ) -> (r: (Mesh2DId, MeshFlushPlans))
        requires
            old(self).wf(),
            old(self).can_load(),
            primitives@.len() <= PRIMITIVES_PER_MESH,
        ensures
            final(self).wf(),
            r.0.value == old(self).spec_meshes().len(),
            r.1 == (MeshFlushPlans {
                primitives: old(self).primitives_buf().plan_after_push(),
                transforms: old(self).transforms_buf().plan_after_push(),
                sizes: old(self).sizes_buf().plan_after_push(),
            }),
            final(self).spec_meshes() == old(self).spec_meshes().push(mesh),
            final(self).spec_index_counts() == old(self).spec_index_counts().push(
                indices_len as u32,
            ),
            final(self).transforms_buf()@ == old(self).transforms_buf()@.push(transforms),
            final(self).sizes_buf()@ == old(self).sizes_buf()@.push(size),
            final(self).primitives_buf()@.len() == old(self).primitives_buf()@.len() + 1,
            final(self).primitives_buf()@.subrange(0, old(self).primitives_buf()@.len() as int)
                == old(self).primitives_buf()@,
            final(self).primitives_buf()@.last().primitives().len() == PRIMITIVES_PER_MESH,
            final(self).primitives_buf()@.last().primitives().subrange(
                0,
                primitives@.len() as int,
            ) == primitives@,
            forall|i: int|
                primitives@.len() <= i < PRIMITIVES_PER_MESH ==> #[trigger] final(self).primitives_buf()@.last().primitives()[i]
                    == zero_primitive(),
            final(self).primitives_buf().has_gpu_buffer(),
            final(self).transforms_buf().has_gpu_buffer(),
            final(self).sizes_buf().has_gpu_buffer(),
            !final(self).primitives_buf().dirty(),
            !final(self).transforms_buf().dirty(),
            !final(self).sizes_buf().dirty(),
    {
        let bucket = GPUPrimitivesBuck::pack(primitives);
        let ghost p0 = self.primitives_buf;
        let ghost t0 = self.transforms_buf;
        let ghost s0 = self.sizes_buf;
        let id = Mesh2DId { value: self.primitives_buf.len() };
        self.primitives_buf.push(bucket);
        self.transforms_buf.push(transforms);
        self.sizes_buf.push(size);
        proof {
            p0.lemma_view();
            t0.lemma_view();
            s0.lemma_view();
            self.primitives_buf.lemma_view();
            self.transforms_buf.lemma_view();
            self.sizes_buf.lemma_view();
        }
        let primitives_plan = self.primitives_buf.flush();
        let transforms_plan = self.transforms_buf.flush();
        let sizes_plan = self.sizes_buf.flush();
        self.indices_lens.push(#[verifier::truncate] (indices_len as u32));
        self.meshes.push(mesh);
        proof {
            assert(self.primitives_buf@.subrange(0, p0@.len() as int) =~= p0@);
        }
        (
            id,
            MeshFlushPlans {
                primitives: primitives_plan,
                transforms: transforms_plan,
                sizes: sizes_plan,
            },
        )
    }

    /// The mesh `mesh_id` and its draw for the one instance in slot `slot`.
    pub fn render_slot(&self, slot: u32, mesh_id: Mesh2DId) -> (r: (&M, MeshDraw))
        requires
            self.wf(),
            mesh_id.value < self.spec_meshes().len(),
            slot < u32::MAX,
        ensures
            *r.0 == self.spec_meshes()[mesh_id.value as int],
            r.1 == (MeshDraw {
                index_count: self.spec_index_counts()[mesh_id.value as int],
                first_instance: slot,
                end_instance: (slot + 1) as u32,
            }),
    {
        let draw = MeshDraw {
            index_count: self.indices_lens[mesh_id.value],
            first_instance: slot,
            end_instance: slot + 1,
        };
        (&self.meshes[mesh_id.value], draw)
    }
}

} // verus!
