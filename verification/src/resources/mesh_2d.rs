use vstd::prelude::*;
use vstd::std_specs::cmp::PartialEqSpec;

use crate::memory::InstanceId;

verus! {

/// The identifier of a mesh loaded to the GPU.
#[derive(Copy, Clone, Default, Debug)]
pub struct Mesh2DId {
    pub value: usize,
}

/// The identifier of an instance of a mesh.
#[derive(Debug, Default, Copy, Clone)]
pub struct Mesh2DInstanceId {
    pub mesh_id: Mesh2DId,
    pub value: u32,
}

impl PartialEq for Mesh2DInstanceId {
    /// Instances are told apart by their slot alone.
    fn eq(&self, other: &Self) -> (r: bool) {
        self.value == other.value
    }
}

impl vstd::std_specs::cmp::PartialEqSpecImpl for Mesh2DInstanceId {
    open spec fn obeys_eq_spec() -> bool {
        true
    }

    open spec fn eq_spec(&self, other: &Self) -> bool {
        self.value == other.value
    }
}

impl InstanceId for Mesh2DInstanceId {
    open spec fn spec_index(&self) -> usize {
        self.value as usize
    }

    fn index(&self) -> (index: usize) {
        self.value as usize
    }
}

impl Mesh2DInstanceId {
    /// `==` on instance identifiers compares slot indices.
    pub proof fn lemma_index_laws()
        ensures
            Mesh2DInstanceId::obeys_eq_spec(),
            forall|a: Mesh2DInstanceId, b: Mesh2DInstanceId|
                #[trigger] a.eq_spec(&b) <==> a.spec_index() == b.spec_index(),
    {
    }
}

/// A primitive of a mesh as the shaders read it: the index of its transform
/// and its color packed as `0xRRGGBBAA`.
#[derive(Copy, Clone, Debug, Default)]
pub struct Mesh2DGpuPrimitive {
    pub transform: u32,
    pub color: u32,
    pub _pad: [u32; 2],
}

/// The number of primitives of one mesh that the GPU storage holds.
pub const PRIMITIVES_PER_MESH: usize = 1024;

/// The all-zero primitive.
pub open spec fn zero_primitive() -> Mesh2DGpuPrimitive {
    Mesh2DGpuPrimitive { transform: 0, color: 0, _pad: [0u32, 0u32] }
}

/// `PRIMITIVES_PER_MESH` zero primitives.
pub fn zero_primitives() -> (a: [Mesh2DGpuPrimitive; 1024])
    ensures
        a@.len() == PRIMITIVES_PER_MESH,
        forall|i: int| 0 <= i < PRIMITIVES_PER_MESH ==> #[trigger] a@[i] == zero_primitive(),
{
    let zero = Mesh2DGpuPrimitive { transform: 0, color: 0, _pad: [0, 0] };
    assert(zero == zero_primitive());
    let mut a: [Mesh2DGpuPrimitive; 1024] = [zero; 1024];
    let mut idx: usize = 0;
    while idx < 1024
        invariant
            idx <= 1024,
            a@.len() == 1024,
            forall|i: int| 0 <= i < idx ==> #[trigger] a@[i] == zero,
        decreases 1024 - idx,
    {
        a[idx] = zero;
        idx = idx + 1;
    }
    a
}

/// The primitives of one mesh, padded to a fixed size for the GPU.
#[derive(Copy, Clone, Debug)]
pub struct GPUPrimitivesBuck {
    data: [Mesh2DGpuPrimitive; 1024],
}

impl GPUPrimitivesBuck {
    pub closed spec fn primitives(&self) -> Seq<Mesh2DGpuPrimitive> {
        self.data@
    }

    /// Every primitive of the block, in order.
    pub fn primitives_slice(&self) -> (out: &[Mesh2DGpuPrimitive])
        ensures
            out@ == self.primitives(),
    {
        self.data.as_slice()
    }

    /// The primitives `primitives`, followed by zero primitives up to the
    /// fixed size.
    pub fn pack(primitives: &[Mesh2DGpuPrimitive]) -> (b: Self)
        requires
            primitives@.len() <= PRIMITIVES_PER_MESH,
        ensures
            b.primitives().len() == PRIMITIVES_PER_MESH,
            b.primitives().subrange(0, primitives@.len() as int) == primitives@,
            forall|i: int|
                primitives@.len() <= i < PRIMITIVES_PER_MESH ==> #[trigger] b.primitives()[i]
                    == zero_primitive(),
    {
        let mut b = GPUPrimitivesBuck::default();
        let mut idx: usize = 0;
        while idx < primitives.len()
            invariant
                idx <= primitives@.len() <= PRIMITIVES_PER_MESH,
                b.data@.len() == PRIMITIVES_PER_MESH,
                forall|i: int| 0 <= i < idx ==> #[trigger] b.data@[i] == primitives@[i],
                forall|i: int|
                    idx <= i < PRIMITIVES_PER_MESH ==> #[trigger] b.data@[i] == zero_primitive(),
            decreases primitives@.len() - idx,
        {
            b.data[idx] = primitives[idx];
            idx = idx + 1;
        }
        proof {
            assert(b.data@.subrange(0, primitives@.len() as int) =~= primitives@);
        }
        b
    }
}

impl Default for GPUPrimitivesBuck {
    fn default() -> (b: Self)
        ensures
            b.primitives().len() == PRIMITIVES_PER_MESH,
            forall|i: int| 0 <= i < PRIMITIVES_PER_MESH ==> #[trigger] b.primitives()[i] == zero_primitive(),
    {
        GPUPrimitivesBuck { data: zero_primitives() }
    }
}


/// The indexed draw of one mesh instance: the first `index_count` indices of
/// the mesh, for the instances `first_instance..end_instance`.
#[derive(Clone, Copy, Debug, PartialEq, Eq, Structural)]
pub struct MeshDraw {
    pub index_count: u32,
    pub first_instance: u32,
    pub end_instance: u32,
}

/// The byte sizes of the storage buffers that hold the transforms, the
/// primitives and the sizes of every mesh.
#[derive(Clone, Copy, Debug, PartialEq, Eq, Structural)]
pub struct StorageByteSizes {
    pub primitives: u64,
    pub transforms: u64,
    pub mesh_sizes: u64,
}

/// `count` elements of `size` bytes each, in bytes.
pub open spec fn byte_size(count: nat, size: nat) -> nat {
    count * size
}

/// Multiplies a count by an element size, both known to fit.
pub fn bytes_of(count: usize, size: usize) -> (n: u64)
    requires
        count * size <= usize::MAX,
    ensures
        n == byte_size(count as nat, size as nat),
{
    (count * size) as u64
}

/// The meshes loaded so far, with their transforms (`TB`), primitives and
/// sizes (`S`) as the GPU storage holds them, one of each per mesh, and the
/// storage buffers (`G`) once they exist. `M` is what the owner keeps to draw
/// a mesh.
pub struct Mesh2DResources<M, TB, S, G> {
    meshes: Vec<M>,
    indices_lens: Vec<u32>,
    transforms: Vec<TB>,
    primitives: Vec<GPUPrimitivesBuck>,
    mesh_sizes: Vec<S>,
    storage: Option<G>,
}

impl<M, TB, S, G> Mesh2DResources<M, TB, S, G> {
    pub closed spec fn spec_meshes(&self) -> Seq<M> {
        self.meshes@
    }

    /// The number of indices of each mesh, as stored for drawing.
    pub closed spec fn spec_index_counts(&self) -> Seq<u32> {
        self.indices_lens@
    }

    pub closed spec fn spec_transforms(&self) -> Seq<TB> {
        self.transforms@
    }

    pub closed spec fn spec_primitives(&self) -> Seq<GPUPrimitivesBuck> {
        self.primitives@
    }

    pub closed spec fn spec_mesh_sizes(&self) -> Seq<S> {
        self.mesh_sizes@
    }

    pub closed spec fn spec_storage(&self) -> Option<G> {
        self.storage
    }

    /// One index count, transform, primitive and size entry per mesh.
    pub open spec fn wf(&self) -> bool {
        &&& self.spec_index_counts().len() == self.spec_meshes().len()
        &&& self.spec_transforms().len() == self.spec_meshes().len()
        &&& self.spec_primitives().len() == self.spec_meshes().len()
        &&& self.spec_mesh_sizes().len() == self.spec_meshes().len()
    }

    /// The byte sizes of the storage buffers for `count` meshes.
    pub open spec fn storage_sizes(count: nat) -> StorageByteSizes {
        StorageByteSizes {
            primitives: byte_size(count, vstd::layout::size_of::<GPUPrimitivesBuck>()) as u64,
            transforms: byte_size(count, vstd::layout::size_of::<TB>()) as u64,
            mesh_sizes: byte_size(count, vstd::layout::size_of::<S>()) as u64,
        }
    }

    /// Whether the storage sizes for `count` meshes can be computed.
    pub open spec fn storage_fits(count: nat) -> bool {
        &&& byte_size(count, vstd::layout::size_of::<GPUPrimitivesBuck>()) <= usize::MAX
        &&& byte_size(count, vstd::layout::size_of::<TB>()) <= usize::MAX
        &&& byte_size(count, vstd::layout::size_of::<S>()) <= usize::MAX
    }

    /// No mesh and no storage yet.
    pub fn new() -> (r: Self)
        ensures
            r.wf(),
            r.spec_meshes() == Seq::<M>::empty(),
            r.spec_storage() is None,
    {
        Mesh2DResources {
            meshes: Vec::new(),
            indices_lens: Vec::new(),
            transforms: Vec::new(),
            primitives: Vec::new(),
            mesh_sizes: Vec::new(),
            storage: None,
        }
    }

    /// The number of meshes.
    pub fn mesh_count(&self) -> (n: usize)
        ensures
            n == self.spec_meshes().len(),
    {
        self.meshes.len()
    }

    /// Whether the storage buffers exist.
    pub fn has_storage(&self) -> (b: bool)
        ensures
            b == self.spec_storage() is Some,
    {
        self.storage.is_some()
    }

    /// The storage buffers; they exist once a mesh was loaded.
    pub fn storage(&self) -> (g: &G)
        requires
            self.spec_storage() is Some,
        ensures
            *g == self.spec_storage()->0,
    {
        self.storage.as_ref().unwrap()
    }

    /// Replaces the storage buffers with `storage`, made from the current
    /// transforms, primitives and sizes.
    pub fn set_storage(&mut self, storage: G)
        ensures
            final(self).spec_storage() == Some(storage),
            final(self).spec_meshes() == old(self).spec_meshes(),
            final(self).spec_index_counts() == old(self).spec_index_counts(),
            final(self).spec_transforms() == old(self).spec_transforms(),
            final(self).spec_primitives() == old(self).spec_primitives(),
            final(self).spec_mesh_sizes() == old(self).spec_mesh_sizes(),
    {
        self.storage = Some(storage);
    }

    /// Every mesh's transforms, in mesh order.
    pub fn transforms(&self) -> (out: &[TB])
        ensures
            out@ == self.spec_transforms(),
    {
        self.transforms.as_slice()
    }

    /// Every mesh's primitives, in mesh order.
    pub fn primitives(&self) -> (out: &[GPUPrimitivesBuck])
        ensures
            out@ == self.spec_primitives(),
    {
        self.primitives.as_slice()
    }

    /// Every mesh's size, in mesh order.
    pub fn mesh_sizes(&self) -> (out: &[S])
        ensures
            out@ == self.spec_mesh_sizes(),
    {
        self.mesh_sizes.as_slice()
    }

    /// Registers a mesh: `mesh` is what draws it, `indices_len` the number of
    /// its indices, `primitives` its primitives (at most
    /// `PRIMITIVES_PER_MESH`), `transforms` its packed transforms and `size`
    /// its size. Returns the identifier of the mesh, the next one in order,
    /// and the byte sizes of the storage buffers that must now be created
    /// from every mesh's data (see `set_storage`). The number of indices is
    /// kept as its low 32 bits.
    pub fn load_mesh_to_gpu(
        &mut self,
        mesh: M,
        indices_len: usize,
        primitives: &[Mesh2DGpuPrimitive],
        transforms: TB,
        size: S,
    ) -> (r: (Mesh2DId, StorageByteSizes))
        requires
            old(self).wf(),
            primitives@.len() <= PRIMITIVES_PER_MESH,
            Self::storage_fits(old(self).spec_meshes().len() + 1),
        ensures
            final(self).wf(),
            r.0.value == old(self).spec_meshes().len(),
            r.1 == Self::storage_sizes(final(self).spec_meshes().len()),
            final(self).spec_meshes() == old(self).spec_meshes().push(mesh),
            final(self).spec_index_counts() == old(self).spec_index_counts().push(
                indices_len as u32,
            ),
            final(self).spec_transforms() == old(self).spec_transforms().push(transforms),
            final(self).spec_mesh_sizes() == old(self).spec_mesh_sizes().push(size),
            final(self).spec_primitives().len() == old(self).spec_primitives().len() + 1,
            final(self).spec_primitives().subrange(0, old(self).spec_primitives().len() as int)
                == old(self).spec_primitives(),
            final(self).spec_primitives().last().primitives().subrange(
                0,
                primitives@.len() as int,
            ) == primitives@,
            forall|i: int|
                primitives@.len() <= i < PRIMITIVES_PER_MESH ==> #[trigger] final(self).spec_primitives().last().primitives()[i]
                    == zero_primitive(),
            final(self).spec_primitives().last().primitives().len() == PRIMITIVES_PER_MESH,
            final(self).spec_storage() == old(self).spec_storage(),
    {
        let bucket = GPUPrimitivesBuck::pack(primitives);
        self.transforms.push(transforms);
        self.primitives.push(bucket);
        self.mesh_sizes.push(size);
        let count = self.primitives.len();
        let sizes = StorageByteSizes {
            primitives: bytes_of(count, core::mem::size_of::<GPUPrimitivesBuck>()),
            transforms: bytes_of(count, core::mem::size_of::<TB>()),
            mesh_sizes: bytes_of(count, core::mem::size_of::<S>()),
        };
        self.indices_lens.push(#[verifier::truncate] (indices_len as u32));
        self.meshes.push(mesh);
        let id = Mesh2DId { value: self.meshes.len() - 1 };
        proof {
            assert(self.primitives@.subrange(0, old(self).primitives@.len() as int)
                =~= old(self).primitives@);
        }
        (id, sizes)
    }

    /// The mesh and the draw of instance `instance_id`: every index of its
    /// mesh, for its one instance.
    pub fn render(&self, instance_id: Mesh2DInstanceId) -> (r: (&M, MeshDraw))
        requires
            self.wf(),
            instance_id.mesh_id.value < self.spec_meshes().len(),
            instance_id.value < u32::MAX,
        ensures
            *r.0 == self.spec_meshes()[instance_id.mesh_id.value as int],
            r.1 == (MeshDraw {
                index_count: self.spec_index_counts()[instance_id.mesh_id.value as int],
                first_instance: instance_id.value,
                end_instance: (instance_id.value + 1) as u32,
            }),
    {
        let idx = instance_id.mesh_id.value;
        let draw = MeshDraw {
            index_count: self.indices_lens[idx],
            first_instance: instance_id.value,
            end_instance: instance_id.value + 1,
        };
        (&self.meshes[idx], draw)
    }
}

} // verus!
