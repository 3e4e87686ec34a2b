//! GPU-side storage of meshlet meshes: four growable buffers (vertices,
//! meshlet vertex indices, triangle indices, meshlets) and, per uploaded
//! mesh, the byte ranges it occupies in each.

use std::collections::HashMap;
use std::ops::Range;
use vstd::prelude::*;
use crate::gpu_buffer::{disjoint, grown_end, GpuBuffer};
use crate::handle::{handle_id_of, ResourceHandle};
use crate::mesh::{
    enc_meshlets, enc_u32s, enc_u8s, enc_vertices, push_meshlets, push_u32s, push_u8s,
    push_vertices, Meshlet, MeshletMesh,
};
use vstd::string::StringSliceAdditionalSpecFns;
use vstd::utf8::encode_utf8;

verus! {

broadcast use vstd::std_specs::hash::group_hash_axioms;

/// Size in bytes of a vertex record on the GPU.
pub const VERTEX_BYTES: u64 = 12;

/// Size in bytes of a meshlet record on the GPU.
pub const MESHLET_BYTES: u64 = 56;

/// `x + y` modulo `2^32`.
pub open spec fn wrap_add(x: u32, y: u32) -> u32 {
    ((x + y) % 0x1_0000_0000) as u32
}

/// `x + y` modulo `2^32`.
pub fn wrapping_add(x: u32, y: u32) -> (r: u32)
    ensures
        r == wrap_add(x, y),
{
    let s = x as u64 + y as u64;
    if s >= 0x1_0000_0000 {
        (s - 0x1_0000_0000) as u32
    } else {
        s as u32
    }
}

/// The byte ranges a mesh occupies in the four buffers.
pub struct MeshSlices {
    pub vertices: Range<u64>,
    pub vertex_indices: Range<u64>,
    pub indices: Range<u64>,
    pub meshlets: Range<u64>,
}

/// The range as a pair of integers.
pub open spec fn pair(r: Range<u64>) -> (u64, u64) {
    (r.start, r.end)
}

/// The meshlet vertex indices of an uploaded mesh, moved to where its
/// vertices start in the vertex buffer.
pub open spec fn shifted_indices(ids: Seq<u32>, base: u32) -> Seq<u32> {
    ids.map_values(|i: u32| wrap_add(i, base))
}

/// The meshlets of an uploaded mesh, their vertex and triangle offsets moved
/// to where the mesh's vertex indices and triangle indices start.
pub open spec fn shifted_meshlets(ms: Seq<Meshlet>, dv: u32, dt: u32) -> Seq<Meshlet> {
    ms.map_values(
        |m: Meshlet|
            Meshlet {
                vertex_offset: wrap_add(m.vertex_offset, dv),
                index_offset: wrap_add(m.index_offset, dt),
                ..m
            },
    )
}

/// GPU storage of the meshlet meshes of a scene.
pub struct MeshletStorage {
    pub vertices: GpuBuffer,
    pub vertex_indices: GpuBuffer,
    pub indices: GpuBuffer,
    pub meshlets: GpuBuffer,
    meshlet_mesh_slices: HashMap<u64, MeshSlices>,
}

impl MeshletStorage {
    /// The vertex buffer.
    pub closed spec fn vertex_buffer(&self) -> GpuBuffer {
        self.vertices
    }

    /// The buffer of meshlet vertex indices.
    pub closed spec fn vertex_index_buffer(&self) -> GpuBuffer {
        self.vertex_indices
    }

    /// The buffer of meshlet triangle indices.
    pub closed spec fn index_buffer(&self) -> GpuBuffer {
        self.indices
    }

    /// The meshlet buffer.
    pub closed spec fn meshlet_buffer(&self) -> GpuBuffer {
        self.meshlets
    }

    /// The ranges of each uploaded mesh, by mesh handle id.
    pub closed spec fn slices(&self) -> Map<u64, MeshSlices> {
        self.meshlet_mesh_slices@
    }

    /// Finitely many meshes are stored, the buffers are well formed, each
    /// uploaded mesh's ranges are in use in the buffers, and the ranges of two
    /// meshes never share a byte.
    pub closed spec fn wf(&self) -> bool {
        let m = self.meshlet_mesh_slices@;
        &&& m.dom().finite()
        &&& self.vertices.wf()
        &&& self.vertex_indices.wf()
        &&& self.indices.wf()
        &&& self.meshlets.wf()
        &&& forall|h: u64|
            #[trigger] m.contains_key(h) ==> {
                &&& self.vertices.live().contains(pair(m[h].vertices))
                &&& self.vertex_indices.live().contains(pair(m[h].vertex_indices))
                &&& self.indices.live().contains(pair(m[h].indices))
                &&& self.meshlets.live().contains(pair(m[h].meshlets))
            }
        &&& forall|h1: u64, h2: u64|
            #![trigger m.contains_key(h1), m.contains_key(h2)]
            m.contains_key(h1) && m.contains_key(h2) && h1 != h2 ==> slices_apart(m[h1], m[h2])
    }

    /// Empty storage.
    pub fn new() -> (s: Self)
        ensures
            s.wf(),
            s.slices() == Map::<u64, MeshSlices>::empty(),
    {
        MeshletStorage {
            vertices: GpuBuffer::new(Some("meshlet_vertices")),
            vertex_indices: GpuBuffer::new(Some("meshlet_vertex_indices")),
            indices: GpuBuffer::new(Some("meshlet_indices")),
            meshlets: GpuBuffer::new(Some("meshlets")),
            meshlet_mesh_slices: HashMap::new(),
        }
    }

    /// The number of meshes uploaded.
    pub fn meshlet_count(&self) -> (n: usize)
        ensures
            n == self.slices().len(),
    {
        self.meshlet_mesh_slices.len()
    }
}

/// The ranges of two meshes share no byte in any buffer.
pub open spec fn slices_apart(a: MeshSlices, b: MeshSlices) -> bool {
    &&& disjoint(pair(a.vertices), pair(b.vertices))
    &&& disjoint(pair(a.vertex_indices), pair(b.vertex_indices))
    &&& disjoint(pair(a.indices), pair(b.indices))
    &&& disjoint(pair(a.meshlets), pair(b.meshlets))
}

/// The handle id under which a mesh named `name` is stored.
pub open spec fn mesh_key(name: Seq<char>) -> u64 {
    handle_id_of(encode_utf8(name)) as u64
}

/// The meshlet vertex indices moved by `base`.
fn shift_indices(ids: &Vec<u32>, base: u32) -> (r: Vec<u32>)
    ensures
        r@ == shifted_indices(ids@, base),
{
    let mut r: Vec<u32> = Vec::new();
    let mut i: usize = 0;
    while i < ids.len()
        invariant
            i <= ids@.len(),
            r@.len() == i,
            forall|j: int| 0 <= j < i ==> r@[j] == wrap_add(ids@[j], base),
        decreases ids@.len() - i,
    {
        r.push(wrapping_add(ids[i], base));
        i = i + 1;
    }
    assert(r@ =~= shifted_indices(ids@, base));
    r
}

/// The meshlets with their vertex offsets moved by `dv` and their triangle
/// offsets moved by `dt`.
fn shift_meshlets(ms: &Vec<Meshlet>, dv: u32, dt: u32) -> (r: Vec<Meshlet>)
    ensures
        r@ == shifted_meshlets(ms@, dv, dt),
{
    let mut r: Vec<Meshlet> = Vec::new();
    let mut i: usize = 0;
    while i < ms.len()
        invariant
            i <= ms@.len(),
            r@.len() == i,
            forall|j: int|
                0 <= j < i ==> r@[j] == (Meshlet {
                    vertex_offset: wrap_add(ms@[j].vertex_offset, dv),
                    index_offset: wrap_add(ms@[j].index_offset, dt),
                    ..ms@[j]
                }),
        decreases ms@.len() - i,
    {
        let m = ms[i];
        r.push(
            Meshlet {
                vertex_offset: wrapping_add(m.vertex_offset, dv),
                index_offset: wrapping_add(m.index_offset, dt),
                ..m
            },
        );
        i = i + 1;
    }
    assert(r@ =~= shifted_meshlets(ms@, dv, dt));
    r
}

/// Law: moving meshlet vertex indices by `base` adds `base` to each, modulo
/// `2^32`, and keeps their number.
pub proof fn lemma_indices_moved(ids: Seq<u32>, base: u32)
    ensures
        shifted_indices(ids, base).len() == ids.len(),
        forall|i: int|
            0 <= i < ids.len() ==> #[trigger] shifted_indices(ids, base)[i] as int == (ids[i] + base)
                % 0x1_0000_0000,
{
}

/// Law: moving meshlets by `dv` and `dt` adds `dv` to each vertex offset and
/// `dt` to each index offset, modulo `2^32`, and keeps every other field and
/// their number.
pub proof fn lemma_meshlets_moved(ms: Seq<Meshlet>, dv: u32, dt: u32)
    ensures
        shifted_meshlets(ms, dv, dt).len() == ms.len(),
        forall|i: int|
            0 <= i < ms.len() ==> {
                let x = #[trigger] shifted_meshlets(ms, dv, dt)[i];
                &&& x.vertex_offset as int == (ms[i].vertex_offset + dv) % 0x1_0000_0000
                &&& x.index_offset as int == (ms[i].index_offset + dt) % 0x1_0000_0000
                &&& x.attribute_offset == ms[i].attribute_offset
                &&& x.vertex_count == ms[i].vertex_count
                &&& x.index_count == ms[i].index_count
                &&& x.cull_data == ms[i].cull_data
            },
{
}

/// A buffer can take `n` more bytes: `n` is not zero, and the buffer, grown
/// for them, still spans no more bytes than a `u64` counts.
pub open spec fn room_for(b: GpuBuffer, n: int) -> bool {
    0 < n <= u64::MAX / 2 && grown_end(b.bounds().1 as int, n) <= u64::MAX
}

impl MeshletStorage {
    /// Queues the arrays of `mesh` for upload, unless a mesh of the same
    /// name is stored already, and gives the index of the mesh's first
    /// meshlet in the meshlet buffer.
    ///
    /// A new mesh gets a range in each buffer. Its meshlet vertex indices are
    /// moved to where its vertices start, and its meshlets to where its
    /// vertex indices and triangle indices start; `mesh.meshlet_offset` is
    /// set to where its meshlets start. A mesh stored already changes
    /// nothing, and its `meshlet_offset` is given back as it stands.
    pub fn queue_upload(&mut self, mesh: &mut MeshletMesh) -> (offset: u32)
        requires
            old(self).wf(),
            !old(self).slices().contains_key(mesh_key(old(mesh).name@)) ==> can_take(
                *old(self),
                old(mesh).data(),
            ),
        ensures
            final(self).wf(),
            ({
                let key = mesh_key(old(mesh).name@);
                if old(self).slices().contains_key(key) {
                    &&& *final(self) == *old(self)
                    &&& *final(mesh) == *old(mesh)
                    &&& offset == old(mesh).meshlet_offset
                } else {
                    let s = final(self).slices()[key];
                    let m = old(mesh).data();
                    &&& final(self).slices() == old(self).slices().insert(key, s)
                    &&& final(self).slices().len() == old(self).slices().len() + 1
                    &&& old(self).vertex_buffer().queued_as(
                        final(self).vertex_buffer(),
                        enc_vertices(m.vertex_positions),
                        pair(s.vertices),
                    )
                    &&& old(self).vertex_index_buffer().queued_as(
                        final(self).vertex_index_buffer(),
                        enc_u32s(
                            shifted_indices(
                                m.meshlet_vertex_indices,
                                (s.vertices.start / VERTEX_BYTES) as u32,
                            ),
                        ),
                        pair(s.vertex_indices),
                    )
                    &&& old(self).index_buffer().queued_as(
                        final(self).index_buffer(),
                        enc_u8s(m.meshlet_indices),
                        pair(s.indices),
                    )
                    &&& old(self).meshlet_buffer().queued_as(
                        final(self).meshlet_buffer(),
                        enc_meshlets(
                            shifted_meshlets(
                                m.meshlets,
                                (s.vertex_indices.start / 4) as u32,
                                s.indices.start as u32,
                            ),
                        ),
                        pair(s.meshlets),
                    )
                    &&& exists|ids: Seq<u32>| #[trigger]
                        enc_u32s(ids) == final(self).vertex_index_buffer().pending().last().0 && ids.len()
                            == m.meshlet_vertex_indices.len() && forall|i: int|
                            0 <= i < ids.len() ==> #[trigger] ids[i] as int == (m.meshlet_vertex_indices[i]
                                + (s.vertices.start / VERTEX_BYTES) as u32) % 0x1_0000_0000
                    &&& exists|ms: Seq<Meshlet>| #[trigger]
                        enc_meshlets(ms) == final(self).meshlet_buffer().pending().last().0 && ms.len()
                            == m.meshlets.len() && forall|i: int|
                            0 <= i < ms.len() ==> {
                                &&& (#[trigger] ms[i]).vertex_offset as int == (m.meshlets[i].vertex_offset
                                    + (s.vertex_indices.start / 4) as u32) % 0x1_0000_0000
                                &&& ms[i].index_offset as int == (m.meshlets[i].index_offset
                                    + s.indices.start as u32) % 0x1_0000_0000
                                &&& ms[i].attribute_offset == m.meshlets[i].attribute_offset
                                &&& ms[i].vertex_count == m.meshlets[i].vertex_count
                                &&& ms[i].index_count == m.meshlets[i].index_count
                                &&& ms[i].cull_data == m.meshlets[i].cull_data
                            }
                    &&& offset == (s.meshlets.start / MESHLET_BYTES) as u32
                    &&& final(mesh).meshlet_offset == offset
                    &&& final(mesh).name@ == old(mesh).name@
                    &&& final(mesh).data() == m
                }
            }),
    {
        let key = ResourceHandle::<MeshletMesh>::from_str(mesh.name.as_str()).id();
        if self.meshlet_mesh_slices.contains_key(&key) {
            return mesh.meshlet_offset;
        }
        let ghost old_self = *self;
        proof {
            crate::mesh::lemma_enc_sizes(mesh.data());
        }
        let mut vertex_bytes: Vec<u8> = Vec::new();
        push_vertices(&mut vertex_bytes, &mesh.vertex_positions);
        let vertices_slice = self.vertices.queue_write(vertex_bytes);

        let shifted = shift_indices(&mesh.meshlet_vertex_indices, (vertices_slice.start / VERTEX_BYTES) as u32);
        let mut index_bytes: Vec<u8> = Vec::new();
        push_u32s(&mut index_bytes, &shifted);
        let vertex_indices_slice = self.vertex_indices.queue_write(index_bytes);

        let mut triangle_bytes: Vec<u8> = Vec::new();
        push_u8s(&mut triangle_bytes, &mesh.meshlet_indices);
        let indices_slice = self.indices.queue_write(triangle_bytes);

        let moved = shift_meshlets(
            &mesh.meshlets,
            (vertex_indices_slice.start / 4) as u32,
            indices_slice.start as u32,
        );
        let mut meshlet_bytes: Vec<u8> = Vec::new();
        push_meshlets(&mut meshlet_bytes, &moved);
        let meshlets_slice = self.meshlets.queue_write(meshlet_bytes);

        mesh.meshlet_offset = (meshlets_slice.start / MESHLET_BYTES) as u32;
        let slices = MeshSlices {
            vertices: vertices_slice,
            vertex_indices: vertex_indices_slice,
            indices: indices_slice,
            meshlets: meshlets_slice,
        };
        let ghost s = slices;
        proof {
            let ids = shifted_indices(mesh.meshlet_vertex_indices@, (s.vertices.start / VERTEX_BYTES) as u32);
            lemma_indices_moved(mesh.meshlet_vertex_indices@, (s.vertices.start / VERTEX_BYTES) as u32);
            assert(enc_u32s(ids) == self.vertex_indices.pending().last().0);
            let ms = shifted_meshlets(mesh.meshlets@, (s.vertex_indices.start / 4) as u32, s.indices.start as u32);
            lemma_meshlets_moved(mesh.meshlets@, (s.vertex_indices.start / 4) as u32, s.indices.start as u32);
            assert(enc_meshlets(ms) == self.meshlets.pending().last().0);
        }
        self.meshlet_mesh_slices.insert(key, slices);
        proof {
            let m = self.meshlet_mesh_slices@;
            let om = old_self.meshlet_mesh_slices@;
            assert(m == om.insert(key, s));
            assert forall|h: u64| #[trigger] m.contains_key(h) implies {
                &&& self.vertices.live().contains(pair(m[h].vertices))
                &&& self.vertex_indices.live().contains(pair(m[h].vertex_indices))
                &&& self.indices.live().contains(pair(m[h].indices))
                &&& self.meshlets.live().contains(pair(m[h].meshlets))
            } by {
                if h != key {
                    assert(om.contains_key(h));
                }
            }
            assert forall|h1: u64, h2: u64|
                #![trigger m.contains_key(h1), m.contains_key(h2)]
                m.contains_key(h1) && m.contains_key(h2) && h1 != h2 implies slices_apart(m[h1], m[h2]) by {
                if h1 == key {
                    assert(om.contains_key(h2));
                    assert(old_self.vertices.live().contains(pair(om[h2].vertices)));
                    assert(old_self.vertex_indices.live().contains(pair(om[h2].vertex_indices)));
                    assert(old_self.indices.live().contains(pair(om[h2].indices)));
                    assert(old_self.meshlets.live().contains(pair(om[h2].meshlets)));
                } else if h2 == key {
                    assert(om.contains_key(h1));
                    assert(old_self.vertices.live().contains(pair(om[h1].vertices)));
                    assert(old_self.vertex_indices.live().contains(pair(om[h1].vertex_indices)));
                    assert(old_self.indices.live().contains(pair(om[h1].indices)));
                    assert(old_self.meshlets.live().contains(pair(om[h1].meshlets)));
                } else {
                    assert(om.contains_key(h1) && om.contains_key(h2));
                }
            }
        }
        mesh.meshlet_offset
    }
}

impl MeshletStorage {
    /// Drops the mesh with the handle's id, giving its ranges back to the
    /// four buffers; a handle of no stored mesh changes nothing.
    pub fn remove(&mut self, handle: ResourceHandle<MeshletMesh>)
        requires
            old(self).wf(),
        ensures
            final(self).wf(),
            final(self).slices() == old(self).slices().remove(handle.spec_id()),
            ({
                let id = handle.spec_id();
                if old(self).slices().contains_key(id) {
                    let s = old(self).slices()[id];
                    &&& old(self).vertex_buffer().released_as(final(self).vertex_buffer(), pair(s.vertices))
                    &&& old(self).vertex_index_buffer().released_as(
                        final(self).vertex_index_buffer(),
                        pair(s.vertex_indices),
                    )
                    &&& old(self).index_buffer().released_as(final(self).index_buffer(), pair(s.indices))
                    &&& old(self).meshlet_buffer().released_as(final(self).meshlet_buffer(), pair(s.meshlets))
                } else {
                    *final(self) == *old(self)
                }
            }),
    {
        let id = handle.id();
        if !self.meshlet_mesh_slices.contains_key(&id) {
            return;
        }
        let ghost old_self = *self;
        let removed = self.meshlet_mesh_slices.remove(&id);
        match removed {
            Some(s) => {
                proof {
                    assert(old_self.vertices.live().contains(pair(s.vertices)));
                }
                self.vertices.mark_slice_unused(s.vertices);
                self.vertex_indices.mark_slice_unused(s.vertex_indices);
                self.indices.mark_slice_unused(s.indices);
                self.meshlets.mark_slice_unused(s.meshlets);
                proof {
                    let m = self.meshlet_mesh_slices@;
                    let om = old_self.meshlet_mesh_slices@;
                    assert forall|h: u64| #[trigger] m.contains_key(h) implies {
                        &&& self.vertices.live().contains(pair(m[h].vertices))
                        &&& self.vertex_indices.live().contains(pair(m[h].vertex_indices))
                        &&& self.indices.live().contains(pair(m[h].indices))
                        &&& self.meshlets.live().contains(pair(m[h].meshlets))
                    } by {
                        assert(om.contains_key(h) && om.contains_key(id) && h != id);
                        assert(slices_apart(om[h], om[id]));
                        assert(old_self.vertices.live().contains(pair(om[h].vertices)));
                        assert(old_self.vertex_indices.live().contains(pair(om[h].vertex_indices)));
                        assert(old_self.indices.live().contains(pair(om[h].indices)));
                        assert(old_self.meshlets.live().contains(pair(om[h].meshlets)));
                        old_self.vertices.lemma_live_range(pair(om[h].vertices));
                        old_self.vertex_indices.lemma_live_range(pair(om[h].vertex_indices));
                        old_self.indices.lemma_live_range(pair(om[h].indices));
                        old_self.meshlets.lemma_live_range(pair(om[h].meshlets));
                    }
                    assert forall|h1: u64, h2: u64|
                        #![trigger m.contains_key(h1), m.contains_key(h2)]
                        m.contains_key(h1) && m.contains_key(h2) && h1 != h2 implies slices_apart(
                        m[h1],
                        m[h2],
                    ) by {
                        assert(om.contains_key(h1) && om.contains_key(h2));
                    }
                }
            },
            None => {},
        }
    }

    /// The bytes the four buffers span together.
    pub fn report_memory(&self) -> (total: u64)
        requires
            self.wf(),
            self.vertex_buffer().bounds().1 + self.vertex_index_buffer().bounds().1
                + self.index_buffer().bounds().1 + self.meshlet_buffer().bounds().1 <= u64::MAX,
        ensures
            total == self.vertex_buffer().bounds().1 + self.vertex_index_buffer().bounds().1
                + self.index_buffer().bounds().1 + self.meshlet_buffer().bounds().1,
    {
        let mut total: u64 = 0;
        total = total + self.vertices.size_in_bytes();
        total = total + self.vertex_indices.size_in_bytes();
        total = total + self.indices.size_in_bytes();
        total = total + self.meshlets.size_in_bytes();
        total
    }
}

/// The four buffers of `s` can take the arrays of `m` within their byte
/// range: each array is non-empty, and each buffer, grown for it, still
/// spans no more bytes than a `u64` counts.
pub open spec fn can_take(s: MeshletStorage, m: crate::mesh::MeshData) -> bool {
    &&& room_for(s.vertex_buffer(), VERTEX_BYTES * m.vertex_positions.len() as int)
    &&& room_for(s.vertex_index_buffer(), 4 * m.meshlet_vertex_indices.len() as int)
    &&& room_for(s.index_buffer(), m.meshlet_indices.len() as int)
    &&& room_for(s.meshlet_buffer(), MESHLET_BYTES * m.meshlets.len() as int)
}

/// Whether `bytes` more bytes fit a buffer spanning `size` bytes.
fn room(size: u64, bytes: u128) -> (b: bool)
    requires
        bytes <= u64::MAX * 64,
    ensures
        b == (0 < bytes <= u64::MAX / 2 && grown_end(size as int, bytes as int) <= u64::MAX),
{
    let double = 2 * (size as u128);
    let growth = if double > bytes {
        double
    } else {
        bytes
    };
    0 < bytes && bytes <= (u64::MAX / 2) as u128 && (size as u128) + growth <= u64::MAX as u128
}

impl MeshletStorage {
    /// Whether the buffers can take the arrays of `mesh`.
    pub fn has_room_for(&self, mesh: &MeshletMesh) -> (b: bool)
        requires
            self.wf(),
        ensures
            b == can_take(*self, mesh.data()),
    {
        let v = room(self.vertices.size_in_bytes(), 12 * mesh.vertex_positions.len() as u128);
        let vi = room(self.vertex_indices.size_in_bytes(), 4 * mesh.meshlet_vertex_indices.len() as u128);
        let t = room(self.indices.size_in_bytes(), mesh.meshlet_indices.len() as u128);
        let ml = room(self.meshlets.size_in_bytes(), 56 * mesh.meshlets.len() as u128);
        v && vi && t && ml
    }
}

/// Law: uploading a mesh that was not stored and then removing it by its
/// handle leaves the stored meshes as they were.
pub proof fn lemma_upload_then_remove(stored: Map<u64, MeshSlices>, key: u64, s: MeshSlices)
    requires
        !stored.contains_key(key),
    ensures
        stored.insert(key, s).remove(key) == stored,
{
    assert(stored.insert(key, s).remove(key) =~= stored);
}

/// Law: two meshes in the storage never share a byte of any buffer, and
/// each one's ranges are in use in their buffers.
pub proof fn lemma_stored_meshes_apart(s: MeshletStorage, h1: u64, h2: u64)
    requires
        s.wf(),
        s.slices().contains_key(h1),
        s.slices().contains_key(h2),
        h1 != h2,
    ensures
        slices_apart(s.slices()[h1], s.slices()[h2]),
        s.vertex_buffer().live().contains(pair(s.slices()[h1].vertices)),
        s.vertex_index_buffer().live().contains(pair(s.slices()[h1].vertex_indices)),
        s.index_buffer().live().contains(pair(s.slices()[h1].indices)),
        s.meshlet_buffer().live().contains(pair(s.slices()[h1].meshlets)),
{
}

/// Law: the storage holds finitely many meshes, so an upload of a new name
/// raises `meshlet_count` by one.
pub proof fn lemma_stored_meshes_finite(s: MeshletStorage)
    requires
        s.wf(),
    ensures
        s.slices().dom().finite(),
{
}

} // verus!
