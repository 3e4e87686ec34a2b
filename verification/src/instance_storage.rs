//! Mesh instances of a scene, kept in a dense slot map, and the per-instance
//! arrays the culling shaders read, rebuilt from them in slot-map order.
//!
//! Transforms are held as the bit patterns of their floats; the caller turns
//! each instance's pair of transforms into its GPU uniform.

use std::collections::HashSet;
use slotmap::{DefaultKey, DenseSlotMap, Key, KeyData};
use vstd::prelude::*;
use crate::handle::ResourceHandle;
use crate::mesh::{Aabb, MeshletMesh, Vec3Bits};

verus! {

broadcast use vstd::std_specs::hash::group_hash_axioms;

/// The dense slot map the instances live in, keyed by the slot map's
/// default keys.
#[verifier::external_body]
pub struct InstanceSlots {
    map: DenseSlotMap<DefaultKey, Instance>,
}

/// A rotation quaternion as the bit patterns of its four floats.
#[derive(Clone, Copy, Debug, PartialEq, Eq, Structural)]
pub struct QuatBits {
    pub x: u32,
    pub y: u32,
    pub z: u32,
    pub w: u32,
}

/// A transform (translation, rotation, scale) as the bit patterns of its
/// floats.
#[derive(Clone, Copy, Debug, PartialEq, Eq, Structural)]
pub struct TransformBits {
    pub translation: Vec3Bits,
    pub rotation: QuatBits,
    pub scale: Vec3Bits,
}

/// A placed meshlet mesh: its transform now and in the frame before, its
/// bounds, where its meshlets lie in the meshlet buffer and how many there
/// are, and its material (by handle id and by index in the material array).
#[derive(Clone, Copy)]
pub struct Instance {
    pub transform: TransformBits,
    pub previous_transform: TransformBits,
    pub aabb: Aabb,
    pub meshlet_mesh: ResourceHandle<MeshletMesh>,
    pub meshlet_offset: u32,
    pub meshlet_count: u32,
    pub material: u64,
    pub material_id: u32,
}

impl Instance {
    /// An instance that has not moved since the frame before.
    pub fn new(
        transform: TransformBits,
        aabb: Aabb,
        meshlet_mesh_handle: ResourceHandle<MeshletMesh>,
        meshlet_offset: u32,
        meshlet_count: u32,
        material_handle: u64,
        material_id: u32,
    ) -> (i: Self)
        ensures
            i.transform == transform,
            i.previous_transform == transform,
            i.aabb == aabb,
            i.meshlet_mesh == meshlet_mesh_handle,
            i.meshlet_offset == meshlet_offset,
            i.meshlet_count == meshlet_count,
            i.material == material_handle,
            i.material_id == material_id,
    {
        Instance {
            transform,
            previous_transform: transform,
            aabb,
            meshlet_mesh: meshlet_mesh_handle,
            meshlet_offset,
            meshlet_count,
            material: material_handle,
            material_id,
        }
    }
}

/// Name for the entries of a dense slot map of instances, in its dense
/// order: each key (in its 64-bit FFI form) with its instance.
pub uninterp spec fn slot_entries(m: InstanceSlots) -> Seq<(u64, Instance)>;

/// Calls `DenseSlotMap::new`, which makes an empty map.
#[verifier::external_body]
fn slots_new() -> (m: InstanceSlots)
    ensures
        slot_entries(m) == Seq::<(u64, Instance)>::empty(),
{
    InstanceSlots { map: DenseSlotMap::new() }
}

/// Calls `DenseSlotMap::insert`, which stores `value` after the others under
/// a key no live entry has, and gives that key (in FFI form). It panics once
/// the map holds 2^32 - 2 entries, which `requires` leaves out.
#[verifier::external_body]
fn slots_insert(m: &mut InstanceSlots, value: Instance) -> (k: u64)
    requires
        slot_entries(*old(m)).len() + 2 < 0xffff_ffff,
    ensures
        slot_entries(*final(m)) == slot_entries(*old(m)).push((k, value)),
        forall|j: int|
            0 <= j < slot_entries(*old(m)).len() ==> (#[trigger] slot_entries(*old(m))[j]).0 != k,
{
    m.map.insert(value).data().as_ffi()
}

/// Calls `DenseSlotMap::get` with the key whose FFI form is `key`: the
/// instance stored under that key. For a number that is no live key's FFI
/// form the crate leaves open which entry, if any, comes back.
#[verifier::external_body]
fn slots_get(m: &InstanceSlots, key: u64) -> (r: Option<&Instance>)
    ensures
        forall|j: int|
            0 <= j < slot_entries(*m).len() && (#[trigger] slot_entries(*m)[j]).0 == key ==> r == Some(
                &slot_entries(*m)[j].1,
            ),
{
    m.map.get(DefaultKey::from(KeyData::from_ffi(key)))
}

/// Calls `DenseSlotMap::values`, and copies the instances out in the order
/// it hands them (the dense order).
#[verifier::external_body]
fn slots_values(m: &InstanceSlots) -> (v: Vec<Instance>)
    ensures
        v@ == slot_entries(*m).map_values(|e: (u64, Instance)| e.1),
{
    m.map.values().copied().collect()
}

/// Calls `DenseSlotMap::len`, the number of entries.
#[verifier::external_body]
fn slots_len(m: &InstanceSlots) -> (n: usize)
    ensures
        n == slot_entries(*m).len(),
{
    m.map.len()
}

/// The sum of the meshlet counts of `s`.
pub open spec fn meshlet_sum(s: Seq<Instance>) -> nat
    decreases s.len(),
{
    if s.len() == 0 {
        0
    } else {
        meshlet_sum(s.drop_last()) + s.last().meshlet_count as nat
    }
}

/// Bytes of one instance's GPU uniform (two 3x4 matrices and the inverse
/// transpose of its 3x3 part, padded).
pub const MESH_UNIFORM_BYTES: u64 = 144;

/// Bytes of one instance's bounds on the GPU.
pub const AABB_BYTES: u64 = 24;

/// The instances of a scene and the per-instance arrays built from them.
pub struct InstanceStorage {
    pub scene_instance_count: u32,
    instances: InstanceSlots,
    pub instance_transforms: Vec<(TransformBits, TransformBits)>,
    pub instance_aabbs: Vec<Aabb>,
    pub instance_meshlet_offsets: Vec<u32>,
    pub instance_meshlet_counts: Vec<u32>,
    pub instance_material_ids: Vec<u32>,
    pub materials_in_scene: HashSet<u64>,
}

impl InstanceStorage {
    /// The number of instances counted at the last rebuild.
    pub closed spec fn instance_count(&self) -> u32 {
        self.scene_instance_count
    }

    /// Each instance's transforms, now and in the frame before.
    pub closed spec fn transforms(&self) -> Seq<(TransformBits, TransformBits)> {
        self.instance_transforms@
    }

    /// Each instance's bounds.
    pub closed spec fn aabbs(&self) -> Seq<Aabb> {
        self.instance_aabbs@
    }

    /// Where each instance's meshlets start in the meshlet buffer.
    pub closed spec fn meshlet_offsets(&self) -> Seq<u32> {
        self.instance_meshlet_offsets@
    }

    /// How many meshlets each instance has.
    pub closed spec fn meshlet_counts(&self) -> Seq<u32> {
        self.instance_meshlet_counts@
    }

    /// Each instance's material index.
    pub closed spec fn material_ids(&self) -> Seq<u32> {
        self.instance_material_ids@
    }

    /// The material handle ids of the instances added.
    pub closed spec fn materials(&self) -> Set<u64> {
        self.materials_in_scene@
    }

    /// The instances with their keys, in slot-map order.
    pub closed spec fn entries(&self) -> Seq<(u64, Instance)> {
        slot_entries(self.instances)
    }

    /// The instances, in slot-map order.
    pub open spec fn spec_instances(&self) -> Seq<Instance> {
        self.entries().map_values(|e: (u64, Instance)| e.1)
    }

    /// No two instances share a key.
    pub open spec fn wf(&self) -> bool {
        forall|i: int, j: int|
            0 <= i < j < self.entries().len() ==> (#[trigger] self.entries()[i]).0
                != (#[trigger] self.entries()[j]).0
    }

    /// No instance, empty arrays, no material.
    pub fn new() -> (s: Self)
        ensures
            s.wf(),
            s.entries() == Seq::<(u64, Instance)>::empty(),
            s.instance_count() == 0,
            s.transforms() == Seq::<(TransformBits, TransformBits)>::empty(),
            s.aabbs() == Seq::<Aabb>::empty(),
            s.meshlet_offsets() == Seq::<u32>::empty(),
            s.meshlet_counts() == Seq::<u32>::empty(),
            s.material_ids() == Seq::<u32>::empty(),
            s.materials() == Set::<u64>::empty(),
    {
        InstanceStorage {
            scene_instance_count: 0,
            instances: slots_new(),
            instance_transforms: Vec::new(),
            instance_aabbs: Vec::new(),
            instance_meshlet_offsets: Vec::new(),
            instance_meshlet_counts: Vec::new(),
            instance_material_ids: Vec::new(),
            materials_in_scene: HashSet::new(),
        }
    }

    /// The number of instances counted at the last rebuild.
    pub fn counted_instances(&self) -> (n: u32)
        ensures
            n == self.instance_count(),
    {
        self.scene_instance_count
    }

    /// The instances, in slot-map order.
    pub fn iter(&self) -> (v: Vec<Instance>)
        ensures
            v@ == self.spec_instances(),
    {
        slots_values(&self.instances)
    }

    /// The instance under `handle` (a key in FFI form), if it is one.
    pub fn get(&self, handle: u64) -> (r: Option<&Instance>)
        requires
            self.wf(),
        ensures
            forall|j: int|
                0 <= j < self.entries().len() && (#[trigger] self.entries()[j]).0 == handle ==> r
                    == Some(&self.entries()[j].1),
    {
        slots_get(&self.instances, handle)
    }

    /// Adds an instance, noting its material as one in the scene, and gives
    /// its key in FFI form.
    pub fn add_instance(&mut self, instance: Instance) -> (handle: u64)
        requires
            old(self).wf(),
            old(self).entries().len() + 2 < 0xffff_ffff,
        ensures
            final(self).wf(),
            final(self).entries() == old(self).entries().push((handle, instance)),
            forall|j: int| 0 <= j < old(self).entries().len() ==> (#[trigger] old(self).entries()[j]).0 != handle,
            final(self).materials() == old(self).materials().insert(instance.material),
            final(self).instance_count() == old(self).instance_count(),
            final(self).transforms() == old(self).transforms(),
            final(self).aabbs() == old(self).aabbs(),
            final(self).meshlet_offsets() == old(self).meshlet_offsets(),
            final(self).meshlet_counts() == old(self).meshlet_counts(),
            final(self).material_ids() == old(self).material_ids(),
    {
        self.materials_in_scene.insert(instance.material);
        let handle = slots_insert(&mut self.instances, instance);
        proof {
            let e = self.entries();
            let o = old(self).entries();
            assert forall|i: int, j: int| 0 <= i < j < e.len() implies (#[trigger] e[i]).0 != (#[trigger] e[j]).0 by {
                if j < o.len() {
                    assert(e[i] == o[i] && e[j] == o[j]);
                } else {
                    assert(e[i] == o[i]);
                }
            }
        }
        handle
    }

    /// The meshlets of all instances together.
    pub fn count_clusters(&self) -> (n: usize)
        requires
            meshlet_sum(self.spec_instances()) <= u32::MAX,
        ensures
            n == meshlet_sum(self.spec_instances()),
    {
        let v = slots_values(&self.instances);
        let mut acc: u32 = 0;
        let mut i: usize = 0;
        proof {
            lemma_meshlet_sum_prefix(v@, v@.len() as int);
            assert(v@.take(v@.len() as int) =~= v@);
        }
        while i < v.len()
            invariant
                v@ == self.spec_instances(),
                i <= v@.len(),
                acc == meshlet_sum(v@.take(i as int)),
                meshlet_sum(v@) <= u32::MAX,
                forall|k: int| 0 <= k <= v@.len() ==> #[trigger] meshlet_sum(v@.take(k)) <= meshlet_sum(v@),
            decreases v@.len() - i,
        {
            proof {
                assert(v@.take(i as int + 1).drop_last() =~= v@.take(i as int));
                assert(meshlet_sum(v@.take(i as int + 1)) <= meshlet_sum(v@));
            }
            acc = v[i].meshlet_count + acc;
            i = i + 1;
        }
        assert(v@.take(i as int) =~= v@);
        acc as usize
    }

    /// Rebuilds the per-instance arrays from the instances, in slot-map
    /// order, and counts the instances.
    pub fn build_instance_buffers(&mut self)
        requires
            old(self).wf(),
        ensures
            final(self).wf(),
            final(self).entries() == old(self).entries(),
            final(self).materials() == old(self).materials(),
            final(self).instance_count() == old(self).entries().len() as u32,
            final(self).transforms() == old(self).spec_instances().map_values(
                |i: Instance| (i.transform, i.previous_transform),
            ),
            final(self).aabbs() == old(self).spec_instances().map_values(|i: Instance| i.aabb),
            final(self).meshlet_offsets() == old(self).spec_instances().map_values(
                |i: Instance| i.meshlet_offset,
            ),
            final(self).meshlet_counts() == old(self).spec_instances().map_values(
                |i: Instance| i.meshlet_count,
            ),
            final(self).material_ids() == old(self).spec_instances().map_values(
                |i: Instance| i.material_id,
            ),
    {
        self.reset();
        let v = slots_values(&self.instances);
        let mut i: usize = 0;
        while i < v.len()
            invariant
                v@ == old(self).spec_instances(),
                self.entries() == old(self).entries(),
                self.materials_in_scene@ == old(self).materials(),
                i <= v@.len(),
                self.instance_transforms@ == v@.take(i as int).map_values(
                    |x: Instance| (x.transform, x.previous_transform),
                ),
                self.instance_aabbs@ == v@.take(i as int).map_values(|x: Instance| x.aabb),
                self.instance_meshlet_offsets@ == v@.take(i as int).map_values(|x: Instance| x.meshlet_offset),
                self.instance_meshlet_counts@ == v@.take(i as int).map_values(|x: Instance| x.meshlet_count),
                self.instance_material_ids@ == v@.take(i as int).map_values(|x: Instance| x.material_id),
            decreases v@.len() - i,
        {
            let instance = v[i];
            self.instance_transforms.push((instance.transform, instance.previous_transform));
            self.instance_aabbs.push(instance.aabb);
            self.instance_meshlet_offsets.push(instance.meshlet_offset);
            self.instance_meshlet_counts.push(instance.meshlet_count);
            self.instance_material_ids.push(instance.material_id);
            proof {
                let t = v@.take(i as int + 1);
                assert(t.drop_last() =~= v@.take(i as int));
                assert(self.instance_transforms@ =~= t.map_values(
                    |x: Instance| (x.transform, x.previous_transform),
                ));
                assert(self.instance_aabbs@ =~= t.map_values(|x: Instance| x.aabb));
                assert(self.instance_meshlet_offsets@ =~= t.map_values(|x: Instance| x.meshlet_offset));
                assert(self.instance_meshlet_counts@ =~= t.map_values(|x: Instance| x.meshlet_count));
                assert(self.instance_material_ids@ =~= t.map_values(|x: Instance| x.material_id));
            }
            i = i + 1;
        }
        assert(v@.take(i as int) =~= v@);
        let n = slots_len(&self.instances);
        self.scene_instance_count = n as u32;
    }

    fn reset(&mut self)
        ensures
            final(self).entries() == old(self).entries(),
            final(self).materials() == old(self).materials(),
            final(self).instance_count() == 0,
            final(self).transforms() == Seq::<(TransformBits, TransformBits)>::empty(),
            final(self).aabbs() == Seq::<Aabb>::empty(),
            final(self).meshlet_offsets() == Seq::<u32>::empty(),
            final(self).meshlet_counts() == Seq::<u32>::empty(),
            final(self).material_ids() == Seq::<u32>::empty(),
    {
        self.scene_instance_count = 0;
        self.instance_transforms.clear();
        self.instance_aabbs.clear();
        self.instance_meshlet_offsets.clear();
        self.instance_meshlet_counts.clear();
        self.instance_material_ids.clear();
    }

    /// The bytes the per-instance arrays take on the GPU.
    pub fn report_memory_device(&self) -> (n: u64)
        requires
            self.transforms().len() <= 0x1_0000_0000,
            self.aabbs().len() <= 0x1_0000_0000,
            self.meshlet_offsets().len() <= 0x1_0000_0000,
            self.meshlet_counts().len() <= 0x1_0000_0000,
            self.material_ids().len() <= 0x1_0000_0000,
        ensures
            n == MESH_UNIFORM_BYTES * self.transforms().len() + AABB_BYTES
                * self.aabbs().len() + 4 * (self.meshlet_offsets().len()
                + self.meshlet_counts().len() + self.material_ids().len()),
    {
        let mut total: u64 = 0;
        total = total + MESH_UNIFORM_BYTES * self.instance_transforms.len() as u64;
        total = total + AABB_BYTES * self.instance_aabbs.len() as u64;
        total = total + 4 * self.instance_meshlet_offsets.len() as u64;
        total = total + 4 * self.instance_meshlet_counts.len() as u64;
        total = total + 4 * self.instance_material_ids.len() as u64;
        total
    }
}

/// A prefix of a sequence of instances has no more meshlets than the whole.
proof fn lemma_meshlet_sum_prefix(s: Seq<Instance>, n: int)
    requires
        0 <= n <= s.len(),
    ensures
        forall|k: int| 0 <= k <= n ==> #[trigger] meshlet_sum(s.take(k)) <= meshlet_sum(s.take(n)),
    decreases n,
{
    if n > 0 {
        lemma_meshlet_sum_prefix(s, n - 1);
        assert(s.take(n).drop_last() =~= s.take(n - 1));
    }
    assert(s.take(n) =~= s.take(n));
    if n == s.len() {
        assert(s.take(n) =~= s);
    }
}

} // verus!
