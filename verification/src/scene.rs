//! A scene: its cameras (of the caller's type `C`), the asset registry, the
//! instances and the meshlet storage, and the steps of a frame that tie
//! them together.

use vstd::prelude::*;
use crate::asset_server::{
    grown, key_requested, process_asset_event, ready, ready_key, requested, same_mesh, uploaded_afresh,
    AssetServer, AssetState, DEFAULT_MATERIAL_ID,
};
use crate::handle::ResourceHandle;
use crate::instance_storage::{Instance, InstanceStorage};
use crate::mesh::MeshletMesh;
use crate::meshlet_storage::MeshletStorage;
use crate::render_plan::should_prepare;

verus! {

/// The scene.
pub struct Scene<C, T, M> {
    pub cameras: Vec<C>,
    pub asset_server: AssetServer<T, M>,
    pub instances: InstanceStorage,
    pub meshlets: MeshletStorage,
}

impl<C, T, M> Scene<C, T, M> {
    /// The default material is always ready, the instance keys are
    /// distinct, and the meshlet storage is well formed.
    pub open spec fn wf(&self) -> bool {
        &&& ready(self.asset_server.materials(), DEFAULT_MATERIAL_ID) is Some
        &&& self.instances.wf()
        &&& self.meshlets.wf()
    }

    /// A scene with no camera, no instance and no mesh, whose registry holds
    /// the given default textures and material.
    pub fn new(default_textures: Vec<(u64, T)>, default_material: M) -> (s: Self)
        ensures
            s.wf(),
            s.cameras@ == Seq::<C>::empty(),
            s.instances.entries() == Seq::<(u64, Instance)>::empty(),
            s.meshlets.slices() == Map::<u64, crate::meshlet_storage::MeshSlices>::empty(),
            s.asset_server.textures() == crate::asset_server::ready_map(default_textures@),
            s.asset_server.materials() == Map::<u64, AssetState<M>>::empty().insert(
                DEFAULT_MATERIAL_ID,
                AssetState::Ready(default_material),
            ),
    {
        Scene {
            cameras: Vec::new(),
            asset_server: AssetServer::new(default_textures, default_material),
            instances: InstanceStorage::new(),
            meshlets: MeshletStorage::new(),
        }
    }

    /// Adds a camera and gives its index.
    pub fn add_camera(&mut self, camera: C) -> (id: usize)
        requires
            old(self).wf(),
        ensures
            final(self).wf(),
            id == old(self).cameras@.len(),
            final(self).cameras@ == old(self).cameras@.push(camera),
            final(self).asset_server == old(self).asset_server,
            final(self).instances == old(self).instances,
            final(self).meshlets == old(self).meshlets,
    {
        let id = self.cameras.len();
        self.cameras.push(camera);
        id
    }

    /// The first camera added.
    pub fn main_camera(&self) -> (c: &C)
        requires
            self.cameras@.len() > 0,
        ensures
            *c == self.cameras@[0],
    {
        &self.cameras[0]
    }

    /// The instance under `handle` (a key in FFI form), if it is one.
    pub fn get_instance(&self, handle: u64) -> (r: Option<&Instance>)
        requires
            self.wf(),
        ensures
            forall|j: int|
                0 <= j < self.instances.entries().len() && (#[trigger] self.instances.entries()[j]).0
                    == handle ==> r == Some(&self.instances.entries()[j].1),
    {
        self.instances.get(handle)
    }

    /// The meshlet mesh ready under `id`, if any.
    pub fn get_meshlet_mesh(&self, id: ResourceHandle<MeshletMesh>) -> (r: Option<&MeshletMesh>)
        ensures
            match r {
                Some(v) => ready(self.asset_server.meshlets(), id.spec_id()) == Some(*v),
                None => ready(self.asset_server.meshlets(), id.spec_id()) is None,
            },
    {
        self.asset_server.get_meshlet(id)
    }

    /// The material ready under `id`, or else the default material.
    pub fn get_material(&self, id: ResourceHandle<M>) -> (r: &M)
        requires
            self.wf(),
        ensures
            Some(*r) == if ready(self.asset_server.materials(), id.spec_id()) is Some {
                ready(self.asset_server.materials(), id.spec_id())
            } else {
                ready(self.asset_server.materials(), DEFAULT_MATERIAL_ID)
            },
    {
        self.asset_server.get_material_with_default(id, ResourceHandle::new(DEFAULT_MATERIAL_ID))
    }

    /// Adds an instance to the scene and gives its key in FFI form.
    pub fn add_instance(&mut self, instance: Instance) -> (handle: u64)
        requires
            old(self).wf(),
            old(self).instances.entries().len() + 2 < 0xffff_ffff,
        ensures
            final(self).wf(),
            final(self).instances.entries() == old(self).instances.entries().push(
                (handle, instance),
            ),
            final(self).asset_server == old(self).asset_server,
            final(self).meshlets == old(self).meshlets,
            final(self).cameras@ == old(self).cameras@,
    {
        self.instances.add_instance(instance)
    }

    /// Handles the asset events not yet received (see `process_asset_event`):
    /// listeners of ready assets are dropped and ready meshes are uploaded,
    /// each freshly uploaded mesh taking the meshlet offset of its place.
    pub fn process_asset_event(&mut self)
        requires
            old(self).wf(),
            forall|i: int|
                0 <= i < old(self).asset_server.events().len() ==> ((#[trigger] old(self).asset_server.events()[i]) matches crate::asset_server::AssetEvent::MeshletReady(h)
                    ==> ready(old(self).asset_server.meshlets(), h.spec_id()) is Some),
        ensures
            final(self).wf(),
            final(self).asset_server.events() == Seq::<crate::asset_server::AssetEvent>::empty(),
            final(self).asset_server.materials() == old(self).asset_server.materials(),
            final(self).asset_server.textures() == old(self).asset_server.textures(),
            final(self).asset_server.meshlets().dom() == old(self).asset_server.meshlets().dom(),
            forall|k: u64| #[trigger] final(self).asset_server.meshlets().contains_key(k) ==> same_mesh(
                old(self).asset_server.meshlets()[k],
                final(self).asset_server.meshlets()[k],
            ),
            grown(old(self).meshlets, final(self).meshlets),
            forall|i: int|
                0 <= i < old(self).asset_server.events().len() ==> crate::asset_server::upload_done(
                    #[trigger] old(self).asset_server.events()[i],
                    old(self).asset_server.meshlets(),
                    final(self).meshlets,
                ),
            forall|key: u64| #[trigger]
                final(self).meshlets.slices().contains_key(key) ==> old(self).meshlets.slices().contains_key(key)
                    || key_requested(old(self).asset_server.events(), old(self).asset_server.meshlets(), key),
            forall|k: u64| #[trigger]
                final(self).asset_server.meshlets().contains_key(k) ==> final(self).asset_server.meshlets()[k]
                    == old(self).asset_server.meshlets()[k] || (requested(old(self).asset_server.events(), k)
                    && uploaded_afresh(
                    final(self).asset_server.meshlets(),
                    old(self).asset_server.meshlets(),
                    old(self).meshlets,
                    final(self).meshlets,
                    k,
                )),
            forall|key: u64| #[trigger]
                final(self).meshlets.slices().contains_key(key) && !old(self).meshlets.slices().contains_key(key)
                    ==> exists|k: u64| #[trigger]
                    final(self).asset_server.meshlets().contains_key(k) && ready_key(
                        old(self).asset_server.meshlets(),
                        k,
                    ) == key && uploaded_afresh(
                        final(self).asset_server.meshlets(),
                        old(self).asset_server.meshlets(),
                        old(self).meshlets,
                        final(self).meshlets,
                        k,
                    ),
            final(self).instances == old(self).instances,
            final(self).cameras@ == old(self).cameras@,
    {
        proof {
            let evs = self.asset_server.events();
            assert forall|i: int| 0 <= i < evs.len() implies ((#[trigger] evs[i]) matches crate::asset_server::AssetEvent::MeshletReady(h)
                ==> ready(self.asset_server.meshlets(), h.spec_id()) is Some) by {
                assert(old(self).asset_server.events()[i] == evs[i]);
            }
        }
        process_asset_event(&mut self.asset_server, &mut self.meshlets);
    }

    /// Whether there is anything to cull and draw: an instance counted at
    /// the last rebuild, and an uploaded mesh.
    pub fn prepare_meshlet_resources(&self) -> (b: bool)
        ensures
            b == (self.instances.instance_count() != 0 && self.meshlets.slices().len()
                != 0),
    {
        should_prepare(self.instances.counted_instances(), self.meshlets.meshlet_count())
    }

    /// Rebuilds the per-instance arrays (see `InstanceStorage::build_instance_buffers`).
    pub fn build_instance_buffers(&mut self)
        requires
            old(self).wf(),
        ensures
            final(self).wf(),
            final(self).instances.entries() == old(self).instances.entries(),
            final(self).instances.instance_count() == old(self).instances.entries().len() as u32,
            final(self).instances.materials() == old(self).instances.materials(),
            final(self).instances.transforms() == old(self).instances.spec_instances().map_values(
                |i: Instance| (i.transform, i.previous_transform),
            ),
            final(self).instances.aabbs() == old(self).instances.spec_instances().map_values(
                |i: Instance| i.aabb,
            ),
            final(self).instances.meshlet_offsets() == old(self).instances.spec_instances().map_values(
                |i: Instance| i.meshlet_offset,
            ),
            final(self).instances.meshlet_counts() == old(self).instances.spec_instances().map_values(
                |i: Instance| i.meshlet_count,
            ),
            final(self).instances.material_ids() == old(self).instances.spec_instances().map_values(
                |i: Instance| i.material_id,
            ),
            final(self).asset_server == old(self).asset_server,
            final(self).meshlets == old(self).meshlets,
            final(self).cameras@ == old(self).cameras@,
    {
        self.instances.build_instance_buffers();
    }
}

} // verus!
