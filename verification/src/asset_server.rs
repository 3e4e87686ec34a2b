//! The asset registry: meshlet meshes, textures and materials by handle,
//! each loading or ready; which assets wait on which; and the queue of
//! asset events for the render loop.
//!
//! Textures and materials are held as values of the caller's types `T` and
//! `M` (GPU objects the library does not look into); the registry reads only
//! what the caller hands it beside them: their names and, for materials, the
//! textures they depend on.

use std::collections::{HashMap, VecDeque};
use vstd::prelude::*;
use vstd::string::StringSliceAdditionalSpecFns;
use crate::handle::{handle_id_of, ResourceHandle, UntypedHandle};
use crate::mesh::MeshletMesh;
use crate::texture::DEFAULT_WHITE_TEXTURE_ID;
use crate::meshlet_storage::{can_take, mesh_key, MeshletStorage, MESHLET_BYTES};

verus! {

broadcast use vstd::std_specs::hash::group_hash_axioms;

/// Where an asset stands: reserved while it loads, or ready with its value.
pub enum AssetState<R> {
    Loading,
    Ready(R),
}

impl<R> AssetState<R> {
    /// Ready with the resource where there is one, else loading.
    pub fn new(has_resource: Option<R>) -> (s: Self)
        ensures
            s == match has_resource {
                Some(v) => AssetState::Ready(v),
                None => AssetState::<R>::Loading,
            },
    {
        match has_resource {
            Some(value) => AssetState::Ready(value),
            None => AssetState::Loading,
        }
    }
}

/// An event for the render loop.
pub enum AssetEvent {
    /// An asset was added and is ready.
    Ready(UntypedHandle),
    /// A meshlet mesh is ready to be uploaded.
    MeshletReady(ResourceHandle<MeshletMesh>),
}

/// Handle id of the default material.
pub const DEFAULT_MATERIAL_ID: u64 = 0;

/// Name of the default material.
pub const DEFAULT_MATERIAL_NAME: &'static str = "mere_default_material";

/// The value ready under `id`, if any.
pub open spec fn ready<R>(m: Map<u64, AssetState<R>>, id: u64) -> Option<R> {
    if m.contains_key(id) {
        match m[id] {
            AssetState::Ready(v) => Some(v),
            AssetState::Loading => None,
        }
    } else {
        None
    }
}

/// The listeners after `h` subscribed to `dep`: `h` is appended to the list
/// of `dep`, which starts empty.
pub open spec fn subscribe_one(
    l: Map<u64, Seq<UntypedHandle>>,
    dep: u64,
    h: UntypedHandle,
) -> Map<u64, Seq<UntypedHandle>> {
    let old_list = if l.contains_key(dep) { l[dep] } else { Seq::empty() };
    l.insert(dep, old_list.push(h))
}

/// The listeners after `h` subscribed to each of `deps`, in order.
pub open spec fn subscribe_all(
    l: Map<u64, Seq<UntypedHandle>>,
    deps: Seq<UntypedHandle>,
    h: UntypedHandle,
) -> Map<u64, Seq<UntypedHandle>>
    decreases deps.len(),
{
    if deps.len() == 0 {
        l
    } else {
        subscribe_one(subscribe_all(l, deps.drop_last(), h), deps.last().spec_id(), h)
    }
}

/// The map in which each listed value is ready under its id, a later entry
/// taking the place of an earlier one with the same id.
pub open spec fn ready_map<R>(list: Seq<(u64, R)>) -> Map<u64, AssetState<R>>
    decreases list.len(),
{
    if list.len() == 0 {
        Map::empty()
    } else {
        ready_map(list.drop_last()).insert(list.last().0, AssetState::Ready(list.last().1))
    }
}

/// The registry of meshlet meshes, textures `T` and materials `M`.
pub struct AssetServer<T, M> {
    meshlets: HashMap<u64, AssetState<MeshletMesh>>,
    textures: HashMap<u64, AssetState<T>>,
    materials: HashMap<u64, AssetState<M>>,
    dependency_listeners: HashMap<u64, Vec<UntypedHandle>>,
    events: VecDeque<AssetEvent>,
}

/// Looks up the value ready under `id`.
fn get_ready<R>(m: &HashMap<u64, AssetState<R>>, id: u64) -> (r: Option<&R>)
    ensures
        match r {
            Some(v) => ready(m@, id) == Some(*v),
            None => ready(m@, id) is None,
        },
{
    match m.get(&id) {
        Some(AssetState::Ready(v)) => Some(v),
        _ => None,
    }
}

/// Whether a value is ready under `id`.
fn is_ready<R>(m: &HashMap<u64, AssetState<R>>, id: u64) -> (b: bool)
    ensures
        b == (ready(m@, id) is Some),
{
    match get_ready(m, id) {
        Some(_) => true,
        None => false,
    }
}

/// Marks `id` as loading, unless it is known already.
fn reserve<R>(m: &mut HashMap<u64, AssetState<R>>, id: u64)
    ensures
        final(m)@ == if old(m)@.contains_key(id) {
            old(m)@
        } else {
            old(m)@.insert(id, AssetState::Loading)
        },
{
    if !m.contains_key(&id) {
        m.insert(id, AssetState::Loading);
    }
}

/// Fills a map with the listed values, each ready under its id.
fn fill_ready<R>(list: Vec<(u64, R)>) -> (m: HashMap<u64, AssetState<R>>)
    ensures
        m@ == ready_map(list@),
{
    let ghost whole = list@;
    let _n = list.len();
    let mut m: HashMap<u64, AssetState<R>> = HashMap::new();
    let mut rest = list;
    let mut i: usize = 0;
    while rest.len() > 0
        invariant
            i + rest@.len() == whole.len(),
            whole.len() <= usize::MAX,
            rest@ == whole.subrange(i as int, whole.len() as int),
            m@ == ready_map(whole.take(i as int)),
        decreases rest@.len(),
    {
        let (id, value) = rest.remove(0);
        proof {
            assert(whole.take(i as int + 1).drop_last() =~= whole.take(i as int));
            assert(rest@ =~= whole.subrange(i as int + 1, whole.len() as int));
        }
        m.insert(id, AssetState::Ready(value));
        i = i + 1;
    }
    assert(whole.take(i as int) =~= whole);
    m
}

impl<T, M> AssetServer<T, M> {
    /// The meshlet meshes by handle id.
    pub closed spec fn meshlets(&self) -> Map<u64, AssetState<MeshletMesh>> {
        self.meshlets@
    }

    /// The textures by handle id.
    pub closed spec fn textures(&self) -> Map<u64, AssetState<T>> {
        self.textures@
    }

    /// The materials by handle id.
    pub closed spec fn materials(&self) -> Map<u64, AssetState<M>> {
        self.materials@
    }

    /// For each asset id, the handles of the assets waiting on it, in the
    /// order they subscribed.
    pub closed spec fn listeners(&self) -> Map<u64, Seq<UntypedHandle>> {
        self.dependency_listeners@.map_values(|v: Vec<UntypedHandle>| v@)
    }

    /// The events not yet received, oldest first.
    pub closed spec fn events(&self) -> Seq<AssetEvent> {
        self.events@
    }

    /// A registry holding the given textures, each ready under its id, and
    /// `default_material` ready under `DEFAULT_MATERIAL_ID`; no meshlet
    /// mesh, no listener and no event.
    pub fn new(default_textures: Vec<(u64, T)>, default_material: M) -> (s: Self)
        ensures
            s.meshlets() == Map::<u64, AssetState<MeshletMesh>>::empty(),
            s.textures() == ready_map(default_textures@),
            s.materials() == Map::<u64, AssetState<M>>::empty().insert(
                DEFAULT_MATERIAL_ID,
                AssetState::Ready(default_material),
            ),
            s.listeners() == Map::<u64, Seq<UntypedHandle>>::empty(),
            s.events() == Seq::<AssetEvent>::empty(),
    {
        let textures = fill_ready(default_textures);
        let mut materials: HashMap<u64, AssetState<M>> = HashMap::new();
        materials.insert(DEFAULT_MATERIAL_ID, AssetState::Ready(default_material));
        let s = AssetServer {
            meshlets: HashMap::new(),
            textures,
            materials,
            dependency_listeners: HashMap::new(),
            events: VecDeque::new(),
        };
        assert(s.listeners() =~= Map::<u64, Seq<UntypedHandle>>::empty());
        s
    }

    /// Records that `handle` waits on `dependency_handle`: it is appended to
    /// the dependency's listeners.
    pub fn subscribe(&mut self, dependency_handle: UntypedHandle, handle: UntypedHandle)
        ensures
            final(self).listeners() == subscribe_one(
                old(self).listeners(),
                dependency_handle.spec_id(),
                handle,
            ),
            final(self).meshlets() == old(self).meshlets(),
            final(self).textures() == old(self).textures(),
            final(self).materials() == old(self).materials(),
            final(self).events() == old(self).events(),
    {
        let dep = dependency_handle.id();
        let ghost l = self.dependency_listeners@;
        let mut list: Vec<UntypedHandle> = match self.dependency_listeners.remove(&dep) {
            Some(v) => v,
            None => Vec::new(),
        };
        list.push(handle);
        self.dependency_listeners.insert(dep, list);
        proof {
            assert(self.dependency_listeners@ == l.insert(dep, list));
            assert(self.listeners() =~= subscribe_one(
                l.map_values(|v: Vec<UntypedHandle>| v@),
                dep,
                handle,
            ));
        }
    }

    /// Subscribes `handle` to each of `deps`, in order.
    fn subscribe_each(&mut self, deps: &Vec<UntypedHandle>, handle: UntypedHandle)
        ensures
            final(self).listeners() == subscribe_all(old(self).listeners(), deps@, handle),
            final(self).meshlets() == old(self).meshlets(),
            final(self).textures() == old(self).textures(),
            final(self).materials() == old(self).materials(),
            final(self).events() == old(self).events(),
    {
        let mut i: usize = 0;
        while i < deps.len()
            invariant
                i <= deps@.len(),
                self.listeners() == subscribe_all(old(self).listeners(), deps@.take(i as int), handle),
                self.meshlets() == old(self).meshlets(),
                self.textures() == old(self).textures(),
                self.materials() == old(self).materials(),
                self.events() == old(self).events(),
            decreases deps@.len() - i,
        {
            self.subscribe(deps[i], handle);
            proof {
                assert(deps@.take(i as int + 1).drop_last() =~= deps@.take(i as int));
            }
            i = i + 1;
        }
        assert(deps@.take(i as int) =~= deps@);
    }

    /// Drops the listeners of `handle`, the assets that waited on it.
    ///
    /// An untyped handle does not say which kind of asset it names, so no
    /// asset is finished from here: callers finish the assets they know.
    pub fn dispatch_ready(&mut self, handle: UntypedHandle)
        ensures
            final(self).listeners() == old(self).listeners().remove(handle.spec_id()),
            final(self).meshlets() == old(self).meshlets(),
            final(self).textures() == old(self).textures(),
            final(self).materials() == old(self).materials(),
            final(self).events() == old(self).events(),
    {
        let id = handle.id();
        let ghost l = self.dependency_listeners@;
        let _ = self.dependency_listeners.remove(&id);
        proof {
            assert(self.listeners() =~= l.remove(id).map_values(|v: Vec<UntypedHandle>| v@));
        }
    }

    /// Takes the oldest event not yet received, if any.
    pub fn try_recv(&mut self) -> (e: Option<AssetEvent>)
        ensures
            match e {
                Some(ev) => {
                    &&& old(self).events().len() > 0
                    &&& ev == old(self).events()[0]
                    &&& final(self).events() == old(self).events().drop_first()
                },
                None => {
                    &&& old(self).events().len() == 0
                    &&& final(self).events() == old(self).events()
                },
            },
            final(self).meshlets() == old(self).meshlets(),
            final(self).textures() == old(self).textures(),
            final(self).materials() == old(self).materials(),
            final(self).listeners() == old(self).listeners(),
    {
        let e = self.events.pop_front();
        proof {
            if e is Some {
                assert(self.events@ =~= old(self).events@.drop_first());
            }
        }
        e
    }

    /// Queues `asset_event` after the events not yet received.
    pub fn send(&mut self, asset_event: AssetEvent)
        ensures
            final(self).events() == old(self).events().push(asset_event),
            final(self).meshlets() == old(self).meshlets(),
            final(self).textures() == old(self).textures(),
            final(self).materials() == old(self).materials(),
            final(self).listeners() == old(self).listeners(),
    {
        self.events.push_back(asset_event);
    }
}

/// `new` is `old` after an asset with id `id` and dependencies `deps` was
/// added to the map that `pick` selects: the asset is ready, it listens to
/// its dependencies, and a `Ready` event for it is queued last.
pub open spec fn added<R>(
    old_map: Map<u64, AssetState<R>>,
    new_map: Map<u64, AssetState<R>>,
    old_listeners: Map<u64, Seq<UntypedHandle>>,
    new_listeners: Map<u64, Seq<UntypedHandle>>,
    old_events: Seq<AssetEvent>,
    new_events: Seq<AssetEvent>,
    id: u64,
    value: R,
    deps: Seq<UntypedHandle>,
) -> bool {
    &&& new_map == old_map.insert(id, AssetState::Ready(value))
    &&& new_listeners == subscribe_all(old_listeners, deps, UntypedHandle::with_id(id))
    &&& new_events == old_events.push(AssetEvent::Ready(UntypedHandle::with_id(id)))
}

impl<T, M> AssetServer<T, M> {
    /// The meshlet mesh ready under `handle`, if any.
    pub fn get_meshlet(&self, handle: ResourceHandle<MeshletMesh>) -> (r: Option<&MeshletMesh>)
        ensures
            match r {
                Some(v) => ready(self.meshlets(), handle.spec_id()) == Some(*v),
                None => ready(self.meshlets(), handle.spec_id()) is None,
            },
    {
        get_ready(&self.meshlets, handle.id())
    }

    /// The texture ready under `handle`, if any.
    pub fn get_texture(&self, handle: ResourceHandle<T>) -> (r: Option<&T>)
        ensures
            match r {
                Some(v) => ready(self.textures(), handle.spec_id()) == Some(*v),
                None => ready(self.textures(), handle.spec_id()) is None,
            },
    {
        get_ready(&self.textures, handle.id())
    }

    /// The material ready under `handle`, if any.
    pub fn get_material(&self, handle: ResourceHandle<M>) -> (r: Option<&M>)
        ensures
            match r {
                Some(v) => ready(self.materials(), handle.spec_id()) == Some(*v),
                None => ready(self.materials(), handle.spec_id()) is None,
            },
    {
        get_ready(&self.materials, handle.id())
    }

    /// The texture ready under `handle`, or else the one under `default`.
    pub fn get_texture_with_default(&self, handle: ResourceHandle<T>, default: ResourceHandle<T>) -> (r: &T)
        requires
            ready(self.textures(), handle.spec_id()) is Some || ready(self.textures(), default.spec_id()) is Some,
        ensures
            Some(*r) == if ready(self.textures(), handle.spec_id()) is Some {
                ready(self.textures(), handle.spec_id())
            } else {
                ready(self.textures(), default.spec_id())
            },
    {
        match get_ready(&self.textures, handle.id()) {
            Some(v) => v,
            None => get_ready(&self.textures, default.id()).unwrap(),
        }
    }

    /// The material ready under `handle`, or else the one under `default`.
    pub fn get_material_with_default(&self, handle: ResourceHandle<M>, default: ResourceHandle<M>) -> (r: &M)
        requires
            ready(self.materials(), handle.spec_id()) is Some || ready(self.materials(), default.spec_id()) is Some,
        ensures
            Some(*r) == if ready(self.materials(), handle.spec_id()) is Some {
                ready(self.materials(), handle.spec_id())
            } else {
                ready(self.materials(), default.spec_id())
            },
    {
        match get_ready(&self.materials, handle.id()) {
            Some(v) => v,
            None => get_ready(&self.materials, default.id()).unwrap(),
        }
    }

    /// Adds a meshlet mesh under the handle of its name, unless one is ready
    /// there already; a new mesh is queued as a `Ready` event.
    pub fn add_meshlet(&mut self, value: MeshletMesh) -> (h: ResourceHandle<MeshletMesh>)
        ensures
            h.spec_id() == mesh_key(value.name@),
            if ready(old(self).meshlets(), h.spec_id()) is Some {
                *final(self) == *old(self)
            } else {
                &&& added(
                    old(self).meshlets(),
                    final(self).meshlets(),
                    old(self).listeners(),
                    final(self).listeners(),
                    old(self).events(),
                    final(self).events(),
                    h.spec_id(),
                    value,
                    Seq::empty(),
                )
                &&& final(self).textures() == old(self).textures()
                &&& final(self).materials() == old(self).materials()
            },
    {
        let h = ResourceHandle::<MeshletMesh>::from_str(value.name.as_str());
        let id = h.id();
        if is_ready(&self.meshlets, id) {
            return h;
        }
        self.meshlets.insert(id, AssetState::Ready(value));
        self.send(AssetEvent::Ready(UntypedHandle::from_handle(h)));
        h
    }

    /// Adds a texture under the handle of its `label`, unless one is ready
    /// there already; a new texture is queued as a `Ready` event.
    pub fn add_texture(&mut self, value: T, label: &str) -> (h: ResourceHandle<T>)
        ensures
            h.spec_id() as int == handle_id_of(label.spec_bytes()),
            if ready(old(self).textures(), h.spec_id()) is Some {
                *final(self) == *old(self)
            } else {
                &&& added(
                    old(self).textures(),
                    final(self).textures(),
                    old(self).listeners(),
                    final(self).listeners(),
                    old(self).events(),
                    final(self).events(),
                    h.spec_id(),
                    value,
                    Seq::empty(),
                )
                &&& final(self).meshlets() == old(self).meshlets()
                &&& final(self).materials() == old(self).materials()
            },
    {
        let h = ResourceHandle::<T>::from_str(label);
        let id = h.id();
        if is_ready(&self.textures, id) {
            return h;
        }
        self.textures.insert(id, AssetState::Ready(value));
        self.send(AssetEvent::Ready(UntypedHandle::from_handle(h)));
        h
    }

    /// Adds a material under the handle of its `name`, unless one is ready
    /// there already; a new material listens to the textures it depends on
    /// and is queued as a `Ready` event.
    pub fn add_material(&mut self, value: M, name: &str, dependencies: &Vec<UntypedHandle>) -> (h:
        ResourceHandle<M>)
        ensures
            h.spec_id() as int == handle_id_of(name.spec_bytes()),
            if ready(old(self).materials(), h.spec_id()) is Some {
                *final(self) == *old(self)
            } else {
                &&& added(
                    old(self).materials(),
                    final(self).materials(),
                    old(self).listeners(),
                    final(self).listeners(),
                    old(self).events(),
                    final(self).events(),
                    h.spec_id(),
                    value,
                    dependencies@,
                )
                &&& final(self).meshlets() == old(self).meshlets()
                &&& final(self).textures() == old(self).textures()
            },
    {
        let h = ResourceHandle::<M>::from_str(name);
        let id = h.id();
        if is_ready(&self.materials, id) {
            return h;
        }
        self.subscribe_each(dependencies, UntypedHandle::from_handle(h));
        self.materials.insert(id, AssetState::Ready(value));
        self.send(AssetEvent::Ready(UntypedHandle::from_handle(h)));
        h
    }

    /// Marks `handle` as loading, unless a meshlet mesh is known under it.
    pub fn reserve_meshlet(&mut self, handle: ResourceHandle<MeshletMesh>)
        ensures
            final(self).meshlets() == if old(self).meshlets().contains_key(handle.spec_id()) {
                old(self).meshlets()
            } else {
                old(self).meshlets().insert(handle.spec_id(), AssetState::Loading)
            },
            final(self).textures() == old(self).textures(),
            final(self).materials() == old(self).materials(),
            final(self).listeners() == old(self).listeners(),
            final(self).events() == old(self).events(),
    {
        reserve(&mut self.meshlets, handle.id());
    }

    /// Marks `handle` as loading, unless a texture is known under it.
    pub fn reserve_texture(&mut self, handle: ResourceHandle<T>)
        ensures
            final(self).textures() == if old(self).textures().contains_key(handle.spec_id()) {
                old(self).textures()
            } else {
                old(self).textures().insert(handle.spec_id(), AssetState::Loading)
            },
            final(self).meshlets() == old(self).meshlets(),
            final(self).materials() == old(self).materials(),
            final(self).listeners() == old(self).listeners(),
            final(self).events() == old(self).events(),
    {
        reserve(&mut self.textures, handle.id());
    }

    /// The handle of one of a material's textures: where the material has the
    /// texture (named `texture_name`), the handle of that name, reserved in
    /// the registry; where it has none, the default white texture's handle,
    /// and the registry stays as it was.
    pub fn material_texture(&mut self, texture_name: Option<&str>) -> (h: ResourceHandle<T>)
        ensures
            match texture_name {
                Some(n) => {
                    &&& h.spec_id() as int == handle_id_of(n.spec_bytes())
                    &&& final(self).textures() == if old(self).textures().contains_key(h.spec_id()) {
                        old(self).textures()
                    } else {
                        old(self).textures().insert(h.spec_id(), AssetState::Loading)
                    }
                    &&& final(self).meshlets() == old(self).meshlets()
                    &&& final(self).materials() == old(self).materials()
                    &&& final(self).listeners() == old(self).listeners()
                    &&& final(self).events() == old(self).events()
                },
                None => h.spec_id() == DEFAULT_WHITE_TEXTURE_ID && *final(self) == *old(self),
            },
    {
        match texture_name {
            Some(n) => {
                let h = ResourceHandle::<T>::from_str(n);
                self.reserve_texture(h);
                h
            },
            None => ResourceHandle::<T>::new(DEFAULT_WHITE_TEXTURE_ID),
        }
    }

    /// Marks `handle` as loading, unless a material is known under it.
    pub fn reserve_material(&mut self, handle: ResourceHandle<M>)
        ensures
            final(self).materials() == if old(self).materials().contains_key(handle.spec_id()) {
                old(self).materials()
            } else {
                old(self).materials().insert(handle.spec_id(), AssetState::Loading)
            },
            final(self).meshlets() == old(self).meshlets(),
            final(self).textures() == old(self).textures(),
            final(self).listeners() == old(self).listeners(),
            final(self).events() == old(self).events(),
    {
        reserve(&mut self.materials, handle.id());
    }

    /// Finishes the meshlet mesh ready under `handle`: a `MeshletReady` event
    /// for the handle of its name is queued. A mesh not ready changes nothing.
    pub fn finish_meshlet(&mut self, handle: ResourceHandle<MeshletMesh>)
        ensures
            final(self).meshlets() == old(self).meshlets(),
            final(self).textures() == old(self).textures(),
            final(self).materials() == old(self).materials(),
            final(self).listeners() == old(self).listeners(),
            match ready(old(self).meshlets(), handle.spec_id()) {
                Some(mesh) => exists|h: ResourceHandle<MeshletMesh>|
                    h.spec_id() == mesh_key(mesh.name@) && final(self).events() == old(self).events().push(
                        AssetEvent::MeshletReady(h),
                    ),
                None => final(self).events() == old(self).events(),
            },
    {
        let name_handle = match get_ready(&self.meshlets, handle.id()) {
            Some(mesh) => Some(ResourceHandle::<MeshletMesh>::from_str(mesh.name.as_str())),
            None => None,
        };
        match name_handle {
            Some(h) => {
                self.send(AssetEvent::MeshletReady(h));
            },
            None => {},
        }
    }
}

/// `ev` is a `Ready` event for the asset with id `k`.
pub open spec fn readies(ev: AssetEvent, k: u64) -> bool {
    ev matches AssetEvent::Ready(h) && h.spec_id() == k
}

/// Some `Ready` event among `evs` names `k`.
pub open spec fn dispatched(evs: Seq<AssetEvent>, k: u64) -> bool {
    exists|j: int| 0 <= j < evs.len() && readies(#[trigger] evs[j], k)
}

/// `b` is `a` with the same mesh, only its meshlet offset perhaps changed.
pub open spec fn same_mesh(a: AssetState<MeshletMesh>, b: AssetState<MeshletMesh>) -> bool {
    match (a, b) {
        (AssetState::Loading, AssetState::Loading) => true,
        (AssetState::Ready(x), AssetState::Ready(y)) => x.name@ == y.name@ && x.data() == y.data(),
        _ => false,
    }
}

/// `b` holds every mesh `a` holds, at the same ranges, and none of its
/// buffers is smaller.
pub open spec fn grown(a: MeshletStorage, b: MeshletStorage) -> bool {
    &&& forall|k: u64| #[trigger]
        a.slices().contains_key(k) ==> b.slices().contains_key(k) && b.slices()[k] == a.slices()[k]
    &&& a.vertex_buffer().bounds().1 <= b.vertex_buffer().bounds().1
    &&& a.vertex_index_buffer().bounds().1 <= b.vertex_index_buffer().bounds().1
    &&& a.index_buffer().bounds().1 <= b.index_buffer().bounds().1
    &&& a.meshlet_buffer().bounds().1 <= b.meshlet_buffer().bounds().1
}

/// The mesh a `MeshletReady` event names was uploaded, unless the buffers
/// of `s` cannot take it.
pub open spec fn upload_done(
    ev: AssetEvent,
    meshes: Map<u64, AssetState<MeshletMesh>>,
    s: MeshletStorage,
) -> bool {
    ev matches AssetEvent::MeshletReady(h) ==> {
        let mesh = ready(meshes, h.spec_id())->0;
        s.slices().contains_key(mesh_key(mesh.name@)) || !can_take(s, mesh.data())
    }
}

/// The storage key of the name of the mesh ready under `id`.
pub open spec fn ready_key(meshes: Map<u64, AssetState<MeshletMesh>>, id: u64) -> u64 {
    mesh_key(ready(meshes, id)->0.name@)
}

/// Event `ev` asks for the upload of the mesh ready under `id`.
pub open spec fn requests_id(ev: AssetEvent, id: u64) -> bool {
    ev matches AssetEvent::MeshletReady(h) && h.spec_id() == id
}

/// Event `ev` asks for the upload of a mesh whose name has the storage key
/// `key`.
pub open spec fn requests_key(ev: AssetEvent, meshes: Map<u64, AssetState<MeshletMesh>>, key: u64) -> bool {
    ev matches AssetEvent::MeshletReady(h) && ready_key(meshes, h.spec_id()) == key
}

/// Some event among `evs` asks for the upload of the mesh ready under `id`.
pub open spec fn requested(evs: Seq<AssetEvent>, id: u64) -> bool {
    exists|j: int| 0 <= j < evs.len() && requests_id(#[trigger] evs[j], id)
}

/// Some event among `evs` asks for the upload of a mesh whose name has the
/// storage key `key`.
pub open spec fn key_requested(evs: Seq<AssetEvent>, meshes: Map<u64, AssetState<MeshletMesh>>, key: u64) -> bool {
    exists|j: int| 0 <= j < evs.len() && requests_key(#[trigger] evs[j], meshes, key)
}

/// Where storage `s` put the meshlets of the mesh stored under `key`, in
/// meshlets from the start of the meshlet buffer.
pub open spec fn placed_offset(s: MeshletStorage, key: u64) -> u32 {
    (s.slices()[key].meshlets.start / MESHLET_BYTES) as u32
}

/// `a` is a ready mesh at meshlet offset `off`.
pub open spec fn at_offset(a: AssetState<MeshletMesh>, off: u32) -> bool {
    a matches AssetState::Ready(m) && m.meshlet_offset == off
}

/// The mesh under `id` in `meshes` (it was `m0[id]` before) was uploaded
/// afresh: its name was not stored in `s0`, is stored in `s`, and the mesh
/// carries the meshlet offset of its place in `s`.
pub open spec fn uploaded_afresh(
    meshes: Map<u64, AssetState<MeshletMesh>>,
    m0: Map<u64, AssetState<MeshletMesh>>,
    s0: MeshletStorage,
    s: MeshletStorage,
    id: u64,
) -> bool {
    let key = ready_key(m0, id);
    &&& ready(m0, id) is Some
    &&& !s0.slices().contains_key(key)
    &&& s.slices().contains_key(key)
    &&& at_offset(meshes[id], placed_offset(s, key))
}

/// Handles the events not yet received, oldest first: a `Ready` event drops
/// the listeners of its handle; a `MeshletReady` event queues the mesh for
/// upload to the meshlet storage (a mesh whose name is stored already, or
/// that the buffers cannot take within their byte range, is left out). The
/// storage gains only the meshes the events ask for, and a mesh uploaded
/// afresh carries, in the registry, the meshlet offset of its place.
pub fn process_asset_event<T, M>(server: &mut AssetServer<T, M>, meshlets: &mut MeshletStorage)
    requires
        old(meshlets).wf(),
        forall|i: int|
            0 <= i < old(server).events().len() ==> ((#[trigger] old(server).events()[i]) matches AssetEvent::MeshletReady(h)
                ==> ready(old(server).meshlets(), h.spec_id()) is Some),
    ensures
        final(meshlets).wf(),
        final(server).events() == Seq::<AssetEvent>::empty(),
        final(server).textures() == old(server).textures(),
        final(server).materials() == old(server).materials(),
        final(server).meshlets().dom() == old(server).meshlets().dom(),
        forall|k: u64| #[trigger] final(server).meshlets().contains_key(k) ==> same_mesh(
            old(server).meshlets()[k],
            final(server).meshlets()[k],
        ),
        forall|k: u64|
            #[trigger] final(server).listeners().contains_key(k) <==> (old(server).listeners().contains_key(k)
                && !dispatched(old(server).events(), k)),
        forall|k: u64| #[trigger] final(server).listeners().contains_key(k) ==> final(server).listeners()[k]
            == old(server).listeners()[k],
        grown(*old(meshlets), *final(meshlets)),
        forall|i: int|
            0 <= i < old(server).events().len() ==> upload_done(
                #[trigger] old(server).events()[i],
                old(server).meshlets(),
                *final(meshlets),
            ),
        forall|key: u64| #[trigger]
            final(meshlets).slices().contains_key(key) ==> old(meshlets).slices().contains_key(key)
                || key_requested(old(server).events(), old(server).meshlets(), key),
        forall|k: u64| #[trigger]
            final(server).meshlets().contains_key(k) ==> final(server).meshlets()[k] == old(
                server,
            ).meshlets()[k] || (requested(old(server).events(), k) && uploaded_afresh(
                final(server).meshlets(),
                old(server).meshlets(),
                *old(meshlets),
                *final(meshlets),
                k,
            )),
        forall|key: u64| #[trigger]
            final(meshlets).slices().contains_key(key) && !old(meshlets).slices().contains_key(key)
                ==> exists|k: u64| #[trigger]
                final(server).meshlets().contains_key(k) && ready_key(old(server).meshlets(), k) == key
                    && uploaded_afresh(
                    final(server).meshlets(),
                    old(server).meshlets(),
                    *old(meshlets),
                    *final(meshlets),
                    k,
                ),
{
    let ghost evs = server.events();
    let ghost m0 = server.meshlets();
    let ghost l0 = server.listeners();
    let ghost s0 = *meshlets;
    let ghost mut i: int = 0;
    loop
        invariant_except_break
            0 <= i <= evs.len(),
            server.events() == evs.subrange(i, evs.len() as int),
        invariant
            meshlets.wf(),
            evs == old(server).events(),
            m0 == old(server).meshlets(),
            l0 == old(server).listeners(),
            s0 == *old(meshlets),
            forall|j: int|
                0 <= j < evs.len() ==> ((#[trigger] evs[j]) matches AssetEvent::MeshletReady(h) ==> ready(
                    m0,
                    h.spec_id(),
                ) is Some),
            server.textures() == old(server).textures(),
            server.materials() == old(server).materials(),
            server.meshlets().dom() == m0.dom(),
            forall|k: u64| #[trigger] server.meshlets().contains_key(k) ==> same_mesh(m0[k], server.meshlets()[k]),
            forall|k: u64|
                #[trigger] server.listeners().contains_key(k) <==> (l0.contains_key(k) && !dispatched(
                    evs.take(i),
                    k,
                )),
            forall|k: u64| #[trigger] server.listeners().contains_key(k) ==> server.listeners()[k] == l0[k],
            grown(s0, *meshlets),
            forall|j: int| 0 <= j < i ==> upload_done(#[trigger] evs[j], m0, *meshlets),
            forall|key: u64| #[trigger]
                meshlets.slices().contains_key(key) ==> s0.slices().contains_key(key) || key_requested(
                    evs.take(i),
                    m0,
                    key,
                ),
            forall|k: u64| #[trigger]
                server.meshlets().contains_key(k) ==> server.meshlets()[k] == m0[k] || (requested(
                    evs.take(i),
                    k,
                ) && uploaded_afresh(server.meshlets(), m0, s0, *meshlets, k)),
            forall|key: u64| #[trigger]
                meshlets.slices().contains_key(key) && !s0.slices().contains_key(key) ==> exists|k: u64| #[trigger]
                    server.meshlets().contains_key(k) && ready_key(m0, k) == key && uploaded_afresh(
                        server.meshlets(),
                        m0,
                        s0,
                        *meshlets,
                        k,
                    ),
        ensures
            server.events() == Seq::<AssetEvent>::empty(),
            i == evs.len(),
        decreases evs.len() - i,
    {
        let ghost s_before = *meshlets;
        let ghost l_before = server.listeners();
        let event = server.try_recv();
        match event {
            None => {
                break;
            },
            Some(AssetEvent::Ready(handle)) => {
                proof {
                    assert(evs[i] == AssetEvent::Ready(handle));
                }
                server.dispatch_ready(handle);
                proof {
                    assert forall|k: u64|
                        #[trigger] server.listeners().contains_key(k) <==> (l0.contains_key(k) && !dispatched(
                            evs.take(i + 1),
                            k,
                        )) by {
                        if dispatched(evs.take(i), k) {
                            let j = choose|j: int|
                                0 <= j < evs.take(i).len() && readies(#[trigger] evs.take(i)[j], k);
                            assert(evs.take(i + 1)[j] == evs.take(i)[j]);
                        }
                        if dispatched(evs.take(i + 1), k) && !dispatched(evs.take(i), k) {
                            let j = choose|j: int|
                                0 <= j < evs.take(i + 1).len() && readies(#[trigger] evs.take(i + 1)[j], k);
                            if j < i {
                                assert(evs.take(i)[j] == evs.take(i + 1)[j]);
                            }
                        }
                        if k == handle.spec_id() {
                            assert(evs.take(i + 1)[i] == evs[i]);
                        }
                    }
                    assert forall|key: u64| #[trigger] meshlets.slices().contains_key(key) implies s0.slices().contains_key(key)
                        || key_requested(evs.take(i + 1), m0, key) by {
                        lemma_requests_extend(evs, i, m0, 0, key);
                    }
                    assert forall|k: u64| #[trigger] server.meshlets().contains_key(k) implies server.meshlets()[k]
                        == m0[k] || (requested(evs.take(i + 1), k) && uploaded_afresh(
                        server.meshlets(),
                        m0,
                        s0,
                        *meshlets,
                        k,
                    )) by {
                        lemma_requests_extend(evs, i, m0, k, 0);
                    }
                    i = i + 1;
                    assert(server.events() =~= evs.subrange(i, evs.len() as int));
                }
            },
            Some(AssetEvent::MeshletReady(handle)) => {
                proof {
                    assert(evs[i] == AssetEvent::MeshletReady(handle));
                }
                let id = handle.id();
                let ghost mm_before = server.meshlets();
                proof {
                    assert(same_mesh(m0[id], mm_before[id]));
                    assert(ready_key(mm_before, id) == ready_key(m0, id));
                }
                upload_ready_mesh(server, meshlets, id);
                proof {
                    let key_id = ready_key(m0, id);
                    assert forall|key: u64| #[trigger] meshlets.slices().contains_key(key) implies s0.slices().contains_key(key)
                        || key_requested(evs.take(i + 1), m0, key) by {
                        lemma_requests_extend(evs, i, m0, id, key);
                        if !s_before.slices().contains_key(key) {
                            assert(key == key_id);
                            assert(requests_key(evs[i], m0, key));
                        }
                    }
                    assert forall|k: u64| #[trigger] server.meshlets().contains_key(k) implies server.meshlets()[k]
                        == m0[k] || (requested(evs.take(i + 1), k) && uploaded_afresh(
                        server.meshlets(),
                        m0,
                        s0,
                        *meshlets,
                        k,
                    )) by {
                        lemma_requests_extend(evs, i, m0, k, 0);
                        assert(mm_before.contains_key(k));
                        if k == id {
                            assert(requests_id(evs[i], k));
                            if !(server.meshlets()[k] == mm_before[k]) {
                                assert(!s_before.slices().contains_key(key_id));
                            }
                        } else {
                            assert(server.meshlets()[k] == mm_before[k]);
                            if server.meshlets()[k] != m0[k] {
                                assert(uploaded_afresh(mm_before, m0, s0, s_before, k));
                                let kk = ready_key(m0, k);
                                assert(s_before.slices().contains_key(kk));
                                assert(meshlets.slices()[kk] == s_before.slices()[kk]);
                            }
                        }
                    }
                    assert forall|key: u64| #[trigger] meshlets.slices().contains_key(key) && !s0.slices().contains_key(key)
                        implies exists|k: u64| #[trigger]
                        server.meshlets().contains_key(k) && ready_key(m0, k) == key && uploaded_afresh(
                            server.meshlets(),
                            m0,
                            s0,
                            *meshlets,
                            k,
                        ) by {
                        if key == key_id && !s_before.slices().contains_key(key) {
                            assert(server.meshlets().contains_key(id));
                            assert(uploaded_afresh(server.meshlets(), m0, s0, *meshlets, id));
                        } else {
                            assert(s_before.slices().contains_key(key));
                            let k = choose|k: u64| #[trigger]
                                mm_before.contains_key(k) && ready_key(m0, k) == key && uploaded_afresh(
                                    mm_before,
                                    m0,
                                    s0,
                                    s_before,
                                    k,
                                );
                            if k == id {
                                assert(s_before.slices().contains_key(key_id));
                            }
                            assert(server.meshlets()[k] == mm_before[k]);
                            assert(meshlets.slices()[key] == s_before.slices()[key]);
                            assert(server.meshlets().contains_key(k));
                        }
                    }
                    assert forall|k: u64|
                        #[trigger] server.listeners().contains_key(k) <==> (l0.contains_key(k) && !dispatched(
                            evs.take(i + 1),
                            k,
                        )) by {
                        if dispatched(evs.take(i), k) {
                            let j = choose|j: int|
                                0 <= j < evs.take(i).len() && readies(#[trigger] evs.take(i)[j], k);
                            assert(evs.take(i + 1)[j] == evs.take(i)[j]);
                        }
                        if dispatched(evs.take(i + 1), k) && !dispatched(evs.take(i), k) {
                            let j = choose|j: int|
                                0 <= j < evs.take(i + 1).len() && readies(#[trigger] evs.take(i + 1)[j], k);
                            if j < i {
                                assert(evs.take(i)[j] == evs.take(i + 1)[j]);
                            } else {
                                assert(evs.take(i + 1)[j] == evs[i]);
                            }
                        }
                    }
                    assert forall|j: int| 0 <= j < i + 1 implies upload_done(#[trigger] evs[j], m0, *meshlets) by {
                        if j < i {
                            lemma_upload_done_grows(evs[j], m0, s_before, *meshlets);
                        }
                    }
                    i = i + 1;
                    assert(server.events() =~= evs.subrange(i, evs.len() as int));
                }
            },
        }
    }
    proof {
        assert(evs.take(i) =~= evs);
    }
}

/// What the first `i` events ask for, the first `i + 1` ask for too, and
/// event `i` besides.
proof fn lemma_requests_extend(
    evs: Seq<AssetEvent>,
    i: int,
    m0: Map<u64, AssetState<MeshletMesh>>,
    k: u64,
    key: u64,
)
    requires
        0 <= i < evs.len(),
    ensures
        requested(evs.take(i), k) ==> requested(evs.take(i + 1), k),
        key_requested(evs.take(i), m0, key) ==> key_requested(evs.take(i + 1), m0, key),
        requests_id(evs[i], k) ==> requested(evs.take(i + 1), k),
        requests_key(evs[i], m0, key) ==> key_requested(evs.take(i + 1), m0, key),
{
    if requested(evs.take(i), k) {
        let j = choose|j: int| 0 <= j < evs.take(i).len() && requests_id(#[trigger] evs.take(i)[j], k);
        assert(evs.take(i + 1)[j] == evs.take(i)[j]);
    }
    if key_requested(evs.take(i), m0, key) {
        let j = choose|j: int| 0 <= j < evs.take(i).len() && requests_key(#[trigger] evs.take(i)[j], m0, key);
        assert(evs.take(i + 1)[j] == evs.take(i)[j]);
    }
    assert(evs.take(i + 1)[i] == evs[i]);
}

/// An upload done, or left out for want of room, stays so as the storage grows.
proof fn lemma_upload_done_grows(
    ev: AssetEvent,
    meshes: Map<u64, AssetState<MeshletMesh>>,
    a: MeshletStorage,
    b: MeshletStorage,
)
    requires
        upload_done(ev, meshes, a),
        grown(a, b),
    ensures
        upload_done(ev, meshes, b),
{
}

/// Queues the mesh ready under `id` for upload, where no mesh of its name is
/// stored and the buffers can take it, and puts it back with its meshlet
/// offset set to where its meshlets were placed; otherwise nothing changes.
fn upload_ready_mesh<T, M>(server: &mut AssetServer<T, M>, meshlets: &mut MeshletStorage, id: u64)
    requires
        old(meshlets).wf(),
        ready(old(server).meshlets(), id) is Some,
    ensures
        final(meshlets).wf(),
        final(server).events() == old(server).events(),
        final(server).textures() == old(server).textures(),
        final(server).materials() == old(server).materials(),
        final(server).listeners() == old(server).listeners(),
        final(server).meshlets().dom() == old(server).meshlets().dom(),
        forall|k: u64| #[trigger] final(server).meshlets().contains_key(k) ==> same_mesh(
            old(server).meshlets()[k],
            final(server).meshlets()[k],
        ),
        grown(*old(meshlets), *final(meshlets)),
        ({
            let mesh = ready(old(server).meshlets(), id)->0;
            final(meshlets).slices().contains_key(mesh_key(mesh.name@)) || !can_take(*final(meshlets), mesh.data())
        }),
        forall|k: u64| #[trigger]
            final(server).meshlets().contains_key(k) && k != id ==> final(server).meshlets()[k] == old(
                server,
            ).meshlets()[k],
        ({
            let key = ready_key(old(server).meshlets(), id);
            let mesh = ready(old(server).meshlets(), id)->0;
            if old(meshlets).slices().contains_key(key) || !can_take(*old(meshlets), mesh.data()) {
                &&& *final(meshlets) == *old(meshlets)
                &&& final(server).meshlets()[id] == old(server).meshlets()[id]
            } else {
                &&& final(meshlets).slices() == old(meshlets).slices().insert(key, final(meshlets).slices()[key])
                &&& at_offset(final(server).meshlets()[id], placed_offset(*final(meshlets), key))
            }
        }),
{
    let ghost m_old = server.meshlets@;
    let ghost l_old = server.dependency_listeners@;
    let taken = server.meshlets.remove(&id);
    match taken {
        Some(AssetState::Ready(mut mesh)) => {
            if meshlets.has_room_for(&mesh) {
                let _ = meshlets.queue_upload(&mut mesh);
            }
            server.meshlets.insert(id, AssetState::Ready(mesh));
            proof {
                assert(server.meshlets@.dom() =~= m_old.dom());
                assert(server.listeners() =~= l_old.map_values(|v: Vec<UntypedHandle>| v@));
            }
        },
        Some(AssetState::Loading) => {
            server.meshlets.insert(id, AssetState::Loading);
        },
        None => {},
    }
}

/// Law: an asset just added is ready under its handle, so `get` gives it
/// back and adding another asset of the same name changes nothing.
pub proof fn lemma_added_is_ready<R>(
    old_map: Map<u64, AssetState<R>>,
    new_map: Map<u64, AssetState<R>>,
    old_listeners: Map<u64, Seq<UntypedHandle>>,
    new_listeners: Map<u64, Seq<UntypedHandle>>,
    old_events: Seq<AssetEvent>,
    new_events: Seq<AssetEvent>,
    id: u64,
    value: R,
    deps: Seq<UntypedHandle>,
)
    requires
        added(old_map, new_map, old_listeners, new_listeners, old_events, new_events, id, value, deps),
    ensures
        ready(new_map, id) == Some(value),
        new_events.last() == AssetEvent::Ready(UntypedHandle::with_id(id)),
{
}

/// Law: a reserved handle never hides an asset: reserving leaves a ready
/// asset ready, and marks an unknown handle as loading.
pub proof fn lemma_reserve_keeps_ready<R>(m: Map<u64, AssetState<R>>, id: u64)
    ensures
        ({
            let r = if m.contains_key(id) { m } else { m.insert(id, AssetState::Loading) };
            &&& ready(r, id) == ready(m, id)
            &&& r.contains_key(id)
        }),
{
}

/// Law: an asset once ready stays ready (with a value) when another asset
/// is added or a handle is reserved; in particular the default material
/// never goes missing.
pub proof fn lemma_ready_stays_ready<R>(
    old_map: Map<u64, AssetState<R>>,
    old_listeners: Map<u64, Seq<UntypedHandle>>,
    new_listeners: Map<u64, Seq<UntypedHandle>>,
    old_events: Seq<AssetEvent>,
    new_events: Seq<AssetEvent>,
    id: u64,
    value: R,
    deps: Seq<UntypedHandle>,
    new_map: Map<u64, AssetState<R>>,
    k: u64,
)
    requires
        ready(old_map, k) is Some,
        added(old_map, new_map, old_listeners, new_listeners, old_events, new_events, id, value, deps)
            || new_map == (if old_map.contains_key(id) {
            old_map
        } else {
            old_map.insert(id, AssetState::Loading)
        }),
    ensures
        ready(new_map, k) is Some,
{
}

} // verus!
