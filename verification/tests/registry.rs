use mere::asset_server::{process_asset_event, AssetEvent, AssetServer, DEFAULT_MATERIAL_ID};
use mere::handle::{ResourceHandle, UntypedHandle};
use mere::mesh::{BoundingSphere, CullData, Meshlet, MeshletMesh, Vec3Bits, Vertex, VertexAttributes};
use mere::meshlet_storage::MeshletStorage;
use mere::scene::Scene;

fn mesh(name: &str) -> MeshletMesh {
    let sphere = BoundingSphere::new(Vec3Bits { x: 0, y: 0, z: 0 }, 1);
    MeshletMesh {
        name: name.to_string(),
        vertex_positions: vec![Vertex { position: Vec3Bits { x: 1, y: 2, z: 3 } }; 3],
        vertex_attributes: vec![VertexAttributes { normal: 0, uv: 0, tangent: 0 }; 3],
        meshlet_vertex_indices: vec![0, 1, 2],
        meshlet_indices: vec![0, 1, 2],
        meshlets: vec![Meshlet {
            vertex_offset: 0,
            attribute_offset: 0,
            vertex_count: 3,
            index_offset: 0,
            index_count: 3,
            cull_data: CullData { bounds: sphere, parent_error: sphere, error: 0 },
        }],
        meshlet_offset: 0,
    }
}

fn server() -> AssetServer<&'static str, &'static str> {
    AssetServer::new(vec![(0, "white"), (1, "chequered")], "default material")
}

#[test]
fn new_registry_holds_the_defaults() {
    let s = server();
    assert_eq!(s.get_texture(ResourceHandle::new(0)), Some(&"white"));
    assert_eq!(s.get_texture(ResourceHandle::new(1)), Some(&"chequered"));
    assert_eq!(s.get_material(ResourceHandle::new(DEFAULT_MATERIAL_ID)), Some(&"default material"));
}

#[test]
fn later_default_texture_wins() {
    let s: AssetServer<&str, &str> = AssetServer::new(vec![(0, "a"), (0, "b")], "m");
    assert_eq!(s.get_texture(ResourceHandle::new(0)), Some(&"b"));
}

#[test]
fn added_asset_is_ready_and_announced() {
    let mut s = server();
    let h = s.add_texture("brick", "brick.png");
    assert_eq!(h.id(), ResourceHandle::<()>::from_str("brick.png").id());
    assert_eq!(s.get_texture(h), Some(&"brick"));
    match s.try_recv() {
        Some(AssetEvent::Ready(u)) => assert_eq!(u.id(), h.id()),
        _ => panic!("expected a ready event"),
    }
    assert!(s.try_recv().is_none());
}

#[test]
fn adding_a_ready_name_again_changes_nothing() {
    let mut s = server();
    let h1 = s.add_texture("first", "t");
    let h2 = s.add_texture("second", "t");
    assert_eq!(h1.id(), h2.id());
    assert_eq!(s.get_texture(h1), Some(&"first"));
    assert!(s.try_recv().is_some());
    assert!(s.try_recv().is_none());
}

#[test]
fn reserved_handle_is_loading_until_added() {
    let mut s = server();
    let h = ResourceHandle::<&str>::from_str("rock.png");
    s.reserve_texture(h);
    assert_eq!(s.get_texture(h), None);
    assert_eq!(s.get_texture_with_default(h, ResourceHandle::new(0)), &"white");
    s.add_texture("rock", "rock.png");
    assert_eq!(s.get_texture(h), Some(&"rock"));
    s.reserve_texture(h);
    assert_eq!(s.get_texture(h), Some(&"rock"));
}

#[test]
fn material_with_default() {
    let mut s = server();
    let h = s.add_material("stone", "stone", &Vec::new());
    assert_eq!(s.get_material_with_default(h, ResourceHandle::new(DEFAULT_MATERIAL_ID)), &"stone");
    let missing = ResourceHandle::<&str>::from_str("missing");
    assert_eq!(s.get_material_with_default(missing, ResourceHandle::new(DEFAULT_MATERIAL_ID)), &"default material");
}

#[test]
fn events_are_received_in_order() {
    let mut s = server();
    s.send(AssetEvent::Ready(UntypedHandle::from_handle(ResourceHandle::<()>::new(1))));
    s.send(AssetEvent::Ready(UntypedHandle::from_handle(ResourceHandle::<()>::new(2))));
    let ids: Vec<u64> = std::iter::from_fn(|| s.try_recv())
        .map(|e| match e {
            AssetEvent::Ready(u) => u.id(),
            AssetEvent::MeshletReady(h) => h.id(),
        })
        .collect();
    assert_eq!(ids, vec![1, 2]);
}

#[test]
fn meshlet_finish_announces_the_mesh() {
    let mut s = server();
    let h = s.add_meshlet(mesh("teapot_0"));
    assert!(s.try_recv().is_some());
    s.finish_meshlet(h);
    match s.try_recv() {
        Some(AssetEvent::MeshletReady(m)) => assert_eq!(m.id(), h.id()),
        _ => panic!("expected a meshlet event"),
    }
    s.finish_meshlet(ResourceHandle::new(12345));
    assert!(s.try_recv().is_none());
}

#[test]
fn processing_events_uploads_ready_meshes() {
    let mut s = server();
    let mut storage = MeshletStorage::new();
    let a = s.add_meshlet(mesh("a"));
    let b = s.add_meshlet(mesh("b"));
    s.finish_meshlet(a);
    s.finish_meshlet(b);
    process_asset_event(&mut s, &mut storage);
    assert!(s.try_recv().is_none());
    assert_eq!(storage.meshlet_count(), 2);
    assert_eq!(s.get_meshlet(a).unwrap().meshlet_offset, 0);
    assert_eq!(s.get_meshlet(b).unwrap().meshlet_offset, 1);
}

#[test]
fn material_listens_to_its_textures() {
    let mut s = server();
    let tex = UntypedHandle::from_handle(ResourceHandle::<()>::from_str("diffuse.png"));
    let m = s.add_material("mat", "mat", &vec![tex, tex]);
    assert_eq!(s.get_material(m), Some(&"mat"));
    // The Ready events of the material are dispatched; its listeners are dropped.
    let mut storage = MeshletStorage::new();
    s.dispatch_ready(tex);
    process_asset_event(&mut s, &mut storage);
    assert!(s.try_recv().is_none());
}

#[test]
fn scene_keeps_cameras_and_the_default_material() {
    let mut scene: Scene<u32, &'static str, &'static str> = Scene::new(vec![(0, "white")], "default");
    assert_eq!(scene.add_camera(7), 0);
    assert_eq!(scene.add_camera(8), 1);
    assert_eq!(*scene.main_camera(), 7);
    let missing = ResourceHandle::<&str>::from_str("nothing");
    assert_eq!(scene.get_material(missing), &"default");
    assert!(!scene.prepare_meshlet_resources());
}

#[test]
fn scene_uploads_meshes_from_events() {
    let mut scene: Scene<u32, &'static str, &'static str> = Scene::new(Vec::new(), "default");
    let h = scene.asset_server.add_meshlet(mesh("teapot_0"));
    scene.asset_server.finish_meshlet(h);
    scene.process_asset_event();
    assert_eq!(scene.meshlets.meshlet_count(), 1);
    assert!(scene.get_meshlet_mesh(h).is_some());
    assert!(!scene.prepare_meshlet_resources());
}

#[test]
fn mesh_of_a_stored_name_keeps_its_offset() {
    let mut s = server();
    let mut storage = MeshletStorage::new();
    let mut first = mesh("a");
    storage.queue_upload(&mut first);
    let mut other = mesh("b");
    storage.queue_upload(&mut other);
    let mut again = mesh("b");
    again.meshlet_offset = 9;
    let h = s.add_meshlet(again);
    s.finish_meshlet(h);
    process_asset_event(&mut s, &mut storage);
    assert_eq!(storage.meshlet_count(), 2);
    assert_eq!(s.get_meshlet(h).unwrap().meshlet_offset, 9);
}

#[test]
fn material_textures_fall_back_to_white() {
    let mut s = server();
    let white = s.material_texture(None);
    assert_eq!(white.id(), 0);
    let t = s.material_texture(Some("bricks"));
    assert_eq!(t.id(), ResourceHandle::<&str>::from_str("bricks").id());
    assert!(s.get_texture(t).is_none());
    s.add_texture("brick pixels", "bricks");
    assert_eq!(s.get_texture(t), Some(&"brick pixels"));
}
