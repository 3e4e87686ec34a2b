use mere::gpu_buffer::{storage_write, GpuBuffer, StorageWrite};
use mere::handle::ResourceHandle;
use mere::mesh::{BoundingSphere, CullData, Meshlet, MeshletMesh, Vec3Bits, Vertex, VertexAttributes};
use mere::meshlet_storage::{wrapping_add, MeshletStorage};

#[test]
fn first_write_grows_the_buffer_to_fit() {
    let mut b = GpuBuffer::new(Some("test"));
    assert_eq!(b.size_in_bytes(), 0);
    let r = b.queue_write(vec![1u8; 16]);
    assert_eq!((r.start, r.end), (0, 16));
    assert_eq!(b.size_in_bytes(), 16);
    assert_eq!(b.label(), Some("test"));
}

#[test]
fn full_buffer_doubles() {
    let mut b = GpuBuffer::new(None);
    b.queue_write(vec![1u8; 16]);
    let r = b.queue_write(vec![2u8; 8]);
    assert_eq!((r.start, r.end), (16, 24));
    assert_eq!(b.size_in_bytes(), 48);
    assert!(b.needs_expansion(16));
    assert!(!b.needs_expansion(48));
}

#[test]
fn large_write_grows_by_its_size() {
    let mut b = GpuBuffer::new(None);
    b.queue_write(vec![1u8; 4]);
    let r = b.queue_write(vec![2u8; 100]);
    assert_eq!((r.start, r.end), (4, 104));
    assert_eq!(b.size_in_bytes(), 104);
}

#[test]
fn freed_range_is_reused_best_fit() {
    let mut b = GpuBuffer::new(None);
    let a = b.queue_write(vec![1u8; 16]);
    b.queue_write(vec![2u8; 8]);
    // Free ranges now: 24..48 (24 bytes). Freeing 0..16 adds a 16-byte range.
    b.mark_slice_unused(a);
    let r = b.queue_write(vec![3u8; 12]);
    assert_eq!((r.start, r.end), (0, 12));
    assert_eq!(b.size_in_bytes(), 48);
}

#[test]
fn pending_writes_come_out_in_order() {
    let mut b = GpuBuffer::new(None);
    b.queue_write(vec![1u8; 4]);
    b.queue_write(vec![2u8; 4]);
    let w = b.take_pending_writes();
    assert_eq!(w.len(), 2);
    assert_eq!(w[0].data, vec![1u8; 4]);
    assert_eq!((w[1].range.start, w[1].range.end), (4, 8));
    assert_eq!(b.take_pending_writes().len(), 0);
}

#[test]
fn storage_write_choices() {
    assert_eq!(storage_write(None, 16), StorageWrite::Create);
    assert_eq!(storage_write(Some(8), 16), StorageWrite::Create);
    assert_eq!(storage_write(Some(16), 16), StorageWrite::Overwrite);
    assert_eq!(storage_write(None, 0), StorageWrite::Skip);
}

fn mesh(name: &str, vertex_offset: u32, index_offset: u32) -> MeshletMesh {
    let sphere = BoundingSphere::new(Vec3Bits { x: 0, y: 0, z: 0 }, 1);
    MeshletMesh {
        name: name.to_string(),
        vertex_positions: vec![Vertex { position: Vec3Bits { x: 1, y: 2, z: 3 } }; 3],
        vertex_attributes: vec![VertexAttributes { normal: 0, uv: 0, tangent: 0 }; 3],
        meshlet_vertex_indices: vec![0, 1, 2],
        meshlet_indices: vec![0, 1, 2],
        meshlets: vec![Meshlet {
            vertex_offset,
            attribute_offset: 0,
            vertex_count: 3,
            index_offset,
            index_count: 3,
            cull_data: CullData { bounds: sphere, parent_error: sphere, error: 0 },
        }],
        meshlet_offset: 0,
    }
}

#[test]
fn upload_places_the_mesh_arrays() {
    let mut s = MeshletStorage::new();
    let mut a = mesh("a", 0, 0);
    assert_eq!(s.queue_upload(&mut a), 0);
    let mut b = mesh("b", 0, 0);
    let off = s.queue_upload(&mut b);
    assert_eq!(off, 1);
    assert_eq!(b.meshlet_offset, 1);
    assert_eq!(s.meshlet_count(), 2);
    // The second mesh's vertex indices point past the first mesh's three vertices,
    // and its meshlet points past the first mesh's indices.
    let writes = s.vertex_indices.take_pending_writes();
    assert_eq!(writes[1].data, [3u32, 4, 5].iter().flat_map(|v| v.to_le_bytes()).collect::<Vec<u8>>());
    let meshlets = s.meshlets.take_pending_writes();
    assert_eq!(&meshlets[1].data[0..4], &3u32.to_le_bytes());
    assert_eq!(&meshlets[1].data[12..16], &3u32.to_le_bytes());
}

#[test]
fn upload_of_a_stored_name_changes_nothing() {
    let mut s = MeshletStorage::new();
    let mut a = mesh("a", 0, 0);
    s.queue_upload(&mut a);
    let before = s.report_memory();
    let mut again = mesh("a", 0, 0);
    again.meshlet_offset = 7;
    assert_eq!(s.queue_upload(&mut again), 7);
    assert_eq!(s.meshlet_count(), 1);
    assert_eq!(s.report_memory(), before);
}

#[test]
fn remove_frees_the_ranges() {
    let mut s = MeshletStorage::new();
    let mut a = mesh("a", 0, 0);
    s.queue_upload(&mut a);
    s.remove(ResourceHandle::from_str("a"));
    assert_eq!(s.meshlet_count(), 0);
    s.remove(ResourceHandle::from_str("a"));
    assert_eq!(s.meshlet_count(), 0);
    let mut b = mesh("b", 0, 0);
    assert_eq!(s.queue_upload(&mut b), 0);
}

#[test]
fn report_memory_sums_the_buffers() {
    let mut s = MeshletStorage::new();
    let mut a = mesh("a", 0, 0);
    s.queue_upload(&mut a);
    assert_eq!(s.report_memory(), 36 + 12 + 3 + 56);
}

#[test]
fn offsets_wrap_around() {
    assert_eq!(wrapping_add(u32::MAX, 2), 1);
    assert_eq!(wrapping_add(3, 4), 7);
}

#[test]
fn storage_buffer_grows_only_when_needed() {
    let mut b = mere::gpu_buffer::GpuStorageBuffer::new(Some("ids"), vec![1u32, 2, 3]);
    assert_eq!(b.binding_size(), None);
    assert_eq!(b.write_buffer(12), StorageWrite::Create);
    assert_eq!(b.binding_size(), Some(Some(12)));
    assert_eq!(b.write_buffer(8), StorageWrite::Overwrite);
    assert_eq!(b.binding_size(), Some(Some(8)));
    assert_eq!(b.write_buffer(16), StorageWrite::Create);
    assert_eq!(b.write_buffer(0), StorageWrite::Overwrite);
    assert_eq!(b.binding_size(), Some(None));
    assert_eq!(b.get(), &vec![1u32, 2, 3]);
    b.set(vec![4]);
    assert_eq!(b.get(), &vec![4u32]);
    assert_eq!(b.label(), Some("ids"));
}

#[test]
fn asset_state_from_option() {
    assert!(matches!(mere::asset_server::AssetState::new(Some(3)), mere::asset_server::AssetState::Ready(3)));
    assert!(matches!(mere::asset_server::AssetState::<u8>::new(None), mere::asset_server::AssetState::Loading));
}

#[test]
fn write_into_a_freed_range_does_not_grow() {
    let mut b = GpuBuffer::new(Some("b"));
    let r = b.queue_write(vec![1u8; 64]);
    let size = b.size_in_bytes();
    b.mark_slice_unused(r);
    let again = b.queue_write(vec![2u8; 16]);
    assert_eq!(again.start, 0);
    assert_eq!(again.end, 16);
    assert_eq!(b.size_in_bytes(), size);
}

#[test]
fn each_new_name_adds_one_mesh() {
    let mut s = MeshletStorage::new();
    let mut a = mesh("a", 0, 0);
    s.queue_upload(&mut a);
    assert_eq!(s.meshlet_count(), 1);
    let mut b = mesh("b", 0, 0);
    s.queue_upload(&mut b);
    assert_eq!(s.meshlet_count(), 2);
}
