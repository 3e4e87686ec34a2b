use mere::handle::{MeshHandle, ResourceHandle, UntypedHandle};
use mere::mesh::{
    decode_mere_file_bytes, encode_mere_file, Aabb, BoundingSphere, CullData, MereFileError, Meshlet,
    MeshletMesh, Vec3Bits, Vertex, VertexAttributes,
};

fn v3(x: u32, y: u32, z: u32) -> Vec3Bits {
    Vec3Bits { x, y, z }
}

fn sample_mesh(name: &str) -> MeshletMesh {
    let sphere = BoundingSphere::new(v3(1, 2, 3), 4);
    MeshletMesh {
        name: name.to_string(),
        vertex_positions: vec![Vertex { position: v3(1, 2, 3) }, Vertex { position: v3(4, 5, 6) }],
        vertex_attributes: vec![VertexAttributes { normal: 7, uv: 8, tangent: 9 }],
        meshlet_vertex_indices: vec![0, 1, 0],
        meshlet_indices: vec![0, 1, 2],
        meshlets: vec![Meshlet {
            vertex_offset: 0,
            attribute_offset: 0,
            vertex_count: 3,
            index_offset: 0,
            index_count: 3,
            cull_data: CullData { bounds: sphere, parent_error: sphere, error: 11 },
        }],
        meshlet_offset: 0,
    }
}

fn same_arrays(a: &MeshletMesh, b: &MeshletMesh) -> bool {
    a.vertex_positions == b.vertex_positions
        && a.vertex_attributes == b.vertex_attributes
        && a.meshlet_vertex_indices == b.meshlet_vertex_indices
        && a.meshlet_indices == b.meshlet_indices
        && a.meshlets == b.meshlets
}

#[test]
fn mesh_file_header_counts_are_little_endian() {
    let bytes = sample_mesh("m").into_mere_file();
    assert_eq!(&bytes[0..8], &2u64.to_le_bytes());
    assert_eq!(&bytes[8..16], &1u64.to_le_bytes());
    assert_eq!(&bytes[16..24], &3u64.to_le_bytes());
    assert_eq!(&bytes[24..32], &3u64.to_le_bytes());
    assert_eq!(&bytes[32..40], &1u64.to_le_bytes());
    assert_eq!(bytes.len(), 40 + 2 * 12 + 12 + 3 * 4 + 3 + 56);
    assert_eq!(&bytes[40..44], &1u32.to_le_bytes());
}

#[test]
fn mesh_file_roundtrip() {
    let mesh = sample_mesh("teapot_0");
    let mut bytes = mesh.into_mere_file();
    let len = bytes.len();
    bytes.extend_from_slice(&[9, 9, 9]);
    let (read, used) = MeshletMesh::from_mere_file(&bytes).unwrap();
    assert_eq!(used, len);
    assert!(same_arrays(&read, &mesh));
    assert_eq!(read.name, "");
    assert_eq!(read.meshlet_offset, 0);
}

#[test]
fn mesh_file_too_small() {
    let r = MeshletMesh::from_mere_file(&[0u8; 39]);
    assert!(matches!(r, Err(MereFileError::TooSmall)));
}

#[test]
fn mesh_file_truncated() {
    let bytes = sample_mesh("m").into_mere_file();
    let r = MeshletMesh::from_mere_file(&bytes[..bytes.len() - 1]);
    assert!(matches!(r, Err(MereFileError::Truncated)));
}

#[test]
fn mere_file_roundtrip_of_two_meshes() {
    let meshes = vec![sample_mesh("a"), sample_mesh("b")];
    let bytes = encode_mere_file(&meshes);
    assert_eq!(&bytes[0..4], &2u32.to_le_bytes());
    let read = decode_mere_file_bytes(&bytes).unwrap();
    assert_eq!(read.len(), 2);
    assert!(same_arrays(&read[0], &meshes[0]));
    assert!(same_arrays(&read[1], &meshes[1]));
}

#[test]
fn mere_file_with_missing_mesh_is_refused() {
    let meshes = vec![sample_mesh("a")];
    let mut bytes = encode_mere_file(&meshes);
    bytes[0] = 2;
    let r = decode_mere_file_bytes(&bytes);
    assert!(matches!(r, Err(MereFileError::TooSmall)));
}

#[test]
fn empty_mere_file() {
    let bytes = encode_mere_file(&Vec::new());
    assert_eq!(bytes, vec![0, 0, 0, 0]);
    assert_eq!(decode_mere_file_bytes(&bytes).unwrap().len(), 0);
}

#[test]
fn set_name_keeps_the_arrays() {
    let mut mesh = sample_mesh("a");
    mesh.set_name("b".to_string());
    assert_eq!(mesh.name, "b");
    assert!(same_arrays(&mesh, &sample_mesh("a")));
}

#[test]
fn vertex_attributes_default_packs_a_zero_normal() {
    let a = VertexAttributes::default();
    assert_eq!(a.normal, 1023 | (1023 << 11) | (511 << 22));
    assert_eq!(a.uv, 0);
    assert_eq!(a.tangent, 0);
}

#[test]
fn aabb_new_keeps_its_parts() {
    let b = Aabb::new(v3(1, 2, 3), v3(4, 5, 6));
    assert_eq!(b.center, v3(1, 2, 3));
    assert_eq!(b.half_extents, v3(4, 5, 6));
}

fn blake3_prefix(bytes: &[u8]) -> u64 {
    let digest = blake3::hash(bytes);
    u64::from_le_bytes(digest.as_bytes()[0..8].try_into().unwrap())
}

#[test]
fn handle_from_str_is_the_digest_prefix() {
    let h = ResourceHandle::<()>::from_str("utah_teapot_0");
    assert_eq!(h.id(), blake3_prefix(b"utah_teapot_0"));
    assert_ne!(h.id(), 0);
}

#[test]
fn handle_of_the_empty_string() {
    // BLAKE3("") = af1349b9f5f9a1a6 ...; its first eight bytes read little-endian.
    let h = ResourceHandle::<()>::from_str("");
    assert_eq!(h.id(), 0xa6a1_f9f5_b949_13af);
}

#[test]
fn handle_from_usize_hashes_its_bytes() {
    let h = ResourceHandle::<()>::from_usize(5);
    assert_eq!(h.id(), blake3_prefix(&5usize.to_le_bytes()));
}

#[test]
fn handles_are_equal_by_id() {
    let a = ResourceHandle::<u8>::new(3);
    let b = ResourceHandle::<u8>::new(3);
    let c = ResourceHandle::<u8>::new(4);
    assert!(a.same(&b));
    assert!(!a.same(&c));
    assert_eq!(UntypedHandle::from_handle(a).id(), 3);
}

#[test]
fn mesh_handle_counts_its_uses() {
    let h = MeshHandle::new(9);
    assert_eq!(h.id, 9);
    assert_eq!(h.use_count(), 1);
    let c = h.ref_counter.clone();
    assert_eq!(h.use_count(), 2);
    drop(c);
    assert_eq!(MeshHandle::id_from_path("a/b"), blake3_prefix(b"a/b"));
}

#[test]
fn mesh_read_from_its_own_bytes_alone_is_the_same() {
    let mesh = sample_mesh("p");
    let mut bytes = mesh.into_mere_file();
    bytes.extend_from_slice(&[1, 2, 3, 4, 5]);
    let (whole, used) = MeshletMesh::from_mere_file(&bytes).unwrap();
    let (prefix, used_again) = MeshletMesh::from_mere_file(&bytes[..used]).unwrap();
    assert_eq!(used_again, used);
    assert!(same_arrays(&whole, &prefix));
    assert!(same_arrays(&prefix, &mesh));
}

#[test]
fn mere_file_meshes_read_back_unnamed_at_offset_zero() {
    let mut a = sample_mesh("a");
    a.meshlet_offset = 5;
    let meshes = vec![a, sample_mesh("b")];
    let read = decode_mere_file_bytes(&encode_mere_file(&meshes)).unwrap();
    assert_eq!(read.len(), 2);
    for m in &read {
        assert_eq!(m.name, "");
        assert_eq!(m.meshlet_offset, 0);
    }
}
