use mere::handle::ResourceHandle;
use mere::instance_storage::{Instance, InstanceStorage, QuatBits, TransformBits};
use mere::mesh::{Aabb, BoundingSphere, CullData, Vec3Bits, VertexAttributes};
use mere::meshlet::{
    build_per_meshlet_attributes, build_triangle_graph, merge_meshlets, partition_count,
    partition_triangles, ClusterMeshlet, Meshlets,
};

fn transform(t: u32) -> TransformBits {
    TransformBits {
        translation: Vec3Bits { x: t, y: 0, z: 0 },
        rotation: QuatBits { x: 0, y: 0, z: 0, w: 0x3f80_0000 },
        scale: Vec3Bits { x: 0x3f80_0000, y: 0x3f80_0000, z: 0x3f80_0000 },
    }
}

fn instance(t: u32, offset: u32, count: u32, material: u64, material_id: u32) -> Instance {
    let aabb = Aabb::new(Vec3Bits { x: t, y: 0, z: 0 }, Vec3Bits { x: 1, y: 1, z: 1 });
    Instance::new(transform(t), aabb, ResourceHandle::new(7), offset, count, material, material_id)
}

#[test]
fn instance_new_has_no_motion() {
    let i = instance(3, 0, 1, 9, 2);
    assert_eq!(i.transform, i.previous_transform);
    assert_eq!(i.material, 9);
    assert_eq!(i.material_id, 2);
}

#[test]
fn instances_are_kept_in_order() {
    let mut s = InstanceStorage::new();
    let a = s.add_instance(instance(1, 0, 4, 10, 0));
    let b = s.add_instance(instance(2, 4, 6, 11, 1));
    assert_ne!(a, b);
    assert_eq!(s.get(a).unwrap().meshlet_count, 4);
    assert_eq!(s.get(b).unwrap().meshlet_offset, 4);
    let all = s.iter();
    assert_eq!(all.len(), 2);
    assert_eq!(all[1].material, 11);
    assert_eq!(s.count_clusters(), 10);
    assert!(s.materials_in_scene.contains(&10) && s.materials_in_scene.contains(&11));
}

#[test]
fn instance_buffers_follow_the_instances() {
    let mut s = InstanceStorage::new();
    s.add_instance(instance(1, 0, 4, 10, 0));
    s.add_instance(instance(2, 4, 6, 11, 1));
    s.build_instance_buffers();
    assert_eq!(s.scene_instance_count, 2);
    assert_eq!(s.instance_meshlet_offsets, vec![0, 4]);
    assert_eq!(s.instance_meshlet_counts, vec![4, 6]);
    assert_eq!(s.instance_material_ids, vec![0, 1]);
    assert_eq!(s.instance_aabbs[1].center.x, 2);
    assert_eq!(s.instance_transforms[0].0, transform(1));
    assert_eq!(s.report_memory_device(), 2 * 144 + 2 * 24 + 4 * 6);
    s.build_instance_buffers();
    assert_eq!(s.instance_meshlet_counts, vec![4, 6]);
}

#[test]
fn empty_storage() {
    let mut s = InstanceStorage::new();
    assert_eq!(s.count_clusters(), 0);
    s.build_instance_buffers();
    assert_eq!(s.scene_instance_count, 0);
    assert_eq!(s.report_memory_device(), 0);
}

#[test]
fn merging_moves_the_offsets() {
    let mut m = Meshlets::new();
    m.vertices = vec![0, 1, 2];
    m.triangles = vec![0, 1, 2];
    m.meshlets = vec![ClusterMeshlet { vertex_offset: 0, triangle_offset: 0, vertex_count: 3, triangle_count: 1 }];
    let mut other = Meshlets::new();
    other.vertices = vec![5, 6, 7, 8];
    other.triangles = vec![0, 1, 2, 1, 2, 3];
    other.meshlets = vec![ClusterMeshlet { vertex_offset: 0, triangle_offset: 0, vertex_count: 4, triangle_count: 2 }];
    merge_meshlets(&mut m, other);
    assert_eq!(m.vertices, vec![0, 1, 2, 5, 6, 7, 8]);
    assert_eq!(m.triangles.len(), 9);
    assert_eq!(m.meshlets[1].vertex_offset, 3);
    assert_eq!(m.meshlets[1].triangle_offset, 3);
    assert_eq!(m.meshlets[1].triangle_count, 2);
}

#[test]
fn per_meshlet_attributes_are_gathered() {
    let attrs: Vec<VertexAttributes> =
        (0..4).map(|i| VertexAttributes { normal: i, uv: 10 + i, tangent: 20 + i }).collect();
    let meshlet = ClusterMeshlet { vertex_offset: 0, triangle_offset: 6, vertex_count: 2, triangle_count: 2 };
    let sphere = BoundingSphere::new(Vec3Bits { x: 0, y: 0, z: 0 }, 0);
    let cull = CullData { bounds: sphere, parent_error: sphere, error: 5 };
    let mut out_attrs = vec![VertexAttributes { normal: 99, uv: 99, tangent: 99 }];
    let mut out_meshlets = Vec::new();
    build_per_meshlet_attributes(&meshlet, cull, &[3, 1], &attrs, &mut out_attrs, &mut out_meshlets);
    assert_eq!(out_attrs.len(), 3);
    assert_eq!(out_attrs[1].normal, 3);
    assert_eq!(out_attrs[2].uv, 11);
    assert_eq!(out_meshlets.len(), 1);
    assert_eq!(out_meshlets[0].attribute_offset, 1);
    assert_eq!(out_meshlets[0].index_offset, 6);
    assert_eq!(out_meshlets[0].index_count, 6);
    assert_eq!(out_meshlets[0].cull_data.error, 5);
}

#[test]
fn triangle_graph_of_a_quad() {
    // Two triangles sharing the edge 1-2.
    let indices = [0u32, 1, 2, 2, 1, 3];
    let remap = [0u32, 1, 2, 3];
    let g = build_triangle_graph(&indices, &remap).unwrap();
    assert_eq!(g.xadj, vec![0, 1, 2]);
    assert_eq!(g.adjncy, vec![1, 0]);
    assert_eq!(g.adjwgt.len(), 2);
    assert!(g.adjwgt[0] > 0);
}

#[test]
fn partition_counts() {
    assert_eq!(partition_count(0), 1);
    assert_eq!(partition_count(124), 1);
    assert_eq!(partition_count(125), 2);
}

#[test]
fn partitioning_small_meshes() {
    assert_eq!(partition_triangles(&[], &[]).unwrap().len(), 0);
    let indices = [0u32, 1, 2, 2, 1, 3];
    let remap = [0u32, 1, 2, 3];
    let clusters = partition_triangles(&indices, &remap).unwrap();
    assert_eq!(clusters.len(), 1);
    assert_eq!(clusters[0], vec![0, 1, 2, 2, 1, 3]);
}

#[test]
fn partitioning_a_grid_into_two_clusters() {
    // A 10 x 10 grid of quads, two triangles each: 200 triangles.
    let mut indices = Vec::new();
    for y in 0..10u32 {
        for x in 0..10u32 {
            let a = y * 11 + x;
            let b = a + 1;
            let c = a + 11;
            let d = c + 1;
            indices.extend_from_slice(&[a, b, c, c, b, d]);
        }
    }
    let remap: Vec<u32> = (0..121).collect();
    let clusters = partition_triangles(&indices, &remap).unwrap();
    assert_eq!(clusters.len(), 2);
    let mut seen: Vec<[u32; 3]> = clusters
        .iter()
        .flat_map(|c| c.chunks(3).map(|t| [t[0], t[1], t[2]]).collect::<Vec<_>>())
        .collect();
    let mut all: Vec<[u32; 3]> = indices.chunks(3).map(|t| [t[0], t[1], t[2]]).collect();
    seen.sort();
    all.sort();
    assert_eq!(seen, all);
    assert!(clusters.iter().all(|c| !c.is_empty()));
}

#[test]
fn triangle_graph_lists_each_edge_at_both_ends() {
    // Two triangles sharing an edge, and a degenerate one touching them.
    let indices = [0u32, 1, 2, 2, 1, 3, 3, 3, 4];
    let remap = [0u32, 1, 2, 3, 4];
    let g = build_triangle_graph(&indices, &remap).unwrap();
    assert_eq!(g.xadj.len(), 4);
    for a in 0..3usize {
        for k in g.xadj[a] as usize..g.xadj[a + 1] as usize {
            let b = g.adjncy[k] as usize;
            let w = g.adjwgt[k];
            let mirrored = (g.xadj[b] as usize..g.xadj[b + 1] as usize)
                .any(|k2| g.adjncy[k2] as usize == a && g.adjwgt[k2] == w);
            assert!(mirrored);
        }
    }
    let clusters = partition_triangles(&indices, &remap).unwrap();
    assert_eq!(clusters.len(), 1);
    assert_eq!(clusters[0].len(), 9);
}
