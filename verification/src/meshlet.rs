//! Meshlet generation: the triangle adjacency graph handed to the graph
//! partitioner, the grouping of triangles by partition, and the merging of
//! the meshlets built for each partition.

use vstd::prelude::*;
use crate::mesh::{CullData, Meshlet, VertexAttributes, MAX_TRIANGLES};
use metis::option::{Contig, MinConn, ObjType, Opt, Seed, UFactor};

verus! {

/// One meshlet as built for a cluster of triangles: where its vertex ids and
/// its triangle indices start, and how many vertices and triangles it found.
#[derive(Clone, Copy, Debug, Default, PartialEq, Eq, Structural)]
pub struct ClusterMeshlet {
    pub vertex_offset: u32,
    pub triangle_offset: u32,
    pub vertex_count: u32,
    pub triangle_count: u32,
}

/// A list of meshlets with the vertex ids and triangle indices they refer to.
pub struct Meshlets {
    pub meshlets: Vec<ClusterMeshlet>,
    pub vertices: Vec<u32>,
    pub triangles: Vec<u8>,
}

impl Meshlets {
    /// No meshlets.
    pub fn new() -> (m: Self)
        ensures
            m.meshlets@ == Seq::<ClusterMeshlet>::empty(),
            m.vertices@ == Seq::<u32>::empty(),
            m.triangles@ == Seq::<u8>::empty(),
    {
        Meshlets { meshlets: Vec::new(), vertices: Vec::new(), triangles: Vec::new() }
    }
}

/// `m` with its offsets moved by `dv` and `dt`.
pub open spec fn shifted(m: ClusterMeshlet, dv: int, dt: int) -> ClusterMeshlet {
    ClusterMeshlet {
        vertex_offset: (m.vertex_offset + dv) as u32,
        triangle_offset: (m.triangle_offset + dt) as u32,
        ..m
    }
}

/// Appends the meshlets of `other` to `meshlets`: their vertex ids and
/// triangle indices are appended, and their offsets moved past what was
/// there before.
pub fn merge_meshlets(meshlets: &mut Meshlets, other: Meshlets)
    requires
        old(meshlets).vertices@.len() <= u32::MAX,
        old(meshlets).triangles@.len() <= u32::MAX,
        forall|i: int|
            0 <= i < other.meshlets@.len() ==> #[trigger] other.meshlets@[i].vertex_offset
                + old(meshlets).vertices@.len() <= u32::MAX && other.meshlets@[i].triangle_offset
                + old(meshlets).triangles@.len() <= u32::MAX,
    ensures
        final(meshlets).vertices@ == old(meshlets).vertices@ + other.vertices@,
        final(meshlets).triangles@ == old(meshlets).triangles@ + other.triangles@,
        final(meshlets).meshlets@ == old(meshlets).meshlets@ + other.meshlets@.map_values(
            |m: ClusterMeshlet|
                shifted(
                    m,
                    old(meshlets).vertices@.len() as int,
                    old(meshlets).triangles@.len() as int,
                ),
        ),
{
    let vertex_offset = meshlets.vertices.len() as u32;
    let index_offset = meshlets.triangles.len() as u32;
    let Meshlets { meshlets: other_meshlets, vertices: mut other_vertices, triangles: mut other_triangles } =
        other;
    meshlets.vertices.append(&mut other_vertices);
    meshlets.triangles.append(&mut other_triangles);
    let ghost start = meshlets.meshlets@;
    let ghost vs = meshlets.vertices@;
    let ghost ts = meshlets.triangles@;
    let ghost shift = |m: ClusterMeshlet| shifted(m, vertex_offset as int, index_offset as int);
    let mut i: usize = 0;
    while i < other_meshlets.len()
        invariant
            0 <= i <= other_meshlets@.len(),
            meshlets.meshlets@ == start + other_meshlets@.take(i as int).map_values(shift),
            meshlets.vertices@ == vs,
            meshlets.triangles@ == ts,
            shift == (|m: ClusterMeshlet| shifted(m, vertex_offset as int, index_offset as int)),
            forall|k: int|
                0 <= k < other_meshlets@.len() ==> #[trigger] other_meshlets@[k].vertex_offset
                    + vertex_offset <= u32::MAX && other_meshlets@[k].triangle_offset + index_offset
                    <= u32::MAX,
        decreases other_meshlets@.len() - i,
    {
        let m = other_meshlets[i];
        let moved = ClusterMeshlet {
            vertex_offset: m.vertex_offset + vertex_offset,
            triangle_offset: m.triangle_offset + index_offset,
            vertex_count: m.vertex_count,
            triangle_count: m.triangle_count,
        };
        meshlets.meshlets.push(moved);
        i = i + 1;
        assert(meshlets.meshlets@ =~= start + other_meshlets@.take(i as int).map_values(shift));
    }
    assert(other_meshlets@.take(i as int) =~= other_meshlets@);
}

/// The attributes of the vertices `ids` of `attributes`, in that order.
pub open spec fn gathered(ids: Seq<u32>, attributes: Seq<VertexAttributes>) -> Seq<VertexAttributes> {
    ids.map_values(|id: u32| attributes[id as int])
}

/// Appends the attributes of the vertices of `meshlet` to `out_attributes`,
/// and the meshlet record, pointing at them, to `out_meshlets`.
pub fn build_per_meshlet_attributes(
    meshlet: &ClusterMeshlet,
    cull_data: CullData,
    meshlet_vertex_ids: &[u32],
    vertex_attributes: &[VertexAttributes],
    out_attributes: &mut Vec<VertexAttributes>,
    out_meshlets: &mut Vec<Meshlet>,
)
    requires
        forall|i: int|
            0 <= i < meshlet_vertex_ids@.len() ==> #[trigger] meshlet_vertex_ids@[i]
                < vertex_attributes@.len(),
        meshlet.triangle_count * 3 <= u32::MAX,
    ensures
        final(out_attributes)@ == old(out_attributes)@ + gathered(
            meshlet_vertex_ids@,
            vertex_attributes@,
        ),
        final(out_meshlets)@ == old(out_meshlets)@.push(
            Meshlet {
                vertex_offset: meshlet.vertex_offset,
                attribute_offset: old(out_attributes)@.len() as u32,
                vertex_count: meshlet.vertex_count,
                index_offset: meshlet.triangle_offset,
                index_count: (meshlet.triangle_count * 3) as u32,
                cull_data,
            },
        ),
{
    let attribute_offset = out_attributes.len() as u32;
    let ghost start = out_attributes@;
    let mut i: usize = 0;
    while i < meshlet_vertex_ids.len()
        invariant
            0 <= i <= meshlet_vertex_ids@.len(),
            out_attributes@ == start + gathered(
                meshlet_vertex_ids@.take(i as int),
                vertex_attributes@,
            ),
            forall|k: int|
                0 <= k < meshlet_vertex_ids@.len() ==> #[trigger] meshlet_vertex_ids@[k]
                    < vertex_attributes@.len(),
        decreases meshlet_vertex_ids@.len() - i,
    {
        let id = meshlet_vertex_ids[i] as usize;
        out_attributes.push(vertex_attributes[id]);
        i = i + 1;
        assert(out_attributes@ =~= start + gathered(
            meshlet_vertex_ids@.take(i as int),
            vertex_attributes@,
        ));
    }
    assert(meshlet_vertex_ids@.take(i as int) =~= meshlet_vertex_ids@);
    out_meshlets.push(
        Meshlet {
            vertex_offset: meshlet.vertex_offset,
            attribute_offset,
            vertex_count: meshlet.vertex_count,
            index_offset: meshlet.triangle_offset,
            index_count: meshlet.triangle_count * 3,
            cull_data,
        },
    );
}

// ---------------------------------------------------------------------------
// Partitions

/// The triangles `t < n` that `parts` places in partition `p`, in increasing order.
pub open spec fn triangles_in_part(parts: Seq<i32>, p: int, n: int) -> Seq<usize>
    decreases n,
{
    if n <= 0 {
        Seq::empty()
    } else if parts[n - 1] == p {
        triangles_in_part(parts, p, n - 1).push((n - 1) as usize)
    } else {
        triangles_in_part(parts, p, n - 1)
    }
}

/// Every entry of `parts` names one of `count` partitions.
pub open spec fn parts_in_range(parts: Seq<i32>, count: int) -> bool {
    forall|t: int| 0 <= t < parts.len() ==> 0 <= #[trigger] parts[t] < count
}

proof fn lemma_triangles_in_part_bounded(parts: Seq<i32>, p: int, n: int)
    requires
        0 <= n,
    ensures
        forall|k: int|
            0 <= k < triangles_in_part(parts, p, n).len() ==> #[trigger] triangles_in_part(
                parts,
                p,
                n,
            )[k] < n,
        triangles_in_part(parts, p, n).len() <= n,
    decreases n,
{
    if n > 0 {
        lemma_triangles_in_part_bounded(parts, p, n - 1);
    }
}

/// Law: the partition lists hold every triangle exactly once: triangle `t`
/// is in the list of partition `p` exactly when `parts` places it there,
/// and each list is strictly increasing, so no triangle repeats.
pub proof fn lemma_partition_lists(parts: Seq<i32>, p: int, n: int, t: int)
    requires
        0 <= n <= parts.len(),
        parts.len() <= usize::MAX,
        0 <= t <= usize::MAX,
    ensures
        triangles_in_part(parts, p, n).contains(t as usize) <==> (t < n && parts[t] == p),
        forall|i: int, j: int|
            0 <= i < j < triangles_in_part(parts, p, n).len() ==> (#[trigger] triangles_in_part(
                parts,
                p,
                n,
            )[i]) < #[trigger] triangles_in_part(parts, p, n)[j],
    decreases n,
{
    if n > 0 {
        lemma_partition_lists(parts, p, n - 1, t);
        lemma_triangles_in_part_bounded(parts, p, n - 1);
        let prev = triangles_in_part(parts, p, n - 1);
        if parts[n - 1] == p {
            let cur = prev.push((n - 1) as usize);
            assert(cur.contains(t as usize) <==> (prev.contains(t as usize) || t == n - 1)) by {
                if cur.contains(t as usize) && !prev.contains(t as usize) {
                    let k = choose|k: int| 0 <= k < cur.len() && cur[k] == t as usize;
                    if k < prev.len() {
                        assert(prev[k] == cur[k]);
                    }
                }
                if prev.contains(t as usize) {
                    let k = choose|k: int| 0 <= k < prev.len() && prev[k] == t as usize;
                    assert(cur[k] == prev[k]);
                }
                if t == n - 1 {
                    assert(cur[prev.len() as int] == (n - 1) as usize);
                }
            }
        }
    }
}

/// The triangles of each of `count` partitions, each list in increasing order.
pub fn group_partitions(parts: &[i32], count: usize) -> (groups: Vec<Vec<usize>>)
    requires
        parts_in_range(parts@, count as int),
    ensures
        groups@.len() == count,
        forall|p: int| 0 <= p < count ==> #[trigger] groups@[p]@ == triangles_in_part(
            parts@,
            p,
            parts@.len() as int,
        ),
{
    let mut groups: Vec<Vec<usize>> = Vec::new();
    let mut p: usize = 0;
    while p < count
        invariant
            0 <= p <= count,
            groups@.len() == p,
            forall|q: int| 0 <= q < p ==> #[trigger] groups@[q]@ == Seq::<usize>::empty(),
        decreases count - p,
    {
        groups.push(Vec::new());
        p = p + 1;
    }
    let mut t: usize = 0;
    while t < parts.len()
        invariant
            0 <= t <= parts@.len(),
            groups@.len() == count,
            parts_in_range(parts@, count as int),
            forall|q: int| 0 <= q < count ==> #[trigger] groups@[q]@ == triangles_in_part(
                parts@,
                q,
                t as int,
            ),
        decreases parts@.len() - t,
    {
        let q = parts[t] as usize;
        let ghost before = groups@;
        groups[q].push(t);
        t = t + 1;
        assert forall|r: int| 0 <= r < count implies #[trigger] groups@[r]@ == triangles_in_part(
            parts@,
            r,
            t as int,
        ) by {
            if r != q as int {
                assert(groups@[r] == before[r]);
            }
        }
    }
    groups
}

/// The triangle indices of the triangles `tris`, three per triangle.
pub open spec fn cluster_of(indices: Seq<u32>, tris: Seq<usize>) -> Seq<u32>
    decreases tris.len(),
{
    if tris.len() == 0 {
        Seq::empty()
    } else {
        cluster_of(indices, tris.drop_last()) + indices.subrange(
            3 * tris.last() as int,
            3 * tris.last() + 3,
        )
    }
}

/// The triangle indices of the triangles `tris`, three per triangle.
pub fn cluster_indices(indices: &[u32], tris: &Vec<usize>) -> (cluster: Vec<u32>)
    requires
        forall|k: int| 0 <= k < tris@.len() ==> 3 * #[trigger] tris@[k] + 3 <= indices@.len(),
    ensures
        cluster@ == cluster_of(indices@, tris@),
{
    let mut cluster: Vec<u32> = Vec::new();
    let ilen = indices.len();
    let mut k: usize = 0;
    while k < tris.len()
        invariant
            0 <= k <= tris@.len(),
            ilen == indices@.len(),
            forall|j: int| 0 <= j < tris@.len() ==> 3 * #[trigger] tris@[j] + 3 <= indices@.len(),
            cluster@ == cluster_of(indices@, tris@.take(k as int)),
        decreases tris@.len() - k,
    {
        let i = 3 * tris[k];
        cluster.push(indices[i]);
        cluster.push(indices[i + 1]);
        cluster.push(indices[i + 2]);
        proof {
            assert(tris@.take(k + 1).drop_last() =~= tris@.take(k as int));
        }
        k = k + 1;
        assert(cluster@ =~= cluster_of(indices@, tris@.take(k as int)));
    }
    assert(tris@.take(k as int) =~= tris@);
    cluster
}

/// The clusters of triangle indices that `parts` makes of the triangles of
/// `indices`: one per partition, each listing its triangles in order.
pub open spec fn clusters_of(indices: Seq<u32>, parts: Seq<i32>, count: int) -> Seq<Seq<u32>> {
    Seq::new(
        count as nat,
        |p: int| cluster_of(indices, triangles_in_part(parts, p, parts.len() as int)),
    )
}

/// The clusters of triangle indices that the partition `parts` of the
/// triangles of `indices` into `count` parts makes.
pub fn clusters_from_partition(indices: &[u32], parts: &[i32], count: usize) -> (clusters: Vec<
    Vec<u32>,
>)
    requires
        parts_in_range(parts@, count as int),
        3 * parts@.len() <= indices@.len(),
    ensures
        clusters@.len() == count,
        forall|p: int| 0 <= p < count ==> #[trigger] clusters@[p]@ == clusters_of(
            indices@,
            parts@,
            count as int,
        )[p],
{
    let groups = group_partitions(parts, count);
    let mut clusters: Vec<Vec<u32>> = Vec::new();
    let mut p: usize = 0;
    while p < count
        invariant
            0 <= p <= count,
            groups@.len() == count,
            3 * parts@.len() <= indices@.len(),
            forall|q: int| 0 <= q < count ==> #[trigger] groups@[q]@ == triangles_in_part(
                parts@,
                q,
                parts@.len() as int,
            ),
            clusters@.len() == p,
            forall|q: int| 0 <= q < p ==> #[trigger] clusters@[q]@ == clusters_of(
                indices@,
                parts@,
                count as int,
            )[q],
        decreases count - p,
    {
        proof {
            lemma_triangles_in_part_bounded(parts@, p as int, parts@.len() as int);
        }
        let c = cluster_indices(indices, &groups[p]);
        clusters.push(c);
        p = p + 1;
    }
    clusters
}

/// Number of partitions for `triangle_count` triangles: one per
/// `MAX_TRIANGLES - 4` triangles, rounded up, and at least one.
pub open spec fn partition_count_for(triangle_count: int) -> int {
    let target = MAX_TRIANGLES - 4;
    let c = (triangle_count + target - 1) / target;
    if c < 1 {
        1
    } else {
        c
    }
}

/// Law: the partition count is the fewest parts of at most
/// `MAX_TRIANGLES - 4` triangles each that together hold `n > 0` triangles:
/// `c - 1` such parts hold fewer than `n`, `c` of them hold `n` or more; for
/// no triangles it is one.
pub proof fn lemma_partition_count_fits(n: int)
    requires
        0 <= n,
    ensures
        n == 0 ==> partition_count_for(n) == 1,
        n > 0 ==> (partition_count_for(n) - 1) * (MAX_TRIANGLES - 4) < n <= partition_count_for(n) * (
            MAX_TRIANGLES - 4),
{
    let c = (n + 123) / 124;
    assert(MAX_TRIANGLES - 4 == 124);
    if n > 0 {
        assert(c >= 1 && (c - 1) * 124 < n && n <= c * 124) by (nonlinear_arith)
            requires
                n > 0,
                c == (n + 123) / 124,
        ;
    } else {
        assert(c == 0);
    }
}

/// Number of partitions for `triangle_count` triangles: one per
/// `MAX_TRIANGLES - 4` triangles, rounded up, and at least one.
pub fn partition_count(triangle_count: usize) -> (count: usize)
    ensures
        count as int == partition_count_for(triangle_count as int),
        count >= 1,
        triangle_count == 0 ==> count == 1,
        triangle_count > 0 ==> (count - 1) * (MAX_TRIANGLES - 4) < triangle_count <= count * (
            MAX_TRIANGLES - 4),
{
    proof {
        lemma_partition_count_fits(triangle_count as int);
    }
    let target = MAX_TRIANGLES - 4;
    let c = triangle_count / target + if triangle_count % target == 0 {
        0
    } else {
        1
    };
    if c < 1 {
        1
    } else {
        c
    }
}


// ---------------------------------------------------------------------------
// The triangle adjacency graph

/// The position id of corner `i`: the remapped vertex of `indices[i]`.
pub open spec fn corner(ix: Seq<u32>, rm: Seq<u32>, i: int) -> u32 {
    rm[ix[i] as int]
}

/// `1` where corners `i` and `j` are at the same position, else `0`.
pub open spec fn same(ix: Seq<u32>, rm: Seq<u32>, i: int, j: int) -> int {
    if corner(ix, rm, i) == corner(ix, rm, j) {
        1
    } else {
        0
    }
}

/// The weight of the edge between triangles `a` and `b`: the number of pairs
/// of corners at the same position, one corner of each triangle (two distinct
/// corners of `a` where `b` is `a`).
pub open spec fn edge_weight(ix: Seq<u32>, rm: Seq<u32>, a: int, b: int) -> int {
    if a == b {
        same(ix, rm, 3 * a, 3 * a + 1) + same(ix, rm, 3 * a, 3 * a + 2) + same(
            ix,
            rm,
            3 * a + 1,
            3 * a + 2,
        )
    } else {
        same(ix, rm, 3 * a, 3 * b) + same(ix, rm, 3 * a, 3 * b + 1) + same(ix, rm, 3 * a, 3 * b + 2)
            + same(ix, rm, 3 * a + 1, 3 * b) + same(ix, rm, 3 * a + 1, 3 * b + 1) + same(
            ix,
            rm,
            3 * a + 1,
            3 * b + 2,
        ) + same(ix, rm, 3 * a + 2, 3 * b) + same(ix, rm, 3 * a + 2, 3 * b + 1) + same(
            ix,
            rm,
            3 * a + 2,
            3 * b + 2,
        )
    }
}

/// The adjacency entries of triangle `a` for triangle `b`: none where they
/// share no position, the pair `(b, weight)` where they do, and that pair
/// twice where `b` is `a` (once from each end of the loop edge).
pub open spec fn entries(ix: Seq<u32>, rm: Seq<u32>, a: int, b: int) -> Seq<(int, int)> {
    let w = edge_weight(ix, rm, a, b);
    if w == 0 {
        Seq::empty()
    } else if a == b {
        seq![(b, w), (b, w)]
    } else {
        seq![(b, w)]
    }
}

/// The adjacency entries of triangle `a` for the triangles `b < k`, by `b`.
pub open spec fn neighbors(ix: Seq<u32>, rm: Seq<u32>, a: int, k: int) -> Seq<(int, int)>
    decreases k,
{
    if k <= 0 {
        Seq::empty()
    } else {
        neighbors(ix, rm, a, k - 1) + entries(ix, rm, a, k - 1)
    }
}

/// The adjacency lists of triangles `0..k`, one after another.
pub open spec fn adjacency_prefix(ix: Seq<u32>, rm: Seq<u32>, k: int) -> Seq<(int, int)>
    decreases k,
{
    if k <= 0 {
        Seq::empty()
    } else {
        adjacency_prefix(ix, rm, k - 1) + neighbors(ix, rm, k - 1, (ix.len() / 3) as int)
    }
}

/// The triangles with a corner at position `v` among the first `n` corners,
/// one entry per such corner, in corner order.
pub open spec fn vertex_tris(ix: Seq<u32>, rm: Seq<u32>, v: int, n: int) -> Seq<usize>
    decreases n,
{
    if n <= 0 {
        Seq::empty()
    } else if corner(ix, rm, n - 1) as int == v {
        vertex_tris(ix, rm, v, n - 1).push(((n - 1) / 3) as usize)
    } else {
        vertex_tris(ix, rm, v, n - 1)
    }
}

/// Well-formed inputs of graph building: whole triangles, vertex indices
/// within the remap table, and position ids that are themselves indices of
/// it.
pub open spec fn graph_input_ok(ix: Seq<u32>, rm: Seq<u32>) -> bool {
    &&& ix.len() % 3 == 0
    &&& forall|i: int| 0 <= i < ix.len() ==> #[trigger] ix[i] < rm.len()
    &&& forall|v: int| 0 <= v < rm.len() ==> #[trigger] rm[v] < rm.len()
}

/// Too many triangles, or adjacency entries, for 32-bit graph indices.
pub open spec fn graph_too_large(ix: Seq<u32>, rm: Seq<u32>) -> bool {
    ix.len() / 3 > i32::MAX || adjacency_prefix(ix, rm, (ix.len() / 3) as int).len() > i32::MAX
}

/// The graph of triangles in compressed sparse row form: the entries of
/// triangle `t` are `adjncy[xadj[t]..xadj[t + 1]]`, with weights `adjwgt`.
pub struct TriangleGraph {
    pub xadj: Vec<i32>,
    pub adjncy: Vec<i32>,
    pub adjwgt: Vec<i32>,
}

/// `g` is the adjacency graph of the triangles of `ix` under `rm`.
pub open spec fn is_triangle_graph(g: TriangleGraph, ix: Seq<u32>, rm: Seq<u32>) -> bool {
    let t = (ix.len() / 3) as int;
    let flat = adjacency_prefix(ix, rm, t);
    &&& g.xadj@.len() == t + 1
    &&& forall|a: int| 0 <= a <= t ==> #[trigger] g.xadj@[a] == adjacency_prefix(ix, rm, a).len()
    &&& g.adjncy@.len() == flat.len()
    &&& g.adjwgt@.len() == flat.len()
    &&& forall|i: int| 0 <= i < flat.len() ==> #[trigger] g.adjncy@[i] == flat[i].0
    &&& forall|i: int| 0 <= i < flat.len() ==> #[trigger] g.adjwgt@[i] == flat[i].1
}

/// Triangle `t` found one of its corners among the first `n` at position `v`.
pub open spec fn listed_at(ix: Seq<u32>, rm: Seq<u32>, v: int, n: int, t: int) -> bool {
    ||| (3 * t < n && corner(ix, rm, 3 * t) as int == v)
    ||| (3 * t + 1 < n && corner(ix, rm, 3 * t + 1) as int == v)
    ||| (3 * t + 2 < n && corner(ix, rm, 3 * t + 2) as int == v)
}

proof fn lemma_vertex_tris(ix: Seq<u32>, rm: Seq<u32>, v: int, n: int)
    requires
        0 <= n <= ix.len(),
        ix.len() <= usize::MAX,
    ensures
        forall|j: int, k: int|
            0 <= j <= k < vertex_tris(ix, rm, v, n).len() ==> vertex_tris(ix, rm, v, n)[j]
                <= vertex_tris(ix, rm, v, n)[k],
        forall|k: int|
            0 <= k < vertex_tris(ix, rm, v, n).len() ==> listed_at(
                ix,
                rm,
                v,
                n,
                #[trigger] vertex_tris(ix, rm, v, n)[k] as int,
            ),
        forall|i: int|
            0 <= i < n && corner(ix, rm, i) as int == v ==> vertex_tris(ix, rm, v, n).contains(
                (i / 3) as usize,
            ),
        forall|k: int|
            0 <= k < vertex_tris(ix, rm, v, n).len() ==> #[trigger] vertex_tris(ix, rm, v, n)[k]
                <= (n - 1) / 3,
    decreases n,
{
    if n > 0 {
        lemma_vertex_tris(ix, rm, v, n - 1);
        let prev = vertex_tris(ix, rm, v, n - 1);
        let cur = vertex_tris(ix, rm, v, n);
        if corner(ix, rm, n - 1) as int == v {
            assert(cur == prev.push(((n - 1) / 3) as usize));
            assert(((n - 1) / 3) as usize == (n - 1) / 3);
            assert forall|k: int| 0 <= k < prev.len() implies prev[k] <= (n - 1) / 3 by {
                assert(prev[k] <= (n - 2) / 3);
            }
            assert forall|k: int| 0 <= k < cur.len() implies listed_at(ix, rm, v, n, #[trigger] cur[k] as int) by {
                if k < prev.len() {
                    assert(cur[k] == prev[k]);
                    assert(listed_at(ix, rm, v, n - 1, prev[k] as int));
                } else {
                    assert(cur[k] == (n - 1) / 3);
                }
            }
            assert forall|i: int| 0 <= i < n && corner(ix, rm, i) as int == v implies cur.contains(
                (i / 3) as usize,
            ) by {
                if i < n - 1 {
                    let k = choose|k: int| 0 <= k < prev.len() && prev[k] == (i / 3) as usize;
                    assert(cur[k] == prev[k]);
                } else {
                    assert(cur[prev.len() as int] == (i / 3) as usize);
                }
            }
        } else {
            assert forall|k: int| 0 <= k < cur.len() implies listed_at(ix, rm, v, n, #[trigger] cur[k] as int) by {
                assert(listed_at(ix, rm, v, n - 1, prev[k] as int));
            }
        }
    }
}

proof fn lemma_neighbors_skip(ix: Seq<u32>, rm: Seq<u32>, a: int, lo: int, hi: int)
    requires
        0 <= lo <= hi,
        forall|b: int| lo <= b < hi ==> #[trigger] edge_weight(ix, rm, a, b) == 0,
    ensures
        neighbors(ix, rm, a, hi) == neighbors(ix, rm, a, lo),
    decreases hi - lo,
{
    if hi > lo {
        lemma_neighbors_skip(ix, rm, a, lo, hi - 1);
        assert(edge_weight(ix, rm, a, hi - 1) == 0);
        assert(neighbors(ix, rm, a, hi) =~= neighbors(ix, rm, a, hi - 1));
    }
}

/// A triangle other than `a` shares a position with `a` exactly when it lies
/// in the triangle list of one of `a`'s corner positions.
#[verifier::spinoff_prover]
#[verifier::rlimit(40)]
proof fn lemma_weight_iff_listed(ix: Seq<u32>, rm: Seq<u32>, a: int, b: int)
    requires
        graph_input_ok(ix, rm),
        ix.len() <= usize::MAX,
        0 <= a < ix.len() / 3,
        0 <= b < ix.len() / 3,
        a != b,
    ensures
        edge_weight(ix, rm, a, b) > 0 <==> (vertex_tris(ix, rm, corner(ix, rm, 3 * a) as int, ix.len() as int).contains(
            b as usize,
        ) || vertex_tris(ix, rm, corner(ix, rm, 3 * a + 1) as int, ix.len() as int).contains(b as usize)
            || vertex_tris(ix, rm, corner(ix, rm, 3 * a + 2) as int, ix.len() as int).contains(
            b as usize,
        )),
{
    let n = ix.len() as int;
    let v0 = corner(ix, rm, 3 * a) as int;
    let v1 = corner(ix, rm, 3 * a + 1) as int;
    let v2 = corner(ix, rm, 3 * a + 2) as int;
    lemma_vertex_tris(ix, rm, v0, n);
    lemma_vertex_tris(ix, rm, v1, n);
    lemma_vertex_tris(ix, rm, v2, n);
    let l0 = vertex_tris(ix, rm, v0, n);
    let l1 = vertex_tris(ix, rm, v1, n);
    let l2 = vertex_tris(ix, rm, v2, n);
    if edge_weight(ix, rm, a, b) > 0 {
        assert(3 * b + 2 < n);
        assert((3 * b) / 3 == b);
        assert((3 * b + 1) / 3 == b);
        assert((3 * b + 2) / 3 == b);
    }
    if l0.contains(b as usize) {
        let k = choose|k: int| 0 <= k < l0.len() && l0[k] == b as usize;
        assert(listed_at(ix, rm, v0, n, l0[k] as int));
    }
    if l1.contains(b as usize) {
        let k = choose|k: int| 0 <= k < l1.len() && l1[k] == b as usize;
        assert(listed_at(ix, rm, v1, n, l1[k] as int));
    }
    if l2.contains(b as usize) {
        let k = choose|k: int| 0 <= k < l2.len() && l2[k] == b as usize;
        assert(listed_at(ix, rm, v2, n, l2[k] as int));
    }
}


/// For each position id `v`, the triangles with a corner at `v`, one entry
/// per such corner, in corner order.
fn build_vertex_lists(indices: &[u32], remap: &[u32]) -> (lists: Vec<Vec<usize>>)
    requires
        graph_input_ok(indices@, remap@),
    ensures
        lists@.len() == remap@.len(),
        forall|v: int| 0 <= v < remap@.len() ==> #[trigger] lists@[v]@ == vertex_tris(
            indices@,
            remap@,
            v,
            indices@.len() as int,
        ),
{
    let mut lists: Vec<Vec<usize>> = Vec::new();
    let mut v: usize = 0;
    while v < remap.len()
        invariant
            0 <= v <= remap@.len(),
            lists@.len() == v,
            forall|w: int| 0 <= w < v ==> #[trigger] lists@[w]@ == Seq::<usize>::empty(),
        decreases remap@.len() - v,
    {
        lists.push(Vec::new());
        v = v + 1;
    }
    let mut i: usize = 0;
    while i < indices.len()
        invariant
            0 <= i <= indices@.len(),
            graph_input_ok(indices@, remap@),
            lists@.len() == remap@.len(),
            forall|w: int| 0 <= w < remap@.len() ==> #[trigger] lists@[w]@ == vertex_tris(
                indices@,
                remap@,
                w,
                i as int,
            ),
        decreases indices@.len() - i,
    {
        let vertex = remap[indices[i] as usize] as usize;
        let ghost before = lists@;
        lists[vertex].push(i / 3);
        i = i + 1;
        assert forall|w: int| 0 <= w < remap@.len() implies #[trigger] lists@[w]@ == vertex_tris(
            indices@,
            remap@,
            w,
            i as int,
        ) by {
            if w != vertex as int {
                assert(lists@[w] == before[w]);
            }
        }
    }
    lists
}

/// The weight of the edge between triangles `a` and `b`.
fn triangle_edge_weight(indices: &[u32], remap: &[u32], a: usize, b: usize) -> (w: u32)
    requires
        graph_input_ok(indices@, remap@),
        3 * a + 2 < indices@.len(),
        3 * b + 2 < indices@.len(),
    ensures
        w as int == edge_weight(indices@, remap@, a as int, b as int),
        w <= 9,
{
    let _len = indices.len();
    let pa0 = remap[indices[3 * a] as usize];
    let pa1 = remap[indices[3 * a + 1] as usize];
    let pa2 = remap[indices[3 * a + 2] as usize];
    if a == b {
        (if pa0 == pa1 { 1u32 } else { 0u32 }) + (if pa0 == pa2 { 1u32 } else { 0u32 }) + (if pa1 == pa2 { 1u32 } else { 0u32 })
    } else {
        let pb0 = remap[indices[3 * b] as usize];
        let pb1 = remap[indices[3 * b + 1] as usize];
        let pb2 = remap[indices[3 * b + 2] as usize];
        let mut w: u32 = 0;
        if pa0 == pb0 { w = w + 1; }
        if pa0 == pb1 { w = w + 1; }
        if pa0 == pb2 { w = w + 1; }
        if pa1 == pb0 { w = w + 1; }
        if pa1 == pb1 { w = w + 1; }
        if pa1 == pb2 { w = w + 1; }
        if pa2 == pb0 { w = w + 1; }
        if pa2 == pb1 { w = w + 1; }
        if pa2 == pb2 { w = w + 1; }
        w
    }
}

/// Moves the cursor `c` of the sorted list `l` past the entries equal to `cur`.
fn skip_equal(l: &Vec<usize>, c: usize, cur: usize) -> (r: usize)
    requires
        c <= l@.len(),
    ensures
        c <= r <= l@.len(),
        forall|j: int| c <= j < r ==> #[trigger] l@[j] == cur,
        r < l@.len() ==> l@[r as int] != cur,
{
    let mut r = c;
    while r < l.len() && l[r] == cur
        invariant
            c <= r <= l@.len(),
            forall|j: int| c <= j < r ==> #[trigger] l@[j] == cur,
        decreases l@.len() - r,
    {
        r = r + 1;
    }
    r
}

/// `l` is sorted in non-decreasing order.
pub open spec fn sorted(l: Seq<usize>) -> bool {
    forall|j: int, k: int| 0 <= j <= k < l.len() ==> l[j] <= l[k]
}

/// The entries of a row as pairs of integers.
pub open spec fn row_view(row: Seq<(i32, i32)>) -> Seq<(int, int)> {
    row.map_values(|e: (i32, i32)| (e.0 as int, e.1 as int))
}

/// What a cursor state over the lists `l0`, `l1`, `l2` means once every
/// entry below `lo` found been passed and every entry from the cursors on is
/// at least `lo`.
pub open spec fn cursors_at(l: Seq<usize>, c: int, lo: int) -> bool {
    &&& 0 <= c <= l.len()
    &&& forall|j: int| 0 <= j < c ==> #[trigger] l[j] < lo
    &&& c < l.len() ==> l[c] >= lo
}

proof fn lemma_not_listed_between(l: Seq<usize>, c: int, lo: int, cur: int, b: int)
    requires
        0 <= lo,
        sorted(l),
        cursors_at(l, c, lo),
        c < l.len() ==> l[c] >= cur,
        lo <= b < cur,
        cur <= usize::MAX,
    ensures
        !l.contains(b as usize),
{
    if l.contains(b as usize) {
        let j = choose|j: int| 0 <= j < l.len() && l[j] == b as usize;
        if j >= c {
            assert(l[c] <= l[j]);
        }
    }
}

/// The adjacency entries of triangle `a`: for each triangle `b` sharing a
/// position with it, in increasing order, the pair `(b, weight)`, given twice
/// where `b` is `a`.
fn triangle_row(indices: &[u32], remap: &[u32], lists: &Vec<Vec<usize>>, a: usize) -> (row: Vec<
    (i32, i32),
>)
    requires
        graph_input_ok(indices@, remap@),
        indices@.len() / 3 <= i32::MAX,
        0 <= a < indices@.len() / 3,
        lists@.len() == remap@.len(),
        forall|v: int| 0 <= v < remap@.len() ==> #[trigger] lists@[v]@ == vertex_tris(
            indices@,
            remap@,
            v,
            indices@.len() as int,
        ),
    ensures
        row_view(row@) == neighbors(indices@, remap@, a as int, (indices@.len() / 3) as int),
{
    let _len = indices.len();
    let ghost ix = indices@;
    let ghost rm = remap@;
    let ghost n = indices@.len() as int;
    let ghost t = n / 3;
    let v0 = remap[indices[3 * a] as usize] as usize;
    let v1 = remap[indices[3 * a + 1] as usize] as usize;
    let v2 = remap[indices[3 * a + 2] as usize] as usize;
    let l0 = &lists[v0];
    let l1 = &lists[v1];
    let l2 = &lists[v2];
    proof {
        lemma_vertex_tris(ix, rm, v0 as int, n);
        lemma_vertex_tris(ix, rm, v1 as int, n);
        lemma_vertex_tris(ix, rm, v2 as int, n);
        assert(corner(ix, rm, 3 * a) as int == v0 as int);
        assert(l0@ == vertex_tris(ix, rm, v0 as int, n));
        assert(0 <= 3 * a < n);
        assert(l0@.contains(((3 * a) / 3) as usize));
        assert((3 * a) / 3 == a);
        assert forall|b: int| 0 <= b < t && b != a implies (edge_weight(ix, rm, a as int, b) > 0
            <==> (l0@.contains(b as usize) || l1@.contains(b as usize) || l2@.contains(b as usize))) by {
            lemma_weight_iff_listed(ix, rm, a as int, b);
        }
        assert forall|k: int| 0 <= k < l0@.len() implies #[trigger] l0@[k] < t by {}
        assert forall|k: int| 0 <= k < l1@.len() implies #[trigger] l1@[k] < t by {}
        assert forall|k: int| 0 <= k < l2@.len() implies #[trigger] l2@[k] < t by {}
    }
    let mut c0: usize = 0;
    let mut c1: usize = 0;
    let mut c2: usize = 0;
    let ghost mut lo: int = 0;
    let mut row: Vec<(i32, i32)> = Vec::new();
    loop
        invariant
            graph_input_ok(ix, rm),
            ix == indices@,
            rm == remap@,
            n == ix.len(),
            t == n / 3,
            t <= i32::MAX,
            0 <= a < t,
            0 <= lo <= t,
            sorted(l0@),
            sorted(l1@),
            sorted(l2@),
            forall|k: int| 0 <= k < l0@.len() ==> #[trigger] l0@[k] < t,
            forall|k: int| 0 <= k < l1@.len() ==> #[trigger] l1@[k] < t,
            forall|k: int| 0 <= k < l2@.len() ==> #[trigger] l2@[k] < t,
            l0@.contains(a),
            forall|b: int| 0 <= b < t && b != a ==> (edge_weight(ix, rm, a as int, b) > 0 <==> (
                l0@.contains(b as usize) || l1@.contains(b as usize) || l2@.contains(b as usize))),
            cursors_at(l0@, c0 as int, lo),
            cursors_at(l1@, c1 as int, lo),
            cursors_at(l2@, c2 as int, lo),
            row_view(row@) == neighbors(ix, rm, a as int, lo),
        ensures
            row_view(row@) == neighbors(ix, rm, a as int, t),
        decreases l0@.len() - c0 + l1@.len() - c1 + l2@.len() - c2,
    {
        let mut found = false;
        let mut cur: usize = 0;
        if c0 < l0.len() {
            cur = l0[c0];
            found = true;
        }
        if c1 < l1.len() && (!found || l1[c1] < cur) {
            cur = l1[c1];
            found = true;
        }
        if c2 < l2.len() && (!found || l2[c2] < cur) {
            cur = l2[c2];
            found = true;
        }
        if !found {
            proof {
                assert forall|b: int| lo <= b < t implies #[trigger] edge_weight(ix, rm, a as int, b) == 0 by {
                    if l0@.contains(b as usize) {
                        let j = choose|j: int| 0 <= j < l0@.len() && l0@[j] == b as usize;
                    }
                    if l1@.contains(b as usize) {
                        let j = choose|j: int| 0 <= j < l1@.len() && l1@[j] == b as usize;
                    }
                    if l2@.contains(b as usize) {
                        let j = choose|j: int| 0 <= j < l2@.len() && l2@[j] == b as usize;
                    }
                    if b == a {
                        let j = choose|j: int| 0 <= j < l0@.len() && l0@[j] == a;
                    }
                }
                lemma_neighbors_skip(ix, rm, a as int, lo, t);
            }
            break;
        }
        proof {
            assert(c0 < l0@.len() ==> l0@[c0 as int] >= cur);
            assert(c1 < l1@.len() ==> l1@[c1 as int] >= cur);
            assert(c2 < l2@.len() ==> l2@[c2 as int] >= cur);
            assert(cur >= lo);
            assert(cur < t);
            assert forall|b: int| lo <= b < cur implies #[trigger] edge_weight(ix, rm, a as int, b) == 0 by {
                lemma_not_listed_between(l0@, c0 as int, lo, cur as int, b);
                lemma_not_listed_between(l1@, c1 as int, lo, cur as int, b);
                lemma_not_listed_between(l2@, c2 as int, lo, cur as int, b);
            }
            lemma_neighbors_skip(ix, rm, a as int, lo, cur as int);
        }
        let n0 = skip_equal(l0, c0, cur);
        let n1 = skip_equal(l1, c1, cur);
        let n2 = skip_equal(l2, c2, cur);
        proof {
            assert forall|j: int| 0 <= j < n0 implies #[trigger] l0@[j] < cur + 1 by {
                if j >= c0 {
                    assert(l0@[j] == cur);
                }
            }
            if n0 < l0@.len() {
                if n0 > c0 {
                    assert(l0@[n0 - 1] <= l0@[n0 as int]);
                } else {
                    assert(l0@[n0 as int] >= cur);
                }
            }
            assert forall|j: int| 0 <= j < n1 implies #[trigger] l1@[j] < cur + 1 by {
                if j >= c1 {
                    assert(l1@[j] == cur);
                }
            }
            if n1 < l1@.len() {
                if n1 > c1 {
                    assert(l1@[n1 - 1] <= l1@[n1 as int]);
                } else {
                    assert(l1@[n1 as int] >= cur);
                }
            }
            assert forall|j: int| 0 <= j < n2 implies #[trigger] l2@[j] < cur + 1 by {
                if j >= c2 {
                    assert(l2@[j] == cur);
                }
            }
            if n2 < l2@.len() {
                if n2 > c2 {
                    assert(l2@[n2 - 1] <= l2@[n2 as int]);
                } else {
                    assert(l2@[n2 as int] >= cur);
                }
            }
        }
        c0 = n0;
        c1 = n1;
        c2 = n2;
        let w = triangle_edge_weight(indices, remap, a, cur);
        let ghost before = row@;
        if w > 0 {
            row.push((cur as i32, w as i32));
            if cur == a {
                row.push((cur as i32, w as i32));
            }
        }
        proof {
            assert(row_view(row@) =~= row_view(before) + entries(ix, rm, a as int, cur as int));
            lo = cur + 1;
        }
    }
    row
}


proof fn lemma_prefix_monotone(ix: Seq<u32>, rm: Seq<u32>, k: int, m: int)
    requires
        0 <= k <= m,
    ensures
        adjacency_prefix(ix, rm, k).len() <= adjacency_prefix(ix, rm, m).len(),
    decreases m - k,
{
    if k < m {
        lemma_prefix_monotone(ix, rm, k, m - 1);
    }
}

/// The offsets of the triangle graph of `ix`: where each triangle's entries
/// start, and the total at the end.
pub open spec fn graph_xadj(ix: Seq<u32>, rm: Seq<u32>) -> Seq<i32> {
    Seq::new(
        ((ix.len() / 3) + 1) as nat,
        |a: int| adjacency_prefix(ix, rm, a).len() as i32,
    )
}

/// The neighbours listed in the triangle graph of `ix`.
pub open spec fn graph_adjncy(ix: Seq<u32>, rm: Seq<u32>) -> Seq<i32> {
    adjacency_prefix(ix, rm, (ix.len() / 3) as int).map_values(|e: (int, int)| e.0 as i32)
}

/// The weights of the entries of the triangle graph of `ix`.
pub open spec fn graph_adjwgt(ix: Seq<u32>, rm: Seq<u32>) -> Seq<i32> {
    adjacency_prefix(ix, rm, (ix.len() / 3) as int).map_values(|e: (int, int)| e.1 as i32)
}

/// A graph built for `ix` holds exactly the arrays above.
proof fn lemma_graph_arrays(g: TriangleGraph, ix: Seq<u32>, rm: Seq<u32>)
    requires
        is_triangle_graph(g, ix, rm),
    ensures
        g.xadj@ == graph_xadj(ix, rm),
        g.adjncy@ == graph_adjncy(ix, rm),
        g.adjwgt@ == graph_adjwgt(ix, rm),
{
    let t = (ix.len() / 3) as int;
    assert forall|a: int| 0 <= a < g.xadj@.len() implies g.xadj@[a] == graph_xadj(ix, rm)[a] by {
        assert(g.xadj@[a] == adjacency_prefix(ix, rm, a).len());
    }
    assert(g.xadj@ =~= graph_xadj(ix, rm));
    let flat = adjacency_prefix(ix, rm, t);
    assert forall|i: int| 0 <= i < g.adjncy@.len() implies g.adjncy@[i] == graph_adjncy(ix, rm)[i] by {
        assert(g.adjncy@[i] == flat[i].0);
    }
    assert(g.adjncy@ =~= graph_adjncy(ix, rm));
    assert forall|i: int| 0 <= i < g.adjwgt@.len() implies g.adjwgt@[i] == graph_adjwgt(ix, rm)[i] by {
        assert(g.adjwgt@[i] == flat[i].1);
    }
    assert(g.adjwgt@ =~= graph_adjwgt(ix, rm));
}

/// Two triangles share as many corner positions seen from either end.
proof fn lemma_weight_symmetric(ix: Seq<u32>, rm: Seq<u32>, a: int, b: int)
    ensures
        edge_weight(ix, rm, a, b) == edge_weight(ix, rm, b, a),
{
}

/// Each entry that triangle `a` lists for the triangles below `k` names such
/// a triangle, with their nonzero edge weight.
proof fn lemma_neighbors_entry(ix: Seq<u32>, rm: Seq<u32>, a: int, k: int, i: int)
    requires
        0 <= i < neighbors(ix, rm, a, k).len(),
    ensures
        0 <= neighbors(ix, rm, a, k)[i].0 < k,
        neighbors(ix, rm, a, k)[i].1 == edge_weight(ix, rm, a, neighbors(ix, rm, a, k)[i].0),
        neighbors(ix, rm, a, k)[i].1 != 0,
    decreases k,
{
    if k > 0 {
        let prev = neighbors(ix, rm, a, k - 1);
        if i < prev.len() {
            lemma_neighbors_entry(ix, rm, a, k - 1, i);
            assert(neighbors(ix, rm, a, k)[i] == prev[i]);
        } else {
            assert(neighbors(ix, rm, a, k)[i] == entries(ix, rm, a, k - 1)[i - prev.len()]);
        }
    }
}

/// Triangle `a` lists each triangle below `k` that it shares a position
/// with; gives where.
proof fn lemma_neighbors_lists(ix: Seq<u32>, rm: Seq<u32>, a: int, k: int, b: int) -> (i: int)
    requires
        0 <= b < k,
        edge_weight(ix, rm, a, b) != 0,
    ensures
        0 <= i < neighbors(ix, rm, a, k).len(),
        neighbors(ix, rm, a, k)[i] == (b, edge_weight(ix, rm, a, b)),
    decreases k,
{
    let prev = neighbors(ix, rm, a, k - 1);
    if b < k - 1 {
        let i = lemma_neighbors_lists(ix, rm, a, k - 1, b);
        assert(neighbors(ix, rm, a, k)[i] == prev[i]);
        i
    } else {
        let i = prev.len() as int;
        assert(neighbors(ix, rm, a, k)[i] == entries(ix, rm, a, b)[0]);
        i
    }
}

/// The lists of triangles `0..=a` stand unchanged at the front of those of
/// triangles `0..m`.
proof fn lemma_prefix_keeps(ix: Seq<u32>, rm: Seq<u32>, a: int, m: int)
    requires
        0 <= a < m,
    ensures
        adjacency_prefix(ix, rm, a + 1).len() <= adjacency_prefix(ix, rm, m).len(),
        forall|i: int|
            0 <= i < adjacency_prefix(ix, rm, a + 1).len() ==> #[trigger] adjacency_prefix(ix, rm, m)[i]
                == adjacency_prefix(ix, rm, a + 1)[i],
    decreases m - a,
{
    if a + 1 < m {
        lemma_prefix_keeps(ix, rm, a, m - 1);
        let prev = adjacency_prefix(ix, rm, m - 1);
        assert forall|i: int| 0 <= i < adjacency_prefix(ix, rm, a + 1).len() implies #[trigger] adjacency_prefix(
            ix,
            rm,
            m,
        )[i] == adjacency_prefix(ix, rm, a + 1)[i] by {
            assert(adjacency_prefix(ix, rm, m)[i] == prev[i]);
        }
    }
}

/// Each entry `(b, w)` in the list of triangle `a` has its mirror `(a, w)`
/// in the list of `b`; gives where.
proof fn lemma_neighbors_mirror(ix: Seq<u32>, rm: Seq<u32>, a: int, t: int, i: int) -> (j: int)
    requires
        0 <= a < t,
        0 <= i < neighbors(ix, rm, a, t).len(),
    ensures
        0 <= neighbors(ix, rm, a, t)[i].0 < t,
        0 <= j < neighbors(ix, rm, neighbors(ix, rm, a, t)[i].0, t).len(),
        neighbors(ix, rm, neighbors(ix, rm, a, t)[i].0, t)[j] == (a, neighbors(ix, rm, a, t)[i].1),
{
    lemma_neighbors_entry(ix, rm, a, t, i);
    let b = neighbors(ix, rm, a, t)[i].0;
    lemma_weight_symmetric(ix, rm, a, b);
    lemma_neighbors_lists(ix, rm, b, t, a)
}

/// Entry `i` of the list of triangle `a` stands at `P(a) + i` of the whole
/// adjacency sequence, `P(a)` being the length of the lists before `a`.
proof fn lemma_flat_entry(ix: Seq<u32>, rm: Seq<u32>, a: int, t: int, i: int)
    requires
        t == ix.len() / 3,
        0 <= a < t,
        0 <= i < neighbors(ix, rm, a, t).len(),
    ensures
        adjacency_prefix(ix, rm, a + 1).len() == adjacency_prefix(ix, rm, a).len() + neighbors(ix, rm, a, t).len(),
        adjacency_prefix(ix, rm, a + 1).len() <= adjacency_prefix(ix, rm, t).len(),
        adjacency_prefix(ix, rm, t)[adjacency_prefix(ix, rm, a).len() + i] == neighbors(ix, rm, a, t)[i],
{
    let pa = adjacency_prefix(ix, rm, a);
    assert(adjacency_prefix(ix, rm, a + 1) == pa + neighbors(ix, rm, a, t));
    assert(adjacency_prefix(ix, rm, a + 1)[pa.len() + i] == neighbors(ix, rm, a, t)[i]);
    lemma_prefix_keeps(ix, rm, a, t);
}

/// Where the adjacency sequence of `t` triangles holds `(b, w)` in the list
/// of triangle `a`, it holds `(a, w)` in the list of `b`; gives where.
#[verifier::spinoff_prover]
proof fn lemma_flat_mirror(ix: Seq<u32>, rm: Seq<u32>, t: int, a: int, k: int) -> (k2: int)
    requires
        t == ix.len() / 3,
        0 <= a < t,
        adjacency_prefix(ix, rm, a).len() <= k < adjacency_prefix(ix, rm, a + 1).len(),
    ensures
        0 <= adjacency_prefix(ix, rm, t)[k].0 < t,
        adjacency_prefix(ix, rm, adjacency_prefix(ix, rm, t)[k].0).len() <= k2,
        k2 < adjacency_prefix(ix, rm, adjacency_prefix(ix, rm, t)[k].0 + 1).len(),
        adjacency_prefix(ix, rm, t)[k2] == (a, adjacency_prefix(ix, rm, t)[k].1),
{
    let pa = adjacency_prefix(ix, rm, a).len();
    assert(adjacency_prefix(ix, rm, a + 1) == adjacency_prefix(ix, rm, a) + neighbors(ix, rm, a, t));
    let i = k - pa;
    lemma_flat_entry(ix, rm, a, t, i);
    let j = lemma_neighbors_mirror(ix, rm, a, t, i);
    let b = neighbors(ix, rm, a, t)[i].0;
    lemma_flat_entry(ix, rm, b, t, j);
    adjacency_prefix(ix, rm, b).len() + j
}

/// The triangle graph is undirected: every entry has its mirror, with the
/// same weight, in the list of the triangle it names.
#[verifier::spinoff_prover]
proof fn lemma_graph_symmetric(ix: Seq<u32>, rm: Seq<u32>)
    requires
        !graph_too_large(ix, rm),
    ensures
        csr_symmetric(graph_xadj(ix, rm), graph_adjncy(ix, rm), graph_adjwgt(ix, rm)),
{
    let t = (ix.len() / 3) as int;
    let xadj = graph_xadj(ix, rm);
    let adjncy = graph_adjncy(ix, rm);
    let adjwgt = graph_adjwgt(ix, rm);
    assert forall|a: int, k: int| #[trigger] csr_lists(xadj, a, k) implies exists|k2: int| #[trigger]
        csr_lists(xadj, adjncy[k] as int, k2) && adjncy[k2] == a && adjwgt[k2] == adjwgt[k] by {
        lemma_prefix_monotone(ix, rm, a, t);
        lemma_prefix_monotone(ix, rm, a + 1, t);
        assert(xadj[a] == adjacency_prefix(ix, rm, a).len());
        assert(xadj[a + 1] == adjacency_prefix(ix, rm, a + 1).len());
        let k2 = lemma_flat_mirror(ix, rm, t, a, k);
        let b = adjacency_prefix(ix, rm, t)[k].0;
        lemma_prefix_monotone(ix, rm, b, t);
        lemma_prefix_monotone(ix, rm, b + 1, t);
        assert(adjncy[k] as int == b);
        assert(xadj[b] == adjacency_prefix(ix, rm, b).len());
        assert(xadj[b + 1] == adjacency_prefix(ix, rm, b + 1).len());
        assert(csr_lists(xadj, adjncy[k] as int, k2));
        assert(adjncy[k2] == a && adjwgt[k2] == adjwgt[k]);
    }
}

/// The adjacency graph of the triangles of `indices`, two triangles being
/// adjacent where they have corners at the same position (`remap` maps each
/// vertex to its position id). `None` where the graph has too many triangles
/// or entries for 32-bit indices.
pub fn build_triangle_graph(indices: &[u32], remap: &[u32]) -> (r: Option<TriangleGraph>)
    requires
        graph_input_ok(indices@, remap@),
    ensures
        r is None <==> graph_too_large(indices@, remap@),
        r matches Some(g) ==> is_triangle_graph(g, indices@, remap@),
{
    let ghost ix = indices@;
    let ghost rm = remap@;
    let n = indices.len();
    let t = n / 3;
    if t > 0x7fff_ffff {
        return None;
    }
    let lists = build_vertex_lists(indices, remap);
    let mut xadj: Vec<i32> = Vec::new();
    let mut adjncy: Vec<i32> = Vec::new();
    let mut adjwgt: Vec<i32> = Vec::new();
    let mut a: usize = 0;
    while a < t
        invariant
            graph_input_ok(ix, rm),
            ix == indices@,
            rm == remap@,
            n == ix.len(),
            t == n / 3,
            t <= i32::MAX,
            0 <= a <= t,
            lists@.len() == remap@.len(),
            forall|v: int| 0 <= v < remap@.len() ==> #[trigger] lists@[v]@ == vertex_tris(
                indices@,
                remap@,
                v,
                indices@.len() as int,
            ),
            xadj@.len() == a,
            forall|k: int| 0 <= k < a ==> #[trigger] xadj@[k] == adjacency_prefix(ix, rm, k).len(),
            adjncy@.len() == adjacency_prefix(ix, rm, a as int).len(),
            adjwgt@.len() == adjncy@.len(),
            adjncy@.len() <= i32::MAX,
            forall|i: int| 0 <= i < adjncy@.len() ==> #[trigger] adjncy@[i] == adjacency_prefix(
                ix,
                rm,
                a as int,
            )[i].0,
            forall|i: int| 0 <= i < adjwgt@.len() ==> #[trigger] adjwgt@[i] == adjacency_prefix(
                ix,
                rm,
                a as int,
            )[i].1,
        decreases t - a,
    {
        xadj.push(adjncy.len() as i32);
        let row = triangle_row(indices, remap, &lists, a);
        let ghost prev = adjacency_prefix(ix, rm, a as int);
        let ghost next = adjacency_prefix(ix, rm, a + 1);
        assert(next == prev + row_view(row@));
        if row.len() > 0x7fff_ffff - adjncy.len() {
            proof {
                lemma_prefix_monotone(ix, rm, a + 1, t as int);
            }
            return None;
        }
        let ghost start_adj = adjncy@;
        let ghost start_wgt = adjwgt@;
        let mut k: usize = 0;
        while k < row.len()
            invariant
                0 <= k <= row@.len(),
                adjncy@.len() == prev.len() + k,
                adjwgt@.len() == prev.len() + k,
                prev.len() + row@.len() <= i32::MAX,
                next == prev + row_view(row@),
                forall|i: int| 0 <= i < prev.len() + k ==> #[trigger] adjncy@[i] == next[i].0,
                forall|i: int| 0 <= i < prev.len() + k ==> #[trigger] adjwgt@[i] == next[i].1,
            decreases row@.len() - k,
        {
            let (b, w) = row[k];
            adjncy.push(b);
            adjwgt.push(w);
            k = k + 1;
        }
        a = a + 1;
    }
    xadj.push(adjncy.len() as i32);
    let g = TriangleGraph { xadj, adjncy, adjwgt };
    assert(is_triangle_graph(g, ix, rm));
    Some(g)
}


/// The partitioner settings that meshlet generation uses.
#[derive(Clone, Copy, Debug, PartialEq, Eq, Structural)]
pub struct PartitionOptions {
    pub seed: i32,
    pub ufactor: i32,
    pub min_conn: i32,
    pub contig: i32,
    pub obj_type: i32,
}

/// The settings of meshlet generation: a fixed seed, a load imbalance of
/// 1/1000, minimised subdomain connectivity, contiguous partitions, edge-cut
/// minimisation.
pub open spec fn partition_options() -> PartitionOptions {
    PartitionOptions { seed: 0x5EAF00D, ufactor: 1, min_conn: 1, contig: 1, obj_type: 0 }
}

/// The settings of meshlet generation; see `partition_options`.
pub fn meshlet_partition_options() -> (o: PartitionOptions)
    ensures
        o == partition_options(),
{
    PartitionOptions { seed: 0x5EAF00D, ufactor: 1, min_conn: 1, contig: 1, obj_type: 0 }
}

/// Name for the part of each graph vertex that METIS's recursive bisection
/// gives for a graph (in CSR form, with edge weights) split into `nparts`
/// parts under the given settings; `None` where METIS rejects the graph or
/// fails.
pub uninterp spec fn metis_recursive_parts(
    nparts: i32,
    xadj: Seq<i32>,
    adjncy: Seq<i32>,
    adjwgt: Seq<i32>,
    options: PartitionOptions,
) -> Option<Seq<i32>>;

/// Entry `k` of a graph in compressed sparse row form lies in the list of
/// vertex `v`.
pub open spec fn csr_lists(xadj: Seq<i32>, v: int, k: int) -> bool {
    0 <= v < xadj.len() - 1 && xadj[v] <= k < xadj[v + 1]
}

/// A graph in compressed sparse row form is undirected: where vertex `a`
/// lists `b` with weight `w`, `b` lists `a` with weight `w`.
pub open spec fn csr_symmetric(xadj: Seq<i32>, adjncy: Seq<i32>, adjwgt: Seq<i32>) -> bool {
    forall|a: int, k: int| #[trigger]
        csr_lists(xadj, a, k) ==> exists|k2: int| #[trigger]
            csr_lists(xadj, adjncy[k] as int, k2) && adjncy[k2] == a && adjwgt[k2] == adjwgt[k]
}

/// Calls `metis::Graph::new(1, nparts, xadj, adjncy)` (a graph of `nvtxs`
/// vertices), then, on the graph, `set_adjwgt(adjwgt)`, `set_options` with
/// the given settings in their slots (the other slots left at METIS's
/// default, `-1`) and `part_recursive`, which partitions the graph by
/// recursive bisection into `nparts` parts. Where `Graph::new` rejects the
/// graph or METIS reports an error, gives `None`; else the part of each
/// vertex. The graph must be undirected, as METIS expects (an entry naming
/// its own vertex, as a degenerate triangle's does, is its own mirror);
/// nothing is said of the range of the part numbers, which callers check.
#[verifier::external_body]
fn metis_part_recursive(
    nparts: i32,
    nvtxs: usize,
    xadj: &[i32],
    adjncy: &[i32],
    adjwgt: &[i32],
    options: PartitionOptions,
) -> (part: Option<Vec<i32>>)
    requires
        nparts >= 1,
        nvtxs == xadj@.len() - 1,
        nvtxs <= i32::MAX,
        adjwgt@.len() == adjncy@.len(),
        csr_symmetric(xadj@, adjncy@, adjwgt@),
    ensures
        match part {
            Some(p) => metis_recursive_parts(nparts, xadj@, adjncy@, adjwgt@, options) == Some(p@),
            None => metis_recursive_parts(nparts, xadj@, adjncy@, adjwgt@, options) is None,
        },
        part matches Some(p) ==> p@.len() == nvtxs,
{
    let mut opts = [-1; metis::NOPTIONS];
    opts[Seed::INDEX] = options.seed;
    opts[UFactor::INDEX] = options.ufactor;
    opts[MinConn::INDEX] = options.min_conn;
    opts[Contig::INDEX] = options.contig;
    opts[ObjType::INDEX] = options.obj_type;
    let mut part = vec![0; nvtxs];
    let graph = metis::Graph::new(1, nparts, xadj, adjncy).ok()?;
    graph.set_adjwgt(adjwgt).set_options(&opts).part_recursive(&mut part).ok()?;
    Some(part)
}

/// Errors of meshlet generation.
#[derive(Clone, Copy, Debug, PartialEq, Eq, Structural)]
pub enum MeshletError {
    /// The triangle graph needs more than 32-bit indices.
    GraphTooLarge,
    /// The graph partitioner rejected the graph, failed, or gave a part
    /// number out of range.
    PartitionFailed,
}

/// The triangle index lists of a list of clusters.
pub open spec fn clusters_view(cs: Seq<Vec<u32>>) -> Seq<Seq<u32>> {
    cs.map_values(|c: Vec<u32>| c@)
}

/// The partitioner gave a part for each vertex, each in `0..count`.
pub open spec fn parts_usable(parts: Option<Seq<i32>>, count: int) -> bool {
    match parts {
        Some(p) => parts_in_range(p, count),
        None => false,
    }
}

/// Whether every part number lies in `0..count`.
fn parts_within(parts: &[i32], count: usize) -> (ok: bool)
    ensures
        ok == parts_in_range(parts@, count as int),
{
    let mut t: usize = 0;
    while t < parts.len()
        invariant
            0 <= t <= parts@.len(),
            forall|u: int| 0 <= u < t ==> 0 <= #[trigger] parts@[u] < count,
        decreases parts@.len() - t,
    {
        let p = parts[t];
        if p < 0 || p as usize >= count {
            return false;
        }
        t = t + 1;
    }
    true
}

/// What `partition_triangles` owes on its inputs.
pub open spec fn partition_input_ok(ix: Seq<u32>, rm: Seq<u32>) -> bool {
    (ix.len() > 0 && ix.len() % 3 == 0) ==> graph_input_ok(ix, rm)
}

/// Splits the triangles of `indices` into clusters of spatially connected
/// triangles: builds the triangle adjacency graph (see
/// `build_triangle_graph`, an undirected graph), partitions it into
/// `partition_count` parts with METIS, checks that each part number is one
/// of those parts and lists, per part, the triangle indices of its triangles. Where
/// `indices` is empty or not made of whole triangles, there are no clusters.
pub fn partition_triangles(indices: &[u32], remap: &[u32]) -> (r: Result<Vec<Vec<u32>>, MeshletError>)
    requires
        partition_input_ok(indices@, remap@),
    ensures
        (indices@.len() == 0 || indices@.len() % 3 != 0) ==> (r matches Ok(cs) && cs@.len() == 0),
        (indices@.len() > 0 && indices@.len() % 3 == 0) ==> (r == Err::<Vec<Vec<u32>>, MeshletError>(
            MeshletError::GraphTooLarge,
        ) <==> graph_too_large(indices@, remap@)),
        (indices@.len() > 0 && indices@.len() % 3 == 0 && !graph_too_large(indices@, remap@)) ==> ({
            let count = partition_count_for((indices@.len() / 3) as int);
            let parts = metis_recursive_parts(
                count as i32,
                graph_xadj(indices@, remap@),
                graph_adjncy(indices@, remap@),
                graph_adjwgt(indices@, remap@),
                partition_options(),
            );
            match r {
                Ok(cs) => parts_usable(parts, count) && clusters_view(cs@) == clusters_of(
                    indices@,
                    parts.unwrap(),
                    count,
                ),
                Err(e) => e == MeshletError::PartitionFailed && !parts_usable(parts, count),
            }
        }),
{
    if indices.len() == 0 || indices.len() % 3 != 0 {
        return Ok(Vec::new());
    }
    let graph = match build_triangle_graph(indices, remap) {
        None => return Err(MeshletError::GraphTooLarge),
        Some(g) => g,
    };
    let triangle_count = indices.len() / 3;
    let count = partition_count(triangle_count);
    proof {
        lemma_graph_arrays(graph, indices@, remap@);
        lemma_graph_symmetric(indices@, remap@);
    }
    let part = match metis_part_recursive(
        count as i32,
        triangle_count,
        graph.xadj.as_slice(),
        graph.adjncy.as_slice(),
        graph.adjwgt.as_slice(),
        meshlet_partition_options(),
    ) {
        None => return Err(MeshletError::PartitionFailed),
        Some(p) => p,
    };
    if !parts_within(part.as_slice(), count) {
        return Err(MeshletError::PartitionFailed);
    }
    let clusters = clusters_from_partition(indices, part.as_slice(), count);
    assert(clusters_view(clusters@) =~= clusters_of(indices@, part@, count as int));
    Ok(clusters)
}

} // verus!
