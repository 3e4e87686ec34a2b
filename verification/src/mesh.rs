//! Mesh records and the `.mere` mesh file format.
//!
//! Floating-point values (positions, bounds, errors) are held as their IEEE-754
//! bit patterns: the library stores and moves them but never computes on them.
//!
//! A `.mere` mesh is a 40-byte header of five little-endian `u64` counts
//! (vertices, vertex attributes, meshlet vertex indices, meshlet triangle
//! indices, meshlets) followed by the five sections, each record written as
//! little-endian 32-bit words (triangle indices as single bytes). A `.mere`
//! file is a little-endian `u32` mesh count followed by the meshes.

use vstd::prelude::*;
use crate::bytes::{
    enc_seq, le_u32, le_u64, lemma_enc_seq_layout, lemma_enc_seq_len, lemma_enc_seq_step,
    lemma_u32_le_roundtrip, lemma_u64_le_roundtrip, lemma_le_u32_shift, lemma_le_u32_sub, push_u32_le, push_u64_le, read_u32_le,
    read_u64_le, u32_le_bytes, u64_le_bytes, lemma_u32_le_bytes_len,
};

verus! {

broadcast use lemma_u32_le_bytes_len;

/// Three 32-bit words holding the bit patterns of the `x`, `y`, `z` floats.
#[derive(Clone, Copy, Debug, Default, PartialEq, Eq, Structural)]
pub struct Vec3Bits {
    pub x: u32,
    pub y: u32,
    pub z: u32,
}

/// A mesh vertex: its position.
#[derive(Clone, Copy, Debug, Default, PartialEq, Eq, Structural)]
pub struct Vertex {
    pub position: Vec3Bits,
}

/// Packed per-vertex shading attributes.
#[derive(Clone, Copy, Debug, PartialEq, Eq, Structural)]
pub struct VertexAttributes {
    pub normal: u32,
    pub uv: u32,
    pub tangent: u32,
}

impl Default for VertexAttributes {
    /// The attributes of a vertex without data: a zero normal (each component
    /// quantized to the middle of its field), zero texture coordinates and a
    /// zero tangent word.
    fn default() -> (a: Self)
        ensures
            a.normal == crate::packing::spec_pack_11_11_10(1023, 1023, 511),
            a.normal == 1023 + 2048 * 1023 + 4194304 * 511,
            a.uv == 0,
            a.tangent == 0,
    {
        VertexAttributes {
            normal: crate::packing::pack_11_11_10(1023, 1023, 511),
            uv: crate::packing::pack_16_16(0, 0),
            tangent: 0,
        }
    }
}

/// A sphere: its center and radius.
#[derive(Clone, Copy, Debug, Default, PartialEq, Eq, Structural)]
pub struct BoundingSphere {
    pub center: Vec3Bits,
    pub radius: u32,
}

impl BoundingSphere {
    /// The sphere with the given center and radius.
    pub fn new(center: Vec3Bits, radius: u32) -> (s: Self)
        ensures
            s.center == center,
            s.radius == radius,
    {
        BoundingSphere { center, radius }
    }
}

/// Culling data of a meshlet: its bounds, the bounds and error of its parent
/// level of detail, and its own error.
#[derive(Clone, Copy, Debug, Default, PartialEq, Eq, Structural)]
pub struct CullData {
    pub bounds: BoundingSphere,
    pub parent_error: BoundingSphere,
    pub error: u32,
}

/// A cluster of at most `MAX_TRIANGLES` triangles over at most `MAX_VERTICES`
/// vertices: where its vertices, attributes and triangle indices start in the
/// mesh-wide arrays, and how many it has.
#[derive(Clone, Copy, Debug, Default, PartialEq, Eq, Structural)]
pub struct Meshlet {
    pub vertex_offset: u32,
    pub attribute_offset: u32,
    pub vertex_count: u32,
    pub index_offset: u32,
    pub index_count: u32,
    pub cull_data: CullData,
}

/// Largest number of vertices in a meshlet.
pub const MAX_VERTICES: usize = 255;

/// Largest number of triangles in a meshlet.
pub const MAX_TRIANGLES: usize = 128;

/// Smallest number of triangles that meshlet building aims for:
/// `(MAX_TRIANGLES / 3)` rounded down to a multiple of four.
pub const MIN_TRIANGLES: usize = 40;

/// Largest number of triangle indices in a meshlet.
pub const MAX_INDICES_PER_MESHLET: u32 = 384;

/// An axis-aligned box given by its center and half extents.
#[derive(Clone, Copy, Debug, Default, PartialEq, Eq, Structural)]
pub struct Aabb {
    pub center: Vec3Bits,
    pub half_extents: Vec3Bits,
}

impl Aabb {
    /// The box with the given center and half extents.
    pub fn new(center: Vec3Bits, half_extents: Vec3Bits) -> (b: Self)
        ensures
            b.center == center,
            b.half_extents == half_extents,
    {
        Aabb { center, half_extents }
    }
}

// ---------------------------------------------------------------------------
// Record encodings

pub open spec fn vec3_bytes(v: Vec3Bits) -> Seq<u8> {
    u32_le_bytes(v.x) + u32_le_bytes(v.y) + u32_le_bytes(v.z)
}

pub open spec fn vertex_bytes(v: Vertex) -> Seq<u8> {
    vec3_bytes(v.position)
}

pub open spec fn attributes_bytes(a: VertexAttributes) -> Seq<u8> {
    u32_le_bytes(a.normal) + u32_le_bytes(a.uv) + u32_le_bytes(a.tangent)
}

pub open spec fn sphere_bytes(s: BoundingSphere) -> Seq<u8> {
    vec3_bytes(s.center) + u32_le_bytes(s.radius)
}

pub open spec fn meshlet_bytes(m: Meshlet) -> Seq<u8> {
    u32_le_bytes(m.vertex_offset) + u32_le_bytes(m.attribute_offset) + u32_le_bytes(m.vertex_count)
        + u32_le_bytes(m.index_offset) + u32_le_bytes(m.index_count) + sphere_bytes(
        m.cull_data.bounds,
    ) + sphere_bytes(m.cull_data.parent_error) + u32_le_bytes(m.cull_data.error)
}

pub open spec fn byte_bytes(v: u8) -> Seq<u8> {
    seq![v]
}

pub open spec fn enc_vertices(s: Seq<Vertex>) -> Seq<u8> {
    enc_seq(s, |v: Vertex| vertex_bytes(v))
}

pub open spec fn enc_attributes(s: Seq<VertexAttributes>) -> Seq<u8> {
    enc_seq(s, |a: VertexAttributes| attributes_bytes(a))
}

pub open spec fn enc_u32s(s: Seq<u32>) -> Seq<u8> {
    enc_seq(s, |v: u32| u32_le_bytes(v))
}

pub open spec fn enc_u8s(s: Seq<u8>) -> Seq<u8> {
    enc_seq(s, |v: u8| byte_bytes(v))
}

pub open spec fn enc_meshlets(s: Seq<Meshlet>) -> Seq<u8> {
    enc_seq(s, |m: Meshlet| meshlet_bytes(m))
}

// ---------------------------------------------------------------------------
// Record decodings

pub open spec fn vec3_at(b: Seq<u8>, p: int) -> Vec3Bits {
    Vec3Bits { x: le_u32(b, p) as u32, y: le_u32(b, p + 4) as u32, z: le_u32(b, p + 8) as u32 }
}

pub open spec fn vertex_at(b: Seq<u8>, p: int) -> Vertex {
    Vertex { position: vec3_at(b, p) }
}

pub open spec fn attributes_at(b: Seq<u8>, p: int) -> VertexAttributes {
    VertexAttributes {
        normal: le_u32(b, p) as u32,
        uv: le_u32(b, p + 4) as u32,
        tangent: le_u32(b, p + 8) as u32,
    }
}

pub open spec fn sphere_at(b: Seq<u8>, p: int) -> BoundingSphere {
    BoundingSphere { center: vec3_at(b, p), radius: le_u32(b, p + 12) as u32 }
}

pub open spec fn meshlet_at(b: Seq<u8>, p: int) -> Meshlet {
    Meshlet {
        vertex_offset: le_u32(b, p) as u32,
        attribute_offset: le_u32(b, p + 4) as u32,
        vertex_count: le_u32(b, p + 8) as u32,
        index_offset: le_u32(b, p + 12) as u32,
        index_count: le_u32(b, p + 16) as u32,
        cull_data: CullData {
            bounds: sphere_at(b, p + 20),
            parent_error: sphere_at(b, p + 36),
            error: le_u32(b, p + 52) as u32,
        },
    }
}

pub open spec fn u32_at(b: Seq<u8>, p: int) -> u32 {
    le_u32(b, p) as u32
}

pub open spec fn u8_at(b: Seq<u8>, p: int) -> u8 {
    b[p]
}

// ---------------------------------------------------------------------------
// Decoding what was encoded

proof fn lemma_word_at(b: Seq<u8>, p: int, v: u32)
    requires
        0 <= p,
        p + 4 <= b.len(),
        b.subrange(p, p + 4) == u32_le_bytes(v),
    ensures
        le_u32(b, p) == v as int,
{
    lemma_u32_le_roundtrip(v, b.subrange(0, p), b.subrange(p + 4, b.len() as int));
    assert(b =~= b.subrange(0, p) + u32_le_bytes(v) + b.subrange(p + 4, b.len() as int));
}

proof fn lemma_vec3_at(b: Seq<u8>, p: int, v: Vec3Bits)
    requires
        0 <= p,
        p + 12 <= b.len(),
        b.subrange(p, p + 12) == vec3_bytes(v),
    ensures
        vec3_at(b, p) == v,
{
    assert(b.subrange(p, p + 4) =~= b.subrange(p, p + 12).subrange(0, 4));
    assert(b.subrange(p + 4, p + 8) =~= b.subrange(p, p + 12).subrange(4, 8));
    assert(b.subrange(p + 8, p + 12) =~= b.subrange(p, p + 12).subrange(8, 12));
    assert(vec3_bytes(v).subrange(0, 4) =~= u32_le_bytes(v.x));
    assert(vec3_bytes(v).subrange(4, 8) =~= u32_le_bytes(v.y));
    assert(vec3_bytes(v).subrange(8, 12) =~= u32_le_bytes(v.z));
    lemma_word_at(b, p, v.x);
    lemma_word_at(b, p + 4, v.y);
    lemma_word_at(b, p + 8, v.z);
}

proof fn lemma_vertex_at(b: Seq<u8>, p: int, v: Vertex)
    requires
        0 <= p,
        p + 12 <= b.len(),
        b.subrange(p, p + 12) == vertex_bytes(v),
    ensures
        vertex_at(b, p) == v,
{
    lemma_vec3_at(b, p, v.position);
}

proof fn lemma_attributes_at(b: Seq<u8>, p: int, a: VertexAttributes)
    requires
        0 <= p,
        p + 12 <= b.len(),
        b.subrange(p, p + 12) == attributes_bytes(a),
    ensures
        attributes_at(b, p) == a,
{
    let v = Vec3Bits { x: a.normal, y: a.uv, z: a.tangent };
    assert(attributes_bytes(a) =~= vec3_bytes(v));
    lemma_vec3_at(b, p, v);
}

proof fn lemma_sphere_at(b: Seq<u8>, p: int, s: BoundingSphere)
    requires
        0 <= p,
        p + 16 <= b.len(),
        b.subrange(p, p + 16) == sphere_bytes(s),
    ensures
        sphere_at(b, p) == s,
{
    assert(b.subrange(p, p + 12) =~= b.subrange(p, p + 16).subrange(0, 12));
    assert(b.subrange(p + 12, p + 16) =~= b.subrange(p, p + 16).subrange(12, 16));
    assert(sphere_bytes(s).subrange(0, 12) =~= vec3_bytes(s.center));
    assert(sphere_bytes(s).subrange(12, 16) =~= u32_le_bytes(s.radius));
    lemma_vec3_at(b, p, s.center);
    lemma_word_at(b, p + 12, s.radius);
}

proof fn lemma_sub(b: Seq<u8>, p: int, e: Seq<u8>, q: int, n: int)
    requires
        0 <= p,
        p + e.len() <= b.len(),
        b.subrange(p, p + e.len()) == e,
        0 <= q,
        0 <= n,
        q + n <= e.len(),
    ensures
        b.subrange(p + q, p + q + n) == e.subrange(q, q + n),
{
    assert(b.subrange(p + q, p + q + n) =~= b.subrange(p, p + e.len()).subrange(q, q + n));
}

proof fn lemma_word_in(b: Seq<u8>, p: int, e: Seq<u8>, q: int, v: u32)
    requires
        0 <= p,
        p + e.len() <= b.len(),
        b.subrange(p, p + e.len()) == e,
        0 <= q,
        q + 4 <= e.len(),
        e.subrange(q, q + 4) == u32_le_bytes(v),
    ensures
        le_u32(b, p + q) == v as int,
{
    lemma_sub(b, p, e, q, 4);
    lemma_word_at(b, p + q, v);
}

proof fn lemma_meshlet_at(b: Seq<u8>, p: int, m: Meshlet)
    requires
        0 <= p,
        p + 56 <= b.len(),
        b.subrange(p, p + 56) == meshlet_bytes(m),
    ensures
        meshlet_at(b, p) == m,
{
    let w0 = u32_le_bytes(m.vertex_offset);
    let w1 = u32_le_bytes(m.attribute_offset);
    let w2 = u32_le_bytes(m.vertex_count);
    let w3 = u32_le_bytes(m.index_offset);
    let w4 = u32_le_bytes(m.index_count);
    let sb = sphere_bytes(m.cull_data.bounds);
    let sp = sphere_bytes(m.cull_data.parent_error);
    let we = u32_le_bytes(m.cull_data.error);
    let e = meshlet_bytes(m);
    assert(e == w0 + w1 + w2 + w3 + w4 + sb + sp + we);
    assert(e.subrange(0, 4) =~= w0);
    assert(e.subrange(4, 8) =~= w1);
    assert(e.subrange(8, 12) =~= w2);
    assert(e.subrange(12, 16) =~= w3);
    assert(e.subrange(16, 20) =~= w4);
    assert(e.subrange(20, 36) =~= sb);
    assert(e.subrange(36, 52) =~= sp);
    assert(e.subrange(52, 56) =~= we);
    lemma_word_in(b, p, e, 0, m.vertex_offset);
    lemma_word_in(b, p, e, 4, m.attribute_offset);
    lemma_word_in(b, p, e, 8, m.vertex_count);
    lemma_word_in(b, p, e, 12, m.index_offset);
    lemma_word_in(b, p, e, 16, m.index_count);
    lemma_word_in(b, p, e, 52, m.cull_data.error);
    lemma_sub(b, p, e, 20, 16);
    lemma_sub(b, p, e, 36, 16);
    lemma_sphere_at(b, p + 20, m.cull_data.bounds);
    lemma_sphere_at(b, p + 36, m.cull_data.parent_error);
}

/// The records decoded from a section equal the records that were encoded.
proof fn lemma_section_roundtrip<T>(
    b: Seq<u8>,
    p: int,
    s: Seq<T>,
    f: spec_fn(T) -> Seq<u8>,
    at: spec_fn(Seq<u8>, int) -> T,
    k: nat,
)
    requires
        0 <= p,
        k > 0,
        forall|t: T| #[trigger] f(t).len() == k,
        p + k * s.len() <= b.len(),
        b.subrange(p, p + k * s.len()) == enc_seq(s, f),
        forall|q: int, t: T|
            #![trigger at(b, q), f(t)]
            0 <= q && q + k <= b.len() && b.subrange(q, q + k) == f(t) ==> at(b, q) == t,
    ensures
        Seq::new(s.len(), |i: int| at(b, p + k * i)) == s,
{
    assert forall|i: int| 0 <= i < s.len() implies at(b, p + k * i) == s[i] by {
        lemma_enc_seq_layout(s, f, k, i);
        assert(k * i + k <= k * s.len()) by (nonlinear_arith)
            requires
                i < s.len(),
        ;
        assert(0 <= k * i) by (nonlinear_arith)
            requires
                0 <= i,
        ;
        assert(b.subrange(p + k * i, p + k * i + k) =~= enc_seq(s, f).subrange(k * i, k * i + k));
    }
    assert(Seq::new(s.len(), |i: int| at(b, p + k * i)) =~= s);
}

// ---------------------------------------------------------------------------
// Meshes

/// The five arrays that a `.mere` mesh stores.
pub struct MeshData {
    pub vertex_positions: Seq<Vertex>,
    pub vertex_attributes: Seq<VertexAttributes>,
    pub meshlet_vertex_indices: Seq<u32>,
    pub meshlet_indices: Seq<u8>,
    pub meshlets: Seq<Meshlet>,
}

/// Errors of reading a `.mere` mesh.
#[derive(Clone, Copy, Debug, PartialEq, Eq, Structural)]
pub enum MereFileError {
    /// Fewer than the 40 header bytes.
    TooSmall,
    /// Fewer bytes than the header's counts call for.
    Truncated,
}

/// Number of bytes of the header of a mesh.
pub const HEADER_BYTES: usize = 40;

/// The size of the encoding of a mesh whose header holds the given counts.
pub open spec fn encoded_size(c0: int, c1: int, c2: int, c3: int, c4: int) -> int {
    40 + 12 * c0 + 12 * c1 + 4 * c2 + c3 + 56 * c4
}

/// A mesh's counts fit the header's 64-bit fields.
pub open spec fn mesh_counts_fit(m: MeshData) -> bool {
    &&& m.vertex_positions.len() <= u64::MAX
    &&& m.vertex_attributes.len() <= u64::MAX
    &&& m.meshlet_vertex_indices.len() <= u64::MAX
    &&& m.meshlet_indices.len() <= u64::MAX
    &&& m.meshlets.len() <= u64::MAX
}

/// The 40-byte header of the `.mere` encoding of a mesh.
pub open spec fn mesh_header_bytes(m: MeshData) -> Seq<u8> {
    u64_le_bytes(m.vertex_positions.len() as u64) + (u64_le_bytes(m.vertex_attributes.len() as u64)
        + (u64_le_bytes(m.meshlet_vertex_indices.len() as u64) + (u64_le_bytes(
        m.meshlet_indices.len() as u64,
    ) + u64_le_bytes(m.meshlets.len() as u64))))
}

/// The five sections of the `.mere` encoding of a mesh.
pub open spec fn mesh_section_bytes(m: MeshData) -> Seq<u8> {
    enc_vertices(m.vertex_positions) + (enc_attributes(m.vertex_attributes) + (enc_u32s(
        m.meshlet_vertex_indices,
    ) + (enc_u8s(m.meshlet_indices) + enc_meshlets(m.meshlets))))
}

/// The `.mere` encoding of a mesh.
pub open spec fn mesh_file_bytes(m: MeshData) -> Seq<u8> {
    mesh_header_bytes(m) + mesh_section_bytes(m)
}

/// The five arrays of a mesh with the given counts whose sections start at
/// `p` in `b`.
pub open spec fn mesh_body(b: Seq<u8>, p: int, c0: int, c1: int, c2: int, c3: int, c4: int) -> MeshData {
    let p1 = p + 12 * c0;
    let p2 = p1 + 12 * c1;
    let p3 = p2 + 4 * c2;
    let p4 = p3 + c3;
    MeshData {
        vertex_positions: Seq::new(c0 as nat, |i: int| vertex_at(b, p + 12 * i)),
        vertex_attributes: Seq::new(c1 as nat, |i: int| attributes_at(b, p1 + 12 * i)),
        meshlet_vertex_indices: Seq::new(c2 as nat, |i: int| u32_at(b, p2 + 4 * i)),
        meshlet_indices: Seq::new(c3 as nat, |i: int| u8_at(b, p3 + 1 * i)),
        meshlets: Seq::new(c4 as nat, |i: int| meshlet_at(b, p4 + 56 * i)),
    }
}

/// What reading a `.mere` mesh from the bytes `b` gives: the mesh and the
/// number of bytes it took, or the error.
pub open spec fn decode_mesh(b: Seq<u8>) -> Result<(MeshData, int), MereFileError> {
    if b.len() < 40 {
        Err(MereFileError::TooSmall)
    } else {
        let end = encoded_size(le_u64(b, 0), le_u64(b, 8), le_u64(b, 16), le_u64(b, 24), le_u64(b, 32));
        if end > b.len() {
            Err(MereFileError::Truncated)
        } else {
            Ok(
                (
                    mesh_body(b, 40, le_u64(b, 0), le_u64(b, 8), le_u64(b, 16), le_u64(b, 24), le_u64(b, 32)),
                    end,
                ),
            )
        }
    }
}

proof fn lemma_concat_parts(x: Seq<u8>, y: Seq<u8>)
    ensures
        (x + y).subrange(0, x.len() as int) == x,
        (x + y).subrange(x.len() as int, (x.len() + y.len()) as int) == y,
{
    assert((x + y).subrange(0, x.len() as int) =~= x);
    assert((x + y).subrange(x.len() as int, (x.len() + y.len()) as int) =~= y);
}

proof fn lemma_u64_in(b: Seq<u8>, p: int, e: Seq<u8>, q: int, v: u64)
    requires
        0 <= p,
        p + e.len() <= b.len(),
        b.subrange(p, p + e.len()) == e,
        0 <= q,
        q + 8 <= e.len(),
        e.subrange(q, q + 8) == u64_le_bytes(v),
    ensures
        le_u64(b, p + q) == v as int,
{
    lemma_sub(b, p, e, q, 8);
    let w = b.subrange(p + q, p + q + 8);
    lemma_u64_le_roundtrip(v, b.subrange(0, p + q), b.subrange(p + q + 8, b.len() as int));
    assert(b =~= b.subrange(0, p + q) + u64_le_bytes(v) + b.subrange(p + q + 8, b.len() as int));
}

proof fn lemma_header_counts(b: Seq<u8>, m: MeshData)
    requires
        mesh_counts_fit(m),
        40 <= b.len(),
        b.subrange(0, 40) == mesh_header_bytes(m),
    ensures
        le_u64(b, 0) == m.vertex_positions.len(),
        le_u64(b, 8) == m.vertex_attributes.len(),
        le_u64(b, 16) == m.meshlet_vertex_indices.len(),
        le_u64(b, 24) == m.meshlet_indices.len(),
        le_u64(b, 32) == m.meshlets.len(),
{
    let h0 = u64_le_bytes(m.vertex_positions.len() as u64);
    let h1 = u64_le_bytes(m.vertex_attributes.len() as u64);
    let h2 = u64_le_bytes(m.meshlet_vertex_indices.len() as u64);
    let h3 = u64_le_bytes(m.meshlet_indices.len() as u64);
    let h4 = u64_le_bytes(m.meshlets.len() as u64);
    let e = mesh_header_bytes(m);
    assert(e.subrange(0, 8) =~= h0);
    assert(e.subrange(8, 16) =~= h1);
    assert(e.subrange(16, 24) =~= h2);
    assert(e.subrange(24, 32) =~= h3);
    assert(e.subrange(32, 40) =~= h4);
    lemma_u64_in(b, 0, e, 0, m.vertex_positions.len() as u64);
    lemma_u64_in(b, 0, e, 8, m.vertex_attributes.len() as u64);
    lemma_u64_in(b, 0, e, 16, m.meshlet_vertex_indices.len() as u64);
    lemma_u64_in(b, 0, e, 24, m.meshlet_indices.len() as u64);
    lemma_u64_in(b, 0, e, 32, m.meshlets.len() as u64);
}

/// Where the sections of an encoded mesh lie.
proof fn lemma_section_places(b: Seq<u8>, m: MeshData)
    requires
        b.len() >= 40 + mesh_section_bytes(m).len(),
        b.subrange(40, 40 + mesh_section_bytes(m).len() as int) == mesh_section_bytes(m),
    ensures
        ({
            let n0 = m.vertex_positions.len() as int;
            let n1 = m.vertex_attributes.len() as int;
            let n2 = m.meshlet_vertex_indices.len() as int;
            let n3 = m.meshlet_indices.len() as int;
            let n4 = m.meshlets.len() as int;
            let p1 = 40 + 12 * n0;
            let p2 = p1 + 12 * n1;
            let p3 = p2 + 4 * n2;
            let p4 = p3 + n3;
            let end = p4 + 56 * n4;
            &&& mesh_section_bytes(m).len() == end - 40
            &&& b.subrange(40, p1) == enc_vertices(m.vertex_positions)
            &&& b.subrange(p1, p2) == enc_attributes(m.vertex_attributes)
            &&& b.subrange(p2, p3) == enc_u32s(m.meshlet_vertex_indices)
            &&& b.subrange(p3, p4) == enc_u8s(m.meshlet_indices)
            &&& b.subrange(p4, end) == enc_meshlets(m.meshlets)
        }),
{
    let s0 = enc_vertices(m.vertex_positions);
    let s1 = enc_attributes(m.vertex_attributes);
    let s2 = enc_u32s(m.meshlet_vertex_indices);
    let s3 = enc_u8s(m.meshlet_indices);
    let s4 = enc_meshlets(m.meshlets);
    lemma_enc_seq_len(m.vertex_positions, |v: Vertex| vertex_bytes(v), 12);
    lemma_enc_seq_len(m.vertex_attributes, |a: VertexAttributes| attributes_bytes(a), 12);
    lemma_enc_seq_len(m.meshlet_vertex_indices, |v: u32| u32_le_bytes(v), 4);
    lemma_enc_seq_len(m.meshlet_indices, |v: u8| byte_bytes(v), 1);
    assert forall|s: Seq<Meshlet>| #[trigger] enc_meshlets(s).len() == 56 * s.len() by {
        lemma_enc_seq_len(s, |x: Meshlet| meshlet_bytes(x), 56);
    }
    let t3 = s3 + s4;
    let t2 = s2 + t3;
    let t1 = s1 + t2;
    let t0 = s0 + t1;
    assert(t0 == mesh_section_bytes(m));
    lemma_concat_parts(s0, t1);
    lemma_concat_parts(s1, t2);
    lemma_concat_parts(s2, t3);
    lemma_concat_parts(s3, s4);
    let p1 = 40 + s0.len() as int;
    let p2 = p1 + s1.len() as int;
    let p3 = p2 + s2.len() as int;
    let p4 = p3 + s3.len() as int;
    lemma_sub(b, 40, t0, 0, s0.len() as int);
    lemma_sub(b, 40, t0, s0.len() as int, t1.len() as int);
    lemma_sub(b, p1, t1, 0, s1.len() as int);
    lemma_sub(b, p1, t1, s1.len() as int, t2.len() as int);
    lemma_sub(b, p2, t2, 0, s2.len() as int);
    lemma_sub(b, p2, t2, s2.len() as int, t3.len() as int);
    lemma_sub(b, p3, t3, 0, s3.len() as int);
    lemma_sub(b, p3, t3, s3.len() as int, s4.len() as int);
}

proof fn lemma_vertices_section(b: Seq<u8>, p: int, s: Seq<Vertex>)
    requires
        0 <= p,
        p + 12 * s.len() <= b.len(),
        b.subrange(p, p + 12 * s.len()) == enc_vertices(s),
    ensures
        forall|i: int| 0 <= i < s.len() ==> #[trigger] vertex_at(b, p + 12 * i) == s[i],
{
    let f = |v: Vertex| vertex_bytes(v);
    let at = |bb: Seq<u8>, q: int| vertex_at(bb, q);
    assert forall|q: int, x: Vertex|
        #![trigger at(b, q), f(x)]
        0 <= q && q + 12 <= b.len() && b.subrange(q, q + 12) == f(x) implies at(b, q) == x by {
        lemma_vertex_at(b, q, x);
    }
    lemma_section_roundtrip(b, p, s, f, at, 12);
    assert forall|i: int| 0 <= i < s.len() implies #[trigger] vertex_at(b, p + 12 * i) == s[i] by {
        assert(Seq::new(s.len(), |j: int| at(b, p + 12 * j))[i] == s[i]);
    }
}

proof fn lemma_attributes_section(b: Seq<u8>, p: int, s: Seq<VertexAttributes>)
    requires
        0 <= p,
        p + 12 * s.len() <= b.len(),
        b.subrange(p, p + 12 * s.len()) == enc_attributes(s),
    ensures
        forall|i: int| 0 <= i < s.len() ==> #[trigger] attributes_at(b, p + 12 * i) == s[i],
{
    let f = |v: VertexAttributes| attributes_bytes(v);
    let at = |bb: Seq<u8>, q: int| attributes_at(bb, q);
    assert forall|q: int, x: VertexAttributes|
        #![trigger at(b, q), f(x)]
        0 <= q && q + 12 <= b.len() && b.subrange(q, q + 12) == f(x) implies at(b, q) == x by {
        lemma_attributes_at(b, q, x);
    }
    lemma_section_roundtrip(b, p, s, f, at, 12);
    assert forall|i: int| 0 <= i < s.len() implies #[trigger] attributes_at(b, p + 12 * i) == s[i] by {
        assert(Seq::new(s.len(), |j: int| at(b, p + 12 * j))[i] == s[i]);
    }
}

proof fn lemma_u32s_section(b: Seq<u8>, p: int, s: Seq<u32>)
    requires
        0 <= p,
        p + 4 * s.len() <= b.len(),
        b.subrange(p, p + 4 * s.len()) == enc_u32s(s),
    ensures
        forall|i: int| 0 <= i < s.len() ==> #[trigger] u32_at(b, p + 4 * i) == s[i],
{
    let f = |v: u32| u32_le_bytes(v);
    let at = |bb: Seq<u8>, q: int| u32_at(bb, q);
    assert forall|q: int, x: u32|
        #![trigger at(b, q), f(x)]
        0 <= q && q + 4 <= b.len() && b.subrange(q, q + 4) == f(x) implies at(b, q) == x by {
        lemma_word_at(b, q, x);
    }
    lemma_section_roundtrip(b, p, s, f, at, 4);
    assert forall|i: int| 0 <= i < s.len() implies #[trigger] u32_at(b, p + 4 * i) == s[i] by {
        assert(Seq::new(s.len(), |j: int| at(b, p + 4 * j))[i] == s[i]);
    }
}

proof fn lemma_u8s_section(b: Seq<u8>, p: int, s: Seq<u8>)
    requires
        0 <= p,
        p + s.len() <= b.len(),
        b.subrange(p, p + s.len()) == enc_u8s(s),
    ensures
        forall|i: int| 0 <= i < s.len() ==> #[trigger] u8_at(b, p + 1 * i) == s[i],
{
    let f = |v: u8| byte_bytes(v);
    let at = |bb: Seq<u8>, q: int| u8_at(bb, q);
    assert forall|q: int, x: u8|
        #![trigger at(b, q), f(x)]
        0 <= q && q + 1 <= b.len() && b.subrange(q, q + 1) == f(x) implies at(b, q) == x by {
        assert(b.subrange(q, q + 1)[0] == b[q]);
    }
    assert(p + 1 * s.len() == p + s.len());
    lemma_section_roundtrip(b, p, s, f, at, 1);
    assert forall|i: int| 0 <= i < s.len() implies #[trigger] u8_at(b, p + 1 * i) == s[i] by {
        assert(Seq::new(s.len(), |j: int| at(b, p + 1 * j))[i] == s[i]);
    }
}

proof fn lemma_meshlets_section(b: Seq<u8>, p: int, s: Seq<Meshlet>)
    requires
        0 <= p,
        p + 56 * s.len() <= b.len(),
        b.subrange(p, p + 56 * s.len()) == enc_meshlets(s),
    ensures
        forall|i: int| 0 <= i < s.len() ==> #[trigger] meshlet_at(b, p + 56 * i) == s[i],
{
    let f = |v: Meshlet| meshlet_bytes(v);
    let at = |bb: Seq<u8>, q: int| meshlet_at(bb, q);
    assert forall|q: int, x: Meshlet|
        #![trigger at(b, q), f(x)]
        0 <= q && q + 56 <= b.len() && b.subrange(q, q + 56) == f(x) implies at(b, q) == x by {
        lemma_meshlet_at(b, q, x);
    }
    lemma_section_roundtrip(b, p, s, f, at, 56);
    assert forall|i: int| 0 <= i < s.len() implies #[trigger] meshlet_at(b, p + 56 * i) == s[i] by {
        assert(Seq::new(s.len(), |j: int| at(b, p + 56 * j))[i] == s[i]);
    }
}

/// The encodings of the arrays of a mesh have the sizes of their records.
pub proof fn lemma_enc_sizes(m: MeshData)
    ensures
        enc_vertices(m.vertex_positions).len() == 12 * m.vertex_positions.len(),
        enc_u8s(m.meshlet_indices).len() == m.meshlet_indices.len(),
        forall|s: Seq<Meshlet>| #[trigger] enc_meshlets(s).len() == 56 * s.len(),
        forall|s: Seq<u32>| #[trigger] enc_u32s(s).len() == 4 * s.len(),
{
    lemma_enc_seq_len(m.vertex_positions, |v: Vertex| vertex_bytes(v), 12);
    lemma_enc_seq_len(m.meshlet_indices, |v: u8| byte_bytes(v), 1);
    assert forall|s: Seq<Meshlet>| #[trigger] enc_meshlets(s).len() == 56 * s.len() by {
        lemma_enc_seq_len(s, |x: Meshlet| meshlet_bytes(x), 56);
    }
    assert forall|s: Seq<u32>| #[trigger] enc_u32s(s).len() == 4 * s.len() by {
        lemma_enc_seq_len(s, |v: u32| u32_le_bytes(v), 4);
    }
}

/// Law: reading back an encoded mesh gives the mesh and the length of its
/// encoding, whatever bytes follow it.
#[verifier::spinoff_prover]
#[verifier::rlimit(60)]
pub proof fn lemma_mesh_roundtrip(m: MeshData, rest: Seq<u8>)
    requires
        mesh_counts_fit(m),
    ensures
        decode_mesh(mesh_file_bytes(m) + rest) == Ok::<(MeshData, int), MereFileError>(
            (m, mesh_file_bytes(m).len() as int),
        ),
{
    let b = mesh_file_bytes(m) + rest;
    let h = mesh_header_bytes(m);
    let t = mesh_section_bytes(m);
    lemma_concat_parts(h, t + rest);
    lemma_concat_parts(t, rest);
    assert(b == h + (t + rest));
    assert(h.len() == 40);
    lemma_sub(b, 40, t + rest, 0, t.len() as int);
    lemma_header_counts(b, m);
    lemma_section_places(b, m);
    let n0 = m.vertex_positions.len() as int;
    let n1 = m.vertex_attributes.len() as int;
    let n2 = m.meshlet_vertex_indices.len() as int;
    let n3 = m.meshlet_indices.len() as int;
    let n4 = m.meshlets.len() as int;
    let p1 = 40 + 12 * n0;
    let p2 = p1 + 12 * n1;
    let p3 = p2 + 4 * n2;
    let p4 = p3 + n3;
    lemma_vertices_section(b, 40, m.vertex_positions);
    lemma_attributes_section(b, p1, m.vertex_attributes);
    lemma_u32s_section(b, p2, m.meshlet_vertex_indices);
    lemma_u8s_section(b, p3, m.meshlet_indices);
    lemma_meshlets_section(b, p4, m.meshlets);
    let d = decode_mesh(b);
    assert(d is Ok);
    let dm = d->Ok_0.0;
    assert(dm.vertex_positions =~= m.vertex_positions);
    assert(dm.vertex_attributes =~= m.vertex_attributes);
    assert(dm.meshlet_vertex_indices =~= m.meshlet_vertex_indices);
    assert(dm.meshlet_indices =~= m.meshlet_indices);
    assert(dm.meshlets =~= m.meshlets);
}


/// The sections of the `.mere` encoding of `m` start where its header ends.
proof fn lemma_file_sections(m: MeshData)
    ensures
        mesh_file_bytes(m).len() >= 40 + mesh_section_bytes(m).len(),
        mesh_file_bytes(m).subrange(40, 40 + mesh_section_bytes(m).len() as int) == mesh_section_bytes(m),
{
    let h = mesh_header_bytes(m);
    let t = mesh_section_bytes(m);
    lemma_concat_parts(h, t);
    assert(h.len() == 40);
}

/// Law: a `.mere` mesh file starts with the five counts as little-endian
/// 64-bit words: positions, attributes, meshlet vertex indices, triangle
/// indices, meshlets.
pub proof fn lemma_file_header(m: MeshData)
    ensures
        ({
            let b = mesh_file_bytes(m);
            &&& 40 <= b.len()
            &&& b.subrange(0, 8) == u64_le_bytes(m.vertex_positions.len() as u64)
            &&& b.subrange(8, 16) == u64_le_bytes(m.vertex_attributes.len() as u64)
            &&& b.subrange(16, 24) == u64_le_bytes(m.meshlet_vertex_indices.len() as u64)
            &&& b.subrange(24, 32) == u64_le_bytes(m.meshlet_indices.len() as u64)
            &&& b.subrange(32, 40) == u64_le_bytes(m.meshlets.len() as u64)
        }),
{
    let b = mesh_file_bytes(m);
    let h = mesh_header_bytes(m);
    let t = mesh_section_bytes(m);
    lemma_concat_parts(h, t);
    assert(h.len() == 40);
    assert(h.subrange(0, 8) =~= u64_le_bytes(m.vertex_positions.len() as u64));
    assert(h.subrange(8, 16) =~= u64_le_bytes(m.vertex_attributes.len() as u64));
    assert(h.subrange(16, 24) =~= u64_le_bytes(m.meshlet_vertex_indices.len() as u64));
    assert(h.subrange(24, 32) =~= u64_le_bytes(m.meshlet_indices.len() as u64));
    assert(h.subrange(32, 40) =~= u64_le_bytes(m.meshlets.len() as u64));
    lemma_sub(b, 0, h, 0, 8);
    lemma_sub(b, 0, h, 8, 8);
    lemma_sub(b, 0, h, 16, 8);
    lemma_sub(b, 0, h, 24, 8);
    lemma_sub(b, 0, h, 32, 8);
}

/// Law: in the `.mere` file of a mesh, vertex `i`'s position sits at
/// `40 + 12 * i`: the little-endian bytes of its `x`, then `y`, then `z`.
pub proof fn lemma_file_position_record(m: MeshData, i: int)
    requires
        0 <= i < m.vertex_positions.len(),
    ensures
        ({
            let b = mesh_file_bytes(m);
            let p = 40 + 12 * i;
            let v = m.vertex_positions[i].position;
            &&& p + 12 <= b.len()
            &&& b.subrange(p, p + 4) == u32_le_bytes(v.x)
            &&& b.subrange(p + 4, p + 8) == u32_le_bytes(v.y)
            &&& b.subrange(p + 8, p + 12) == u32_le_bytes(v.z)
        }),
{
    let b = mesh_file_bytes(m);
    lemma_file_sections(m);
    lemma_section_places(b, m);
    let s0 = enc_vertices(m.vertex_positions);
    lemma_enc_seq_layout(m.vertex_positions, |x: Vertex| vertex_bytes(x), 12, i);
    assert(12 * i + 12 <= 12 * m.vertex_positions.len()) by (nonlinear_arith)
        requires
            i < m.vertex_positions.len(),
    ;
    lemma_sub(b, 40, s0, 12 * i, 12);
    let v = m.vertex_positions[i].position;
    let r = vertex_bytes(m.vertex_positions[i]);
    assert(r.subrange(0, 4) =~= u32_le_bytes(v.x));
    assert(r.subrange(4, 8) =~= u32_le_bytes(v.y));
    assert(r.subrange(8, 12) =~= u32_le_bytes(v.z));
    lemma_sub(b, 40 + 12 * i, r, 0, 4);
    lemma_sub(b, 40 + 12 * i, r, 4, 4);
    lemma_sub(b, 40 + 12 * i, r, 8, 4);
}

/// Law: in the `.mere` file of a mesh, vertex `i`'s attribute record sits at
/// `40 + 12 * positions + 12 * i`: the little-endian bytes of its normal,
/// then of its uv, then of its tangent.
pub proof fn lemma_file_attribute_record(m: MeshData, i: int)
    requires
        0 <= i < m.vertex_attributes.len(),
    ensures
        ({
            let b = mesh_file_bytes(m);
            let p = 40 + 12 * m.vertex_positions.len() + 12 * i;
            let a = m.vertex_attributes[i];
            &&& p + 12 <= b.len()
            &&& b.subrange(p, p + 4) == u32_le_bytes(a.normal)
            &&& b.subrange(p + 4, p + 8) == u32_le_bytes(a.uv)
            &&& b.subrange(p + 8, p + 12) == u32_le_bytes(a.tangent)
        }),
{
    let b = mesh_file_bytes(m);
    lemma_file_sections(m);
    lemma_section_places(b, m);
    let p1 = (40 + 12 * m.vertex_positions.len()) as int;
    let s1 = enc_attributes(m.vertex_attributes);
    lemma_enc_seq_layout(m.vertex_attributes, |x: VertexAttributes| attributes_bytes(x), 12, i);
    assert(12 * i + 12 <= 12 * m.vertex_attributes.len()) by (nonlinear_arith)
        requires
            i < m.vertex_attributes.len(),
    ;
    lemma_sub(b, p1, s1, 12 * i, 12);
    let a = m.vertex_attributes[i];
    let r = attributes_bytes(a);
    assert(r.subrange(0, 4) =~= u32_le_bytes(a.normal));
    assert(r.subrange(4, 8) =~= u32_le_bytes(a.uv));
    assert(r.subrange(8, 12) =~= u32_le_bytes(a.tangent));
    lemma_sub(b, p1 + 12 * i, r, 0, 4);
    lemma_sub(b, p1 + 12 * i, r, 4, 4);
    lemma_sub(b, p1 + 12 * i, r, 8, 4);
}

/// Law: in the `.mere` file of a mesh, meshlet vertex index `i` sits at
/// `40 + 12 * positions + 12 * attributes + 4 * i` as four little-endian
/// bytes, and triangle index `j` is the byte at
/// `40 + 12 * positions + 12 * attributes + 4 * vertex indices + j`.
pub proof fn lemma_file_index_records(m: MeshData, i: int, j: int)
    ensures
        ({
            let b = mesh_file_bytes(m);
            let p2 = 40 + 12 * m.vertex_positions.len() + 12 * m.vertex_attributes.len();
            let p3 = p2 + 4 * m.meshlet_vertex_indices.len();
            &&& 0 <= i < m.meshlet_vertex_indices.len() ==> p2 + 4 * i + 4 <= b.len() && b.subrange(
                p2 + 4 * i,
                p2 + 4 * i + 4,
            ) == u32_le_bytes(m.meshlet_vertex_indices[i])
            &&& 0 <= j < m.meshlet_indices.len() ==> p3 + j < b.len() && b[p3 + j] == m.meshlet_indices[j]
        }),
{
    let b = mesh_file_bytes(m);
    lemma_file_sections(m);
    lemma_section_places(b, m);
    let p2 = (40 + 12 * m.vertex_positions.len() + 12 * m.vertex_attributes.len()) as int;
    let p3 = (p2 + 4 * m.meshlet_vertex_indices.len()) as int;
    if 0 <= i < m.meshlet_vertex_indices.len() {
        let s2 = enc_u32s(m.meshlet_vertex_indices);
        lemma_enc_seq_layout(m.meshlet_vertex_indices, |v: u32| u32_le_bytes(v), 4, i);
        assert(4 * i + 4 <= 4 * m.meshlet_vertex_indices.len()) by (nonlinear_arith)
            requires
                i < m.meshlet_vertex_indices.len(),
        ;
        lemma_sub(b, p2, s2, 4 * i, 4);
    }
    if 0 <= j < m.meshlet_indices.len() {
        let s3 = enc_u8s(m.meshlet_indices);
        lemma_enc_seq_layout(m.meshlet_indices, |v: u8| byte_bytes(v), 1, j);
        lemma_sub(b, p3, s3, j, 1);
        assert(b.subrange(p3 + j, p3 + j + 1)[0] == b[p3 + j]);
    }
}

/// Law: in the `.mere` file of a mesh, meshlet `i` sits at the start of the
/// meshlet section plus `56 * i`, as fourteen little-endian words: vertex
/// offset, attribute offset, vertex count, index offset, index count, the
/// bounding sphere's centre `x`, `y`, `z` and radius, the parent error
/// sphere's centre `x`, `y`, `z` and radius, and the error.
#[verifier::rlimit(30)]
pub proof fn lemma_file_meshlet_record(m: MeshData, i: int)
    requires
        0 <= i < m.meshlets.len(),
    ensures
        ({
            let b = mesh_file_bytes(m);
            let p = 40 + 12 * m.vertex_positions.len() + 12 * m.vertex_attributes.len() + 4
                * m.meshlet_vertex_indices.len() + m.meshlet_indices.len() + 56 * i;
            let x = m.meshlets[i];
            &&& p + 56 <= b.len()
            &&& b.subrange(p, p + 4) == u32_le_bytes(x.vertex_offset)
            &&& b.subrange(p + 4, p + 8) == u32_le_bytes(x.attribute_offset)
            &&& b.subrange(p + 8, p + 12) == u32_le_bytes(x.vertex_count)
            &&& b.subrange(p + 12, p + 16) == u32_le_bytes(x.index_offset)
            &&& b.subrange(p + 16, p + 20) == u32_le_bytes(x.index_count)
            &&& b.subrange(p + 20, p + 24) == u32_le_bytes(x.cull_data.bounds.center.x)
            &&& b.subrange(p + 24, p + 28) == u32_le_bytes(x.cull_data.bounds.center.y)
            &&& b.subrange(p + 28, p + 32) == u32_le_bytes(x.cull_data.bounds.center.z)
            &&& b.subrange(p + 32, p + 36) == u32_le_bytes(x.cull_data.bounds.radius)
            &&& b.subrange(p + 36, p + 40) == u32_le_bytes(x.cull_data.parent_error.center.x)
            &&& b.subrange(p + 40, p + 44) == u32_le_bytes(x.cull_data.parent_error.center.y)
            &&& b.subrange(p + 44, p + 48) == u32_le_bytes(x.cull_data.parent_error.center.z)
            &&& b.subrange(p + 48, p + 52) == u32_le_bytes(x.cull_data.parent_error.radius)
            &&& b.subrange(p + 52, p + 56) == u32_le_bytes(x.cull_data.error)
        }),
{
    let b = mesh_file_bytes(m);
    lemma_file_sections(m);
    lemma_section_places(b, m);
    let p4 = (40 + 12 * m.vertex_positions.len() + 12 * m.vertex_attributes.len() + 4
        * m.meshlet_vertex_indices.len() + m.meshlet_indices.len()) as int;
    let s4 = enc_meshlets(m.meshlets);
    lemma_enc_seq_layout(m.meshlets, |v: Meshlet| meshlet_bytes(v), 56, i);
    assert(56 * i + 56 <= 56 * m.meshlets.len()) by (nonlinear_arith)
        requires
            i < m.meshlets.len(),
    ;
    lemma_sub(b, p4, s4, 56 * i, 56);
    let x = m.meshlets[i];
    let r = meshlet_bytes(x);
    let q = p4 + 56 * i;
    assert(r.subrange(0, 4) =~= u32_le_bytes(x.vertex_offset));
    assert(r.subrange(4, 8) =~= u32_le_bytes(x.attribute_offset));
    assert(r.subrange(8, 12) =~= u32_le_bytes(x.vertex_count));
    assert(r.subrange(12, 16) =~= u32_le_bytes(x.index_offset));
    assert(r.subrange(16, 20) =~= u32_le_bytes(x.index_count));
    assert(r.subrange(20, 24) =~= u32_le_bytes(x.cull_data.bounds.center.x));
    assert(r.subrange(24, 28) =~= u32_le_bytes(x.cull_data.bounds.center.y));
    assert(r.subrange(28, 32) =~= u32_le_bytes(x.cull_data.bounds.center.z));
    assert(r.subrange(32, 36) =~= u32_le_bytes(x.cull_data.bounds.radius));
    assert(r.subrange(36, 40) =~= u32_le_bytes(x.cull_data.parent_error.center.x));
    assert(r.subrange(40, 44) =~= u32_le_bytes(x.cull_data.parent_error.center.y));
    assert(r.subrange(44, 48) =~= u32_le_bytes(x.cull_data.parent_error.center.z));
    assert(r.subrange(48, 52) =~= u32_le_bytes(x.cull_data.parent_error.radius));
    assert(r.subrange(52, 56) =~= u32_le_bytes(x.cull_data.error));
    lemma_sub(b, q, r, 0, 4);
    lemma_sub(b, q, r, 4, 4);
    lemma_sub(b, q, r, 8, 4);
    lemma_sub(b, q, r, 12, 4);
    lemma_sub(b, q, r, 16, 4);
    lemma_sub(b, q, r, 20, 4);
    lemma_sub(b, q, r, 24, 4);
    lemma_sub(b, q, r, 28, 4);
    lemma_sub(b, q, r, 32, 4);
    lemma_sub(b, q, r, 36, 4);
    lemma_sub(b, q, r, 40, 4);
    lemma_sub(b, q, r, 44, 4);
    lemma_sub(b, q, r, 48, 4);
    lemma_sub(b, q, r, 52, 4);
}

/// Law: what reading a `.mere` mesh gives is what the file's bytes say: the
/// counts are the header's five little-endian 64-bit words, and each field
/// of each record is the little-endian word at its place (see the file
/// layout laws above), each triangle index the byte at its place.
pub proof fn lemma_decoded_fields(b: Seq<u8>)
    requires
        decode_mesh(b) is Ok,
    ensures
        ({
            let m = decode_mesh(b)->Ok_0.0;
            let p1 = 40 + 12 * le_u64(b, 0);
            let p2 = p1 + 12 * le_u64(b, 8);
            let p3 = p2 + 4 * le_u64(b, 16);
            let p4 = p3 + le_u64(b, 24);
            &&& m.vertex_positions.len() == le_u64(b, 0)
            &&& m.vertex_attributes.len() == le_u64(b, 8)
            &&& m.meshlet_vertex_indices.len() == le_u64(b, 16)
            &&& m.meshlet_indices.len() == le_u64(b, 24)
            &&& m.meshlets.len() == le_u64(b, 32)
            &&& forall|i: int|
                0 <= i < m.vertex_positions.len() ==> {
                    &&& (#[trigger] m.vertex_positions[i]).position.x == le_u32(b, 40 + 12 * i) as u32
                    &&& m.vertex_positions[i].position.y == le_u32(b, 40 + 12 * i + 4) as u32
                    &&& m.vertex_positions[i].position.z == le_u32(b, 40 + 12 * i + 8) as u32
                }
            &&& forall|i: int|
                0 <= i < m.vertex_attributes.len() ==> {
                    &&& (#[trigger] m.vertex_attributes[i]).normal == le_u32(b, p1 + 12 * i) as u32
                    &&& m.vertex_attributes[i].uv == le_u32(b, p1 + 12 * i + 4) as u32
                    &&& m.vertex_attributes[i].tangent == le_u32(b, p1 + 12 * i + 8) as u32
                }
            &&& forall|i: int|
                0 <= i < m.meshlet_vertex_indices.len() ==> #[trigger] m.meshlet_vertex_indices[i] == le_u32(
                    b,
                    p2 + 4 * i,
                ) as u32
            &&& forall|i: int| 0 <= i < m.meshlet_indices.len() ==> #[trigger] m.meshlet_indices[i] == b[p3 + i]
            &&& forall|i: int|
                0 <= i < m.meshlets.len() ==> {
                    &&& (#[trigger] m.meshlets[i]).vertex_offset == le_u32(b, p4 + 56 * i) as u32
                    &&& m.meshlets[i].attribute_offset == le_u32(b, p4 + 56 * i + 4) as u32
                    &&& m.meshlets[i].vertex_count == le_u32(b, p4 + 56 * i + 8) as u32
                    &&& m.meshlets[i].index_offset == le_u32(b, p4 + 56 * i + 12) as u32
                    &&& m.meshlets[i].index_count == le_u32(b, p4 + 56 * i + 16) as u32
                    &&& m.meshlets[i].cull_data.bounds.center.x == le_u32(b, p4 + 56 * i + 20) as u32
                    &&& m.meshlets[i].cull_data.bounds.center.y == le_u32(b, p4 + 56 * i + 24) as u32
                    &&& m.meshlets[i].cull_data.bounds.center.z == le_u32(b, p4 + 56 * i + 28) as u32
                    &&& m.meshlets[i].cull_data.bounds.radius == le_u32(b, p4 + 56 * i + 32) as u32
                    &&& m.meshlets[i].cull_data.parent_error.center.x == le_u32(b, p4 + 56 * i + 36) as u32
                    &&& m.meshlets[i].cull_data.parent_error.center.y == le_u32(b, p4 + 56 * i + 40) as u32
                    &&& m.meshlets[i].cull_data.parent_error.center.z == le_u32(b, p4 + 56 * i + 44) as u32
                    &&& m.meshlets[i].cull_data.parent_error.radius == le_u32(b, p4 + 56 * i + 48) as u32
                    &&& m.meshlets[i].cull_data.error == le_u32(b, p4 + 56 * i + 52) as u32
                }
        }),
{
    assert(0 <= le_u64(b, 0) && 0 <= le_u64(b, 8) && 0 <= le_u64(b, 16) && 0 <= le_u64(b, 24) && 0
        <= le_u64(b, 32)) by {
        reveal(le_u32);
    }
}

// ---------------------------------------------------------------------------
// Executable encoding and decoding

fn push_vec3(out: &mut Vec<u8>, v: Vec3Bits)
    ensures
        final(out)@ == old(out)@ + vec3_bytes(v),
{
    push_u32_le(out, v.x);
    push_u32_le(out, v.y);
    push_u32_le(out, v.z);
    assert(final(out)@ =~= old(out)@ + vec3_bytes(v));
}

fn push_sphere(out: &mut Vec<u8>, s: BoundingSphere)
    ensures
        final(out)@ == old(out)@ + sphere_bytes(s),
{
    push_vec3(out, s.center);
    push_u32_le(out, s.radius);
    assert(final(out)@ =~= old(out)@ + sphere_bytes(s));
}

pub(crate) fn push_meshlet(out: &mut Vec<u8>, m: Meshlet)
    ensures
        final(out)@ == old(out)@ + meshlet_bytes(m),
{
    push_u32_le(out, m.vertex_offset);
    push_u32_le(out, m.attribute_offset);
    push_u32_le(out, m.vertex_count);
    push_u32_le(out, m.index_offset);
    push_u32_le(out, m.index_count);
    push_sphere(out, m.cull_data.bounds);
    push_sphere(out, m.cull_data.parent_error);
    push_u32_le(out, m.cull_data.error);
    assert(final(out)@ =~= old(out)@ + meshlet_bytes(m));
}

pub(crate) fn push_vertices(out: &mut Vec<u8>, s: &Vec<Vertex>)
    ensures
        final(out)@ == old(out)@ + enc_vertices(s@),
{
    let ghost start = out@;
    let mut i: usize = 0;
    while i < s.len()
        invariant
            0 <= i <= s@.len(),
            out@ == start + enc_vertices(s@.take(i as int)),
        decreases s@.len() - i,
    {
        proof {
            lemma_enc_seq_step(s@, |v: Vertex| vertex_bytes(v), i as int);
        }
        push_vec3(out, s[i].position);
        i = i + 1;
        assert(out@ =~= start + enc_vertices(s@.take(i as int)));
    }
    assert(s@.take(i as int) =~= s@);
}

fn push_attributes(out: &mut Vec<u8>, s: &Vec<VertexAttributes>)
    ensures
        final(out)@ == old(out)@ + enc_attributes(s@),
{
    let ghost start = out@;
    let mut i: usize = 0;
    while i < s.len()
        invariant
            0 <= i <= s@.len(),
            out@ == start + enc_attributes(s@.take(i as int)),
        decreases s@.len() - i,
    {
        proof {
            lemma_enc_seq_step(s@, |a: VertexAttributes| attributes_bytes(a), i as int);
        }
        let a = s[i];
        push_u32_le(out, a.normal);
        push_u32_le(out, a.uv);
        push_u32_le(out, a.tangent);
        i = i + 1;
        assert(out@ =~= start + enc_attributes(s@.take(i as int)));
    }
    assert(s@.take(i as int) =~= s@);
}

pub(crate) fn push_u32s(out: &mut Vec<u8>, s: &Vec<u32>)
    ensures
        final(out)@ == old(out)@ + enc_u32s(s@),
{
    let ghost start = out@;
    let mut i: usize = 0;
    while i < s.len()
        invariant
            0 <= i <= s@.len(),
            out@ == start + enc_u32s(s@.take(i as int)),
        decreases s@.len() - i,
    {
        proof {
            lemma_enc_seq_step(s@, |v: u32| u32_le_bytes(v), i as int);
        }
        push_u32_le(out, s[i]);
        i = i + 1;
        assert(out@ =~= start + enc_u32s(s@.take(i as int)));
    }
    assert(s@.take(i as int) =~= s@);
}

pub(crate) fn push_u8s(out: &mut Vec<u8>, s: &Vec<u8>)
    ensures
        final(out)@ == old(out)@ + enc_u8s(s@),
{
    let ghost start = out@;
    let mut i: usize = 0;
    while i < s.len()
        invariant
            0 <= i <= s@.len(),
            out@ == start + enc_u8s(s@.take(i as int)),
        decreases s@.len() - i,
    {
        proof {
            lemma_enc_seq_step(s@, |v: u8| byte_bytes(v), i as int);
        }
        out.push(s[i]);
        i = i + 1;
        assert(out@ =~= start + enc_u8s(s@.take(i as int)));
    }
    assert(s@.take(i as int) =~= s@);
}

pub(crate) fn push_meshlets(out: &mut Vec<u8>, s: &Vec<Meshlet>)
    ensures
        final(out)@ == old(out)@ + enc_meshlets(s@),
{
    let ghost start = out@;
    let mut i: usize = 0;
    while i < s.len()
        invariant
            0 <= i <= s@.len(),
            out@ == start + enc_meshlets(s@.take(i as int)),
        decreases s@.len() - i,
    {
        proof {
            lemma_enc_seq_step(s@, |m: Meshlet| meshlet_bytes(m), i as int);
        }
        push_meshlet(out, s[i]);
        i = i + 1;
        assert(out@ =~= start + enc_meshlets(s@.take(i as int)));
    }
    assert(s@.take(i as int) =~= s@);
}

fn read_vec3(b: &[u8], p: usize) -> (v: Vec3Bits)
    requires
        p + 12 <= b@.len(),
    ensures
        v == vec3_at(b@, p as int),
{
    let _len = b.len();
    Vec3Bits { x: read_u32_le(b, p), y: read_u32_le(b, p + 4), z: read_u32_le(b, p + 8) }
}

fn read_sphere(b: &[u8], p: usize) -> (s: BoundingSphere)
    requires
        p + 16 <= b@.len(),
    ensures
        s == sphere_at(b@, p as int),
{
    let _len = b.len();
    BoundingSphere { center: read_vec3(b, p), radius: read_u32_le(b, p + 12) }
}

fn read_meshlet(b: &[u8], p: usize) -> (m: Meshlet)
    requires
        p + 56 <= b@.len(),
    ensures
        m == meshlet_at(b@, p as int),
{
    let _len = b.len();
    Meshlet {
        vertex_offset: read_u32_le(b, p),
        attribute_offset: read_u32_le(b, p + 4),
        vertex_count: read_u32_le(b, p + 8),
        index_offset: read_u32_le(b, p + 12),
        index_count: read_u32_le(b, p + 16),
        cull_data: CullData {
            bounds: read_sphere(b, p + 20),
            parent_error: read_sphere(b, p + 36),
            error: read_u32_le(b, p + 52),
        },
    }
}

fn read_vertices(b: &[u8], p: usize, n: usize) -> (r: Vec<Vertex>)
    requires
        p + 12 * n <= b@.len(),
    ensures
        r@ == Seq::new(n as nat, |i: int| vertex_at(b@, p + 12 * i)),
{
    let mut r: Vec<Vertex> = Vec::new();
    let blen = b.len();
    let mut i: usize = 0;
    while i < n
        invariant
            0 <= i <= n,
            blen == b@.len(),
            p + 12 * n <= b@.len(),
            r@ == Seq::new(i as nat, |k: int| vertex_at(b@, p + 12 * k)),
        decreases n - i,
    {
        let v = Vertex { position: read_vec3(b, p + 12 * i) };
        r.push(v);
        i = i + 1;
        assert(r@ =~= Seq::new(i as nat, |k: int| vertex_at(b@, p + 12 * k)));
    }
    r
}

fn read_attributes(b: &[u8], p: usize, n: usize) -> (r: Vec<VertexAttributes>)
    requires
        p + 12 * n <= b@.len(),
    ensures
        r@ == Seq::new(n as nat, |i: int| attributes_at(b@, p + 12 * i)),
{
    let mut r: Vec<VertexAttributes> = Vec::new();
    let blen = b.len();
    let mut i: usize = 0;
    while i < n
        invariant
            0 <= i <= n,
            blen == b@.len(),
            p + 12 * n <= b@.len(),
            r@ == Seq::new(i as nat, |k: int| attributes_at(b@, p + 12 * k)),
        decreases n - i,
    {
        let q = p + 12 * i;
        let a = VertexAttributes {
            normal: read_u32_le(b, q),
            uv: read_u32_le(b, q + 4),
            tangent: read_u32_le(b, q + 8),
        };
        r.push(a);
        i = i + 1;
        assert(r@ =~= Seq::new(i as nat, |k: int| attributes_at(b@, p + 12 * k)));
    }
    r
}

fn read_u32s(b: &[u8], p: usize, n: usize) -> (r: Vec<u32>)
    requires
        p + 4 * n <= b@.len(),
    ensures
        r@ == Seq::new(n as nat, |i: int| u32_at(b@, p + 4 * i)),
{
    let mut r: Vec<u32> = Vec::new();
    let blen = b.len();
    let mut i: usize = 0;
    while i < n
        invariant
            0 <= i <= n,
            blen == b@.len(),
            p + 4 * n <= b@.len(),
            r@ == Seq::new(i as nat, |k: int| u32_at(b@, p + 4 * k)),
        decreases n - i,
    {
        r.push(read_u32_le(b, p + 4 * i));
        i = i + 1;
        assert(r@ =~= Seq::new(i as nat, |k: int| u32_at(b@, p + 4 * k)));
    }
    r
}

fn read_u8s(b: &[u8], p: usize, n: usize) -> (r: Vec<u8>)
    requires
        p + n <= b@.len(),
    ensures
        r@ == Seq::new(n as nat, |i: int| u8_at(b@, p + 1 * i)),
{
    let mut r: Vec<u8> = Vec::new();
    let blen = b.len();
    let mut i: usize = 0;
    while i < n
        invariant
            0 <= i <= n,
            blen == b@.len(),
            p + n <= b@.len(),
            r@ == Seq::new(i as nat, |k: int| u8_at(b@, p + 1 * k)),
        decreases n - i,
    {
        r.push(b[p + i]);
        i = i + 1;
        assert(r@ =~= Seq::new(i as nat, |k: int| u8_at(b@, p + 1 * k)));
    }
    r
}

fn read_meshlets(b: &[u8], p: usize, n: usize) -> (r: Vec<Meshlet>)
    requires
        p + 56 * n <= b@.len(),
    ensures
        r@ == Seq::new(n as nat, |i: int| meshlet_at(b@, p + 56 * i)),
{
    let mut r: Vec<Meshlet> = Vec::new();
    let blen = b.len();
    let mut i: usize = 0;
    while i < n
        invariant
            0 <= i <= n,
            blen == b@.len(),
            p + 56 * n <= b@.len(),
            r@ == Seq::new(i as nat, |k: int| meshlet_at(b@, p + 56 * k)),
        decreases n - i,
    {
        r.push(read_meshlet(b, p + 56 * i));
        i = i + 1;
        assert(r@ =~= Seq::new(i as nat, |k: int| meshlet_at(b@, p + 56 * k)));
    }
    r
}


/// A mesh split into meshlets, with the arrays that the GPU reads.
pub struct MeshletMesh {
    pub name: String,
    pub vertex_positions: Vec<Vertex>,
    pub vertex_attributes: Vec<VertexAttributes>,
    pub meshlet_vertex_indices: Vec<u32>,
    pub meshlet_indices: Vec<u8>,
    pub meshlets: Vec<Meshlet>,
    pub meshlet_offset: u32,
}

impl MeshletMesh {
    /// The five arrays of the mesh.
    pub open spec fn data(&self) -> MeshData {
        MeshData {
            vertex_positions: self.vertex_positions@,
            vertex_attributes: self.vertex_attributes@,
            meshlet_vertex_indices: self.meshlet_vertex_indices@,
            meshlet_indices: self.meshlet_indices@,
            meshlets: self.meshlets@,
        }
    }

    /// Renames the mesh.
    pub fn set_name(&mut self, name: String)
        ensures
            final(self).name@ == name@,
            final(self).data() == old(self).data(),
            final(self).meshlet_offset == old(self).meshlet_offset,
    {
        self.name = name;
    }

    /// The `.mere` encoding of the mesh: its header of counts, then its arrays.
    pub fn into_mere_file(&self) -> (bytes: Vec<u8>)
        ensures
            bytes@ == mesh_file_bytes(self.data()),
    {
        let mut bytes: Vec<u8> = Vec::new();
        push_u64_le(&mut bytes, self.vertex_positions.len() as u64);
        push_u64_le(&mut bytes, self.vertex_attributes.len() as u64);
        push_u64_le(&mut bytes, self.meshlet_vertex_indices.len() as u64);
        push_u64_le(&mut bytes, self.meshlet_indices.len() as u64);
        push_u64_le(&mut bytes, self.meshlets.len() as u64);
        let ghost header = bytes@;
        assert(header =~= mesh_header_bytes(self.data()));
        push_vertices(&mut bytes, &self.vertex_positions);
        push_attributes(&mut bytes, &self.vertex_attributes);
        push_u32s(&mut bytes, &self.meshlet_vertex_indices);
        push_u8s(&mut bytes, &self.meshlet_indices);
        push_meshlets(&mut bytes, &self.meshlets);
        assert(bytes@ =~= mesh_file_bytes(self.data()));
        bytes
    }

    /// Reads a mesh from the start of `bytes`, giving the mesh (named `""`,
    /// at meshlet offset `0`) and the number of bytes it took.
    pub fn from_mere_file(bytes: &[u8]) -> (r: Result<(MeshletMesh, usize), MereFileError>)
        ensures
            match r {
                Ok((m, n)) => {
                    &&& decode_mesh(bytes@) == Ok::<(MeshData, int), MereFileError>((m.data(), n as int))
                    &&& m.name@ == Seq::<char>::empty()
                    &&& m.meshlet_offset == 0
                },
                Err(e) => decode_mesh(bytes@) == Err::<(MeshData, int), MereFileError>(e),
            },
    {
        let r = decode_mesh_at(bytes, 0);
        assert(bytes@.subrange(0, bytes@.len() as int) =~= bytes@);
        r
    }
}

/// The encoded size for the given counts, or `None` where it exceeds `u64::MAX`.
fn checked_encoded_size(c0: u64, c1: u64, c2: u64, c3: u64, c4: u64) -> (r: Option<u64>)
    ensures
        match r {
            Some(t) => t as int == encoded_size(c0 as int, c1 as int, c2 as int, c3 as int, c4 as int),
            None => encoded_size(c0 as int, c1 as int, c2 as int, c3 as int, c4 as int) > u64::MAX,
        },
{
    let a0 = c0.checked_mul(12)?;
    let a1 = c1.checked_mul(12)?;
    let a2 = c2.checked_mul(4)?;
    let a4 = c4.checked_mul(56)?;
    let t0 = (40u64).checked_add(a0)?;
    let t1 = t0.checked_add(a1)?;
    let t2 = t1.checked_add(a2)?;
    let t3 = t2.checked_add(c3)?;
    t3.checked_add(a4)
}

proof fn lemma_vec3_shift(b: Seq<u8>, off: int, e: int, p: int)
    requires
        0 <= off,
        0 <= p,
        off + p + 12 <= e <= b.len(),
    ensures
        vec3_at(b.subrange(off, e), p) == vec3_at(b, off + p),
{
    lemma_le_u32_sub(b, off, e, p);
    lemma_le_u32_sub(b, off, e, p + 4);
    lemma_le_u32_sub(b, off, e, p + 8);
}

proof fn lemma_meshlet_shift(b: Seq<u8>, off: int, e: int, p: int)
    requires
        0 <= off,
        0 <= p,
        off + p + 56 <= e <= b.len(),
    ensures
        meshlet_at(b.subrange(off, e), p) == meshlet_at(b, off + p),
{
    lemma_le_u32_sub(b, off, e, p);
    lemma_le_u32_sub(b, off, e, p + 4);
    lemma_le_u32_sub(b, off, e, p + 8);
    lemma_le_u32_sub(b, off, e, p + 12);
    lemma_le_u32_sub(b, off, e, p + 16);
    lemma_vec3_shift(b, off, e, p + 20);
    lemma_le_u32_sub(b, off, e, p + 32);
    lemma_vec3_shift(b, off, e, p + 36);
    lemma_le_u32_sub(b, off, e, p + 48);
    lemma_le_u32_sub(b, off, e, p + 52);
}

/// Reading the sections of a mesh at an offset inside a longer byte string
/// gives what reading them from the bytes from that offset on gives.
proof fn lemma_mesh_body_shift(b: Seq<u8>, off: int, e: int, c0: int, c1: int, c2: int, c3: int, c4: int)
    requires
        0 <= off <= e <= b.len(),
        0 <= c0,
        0 <= c1,
        0 <= c2,
        0 <= c3,
        0 <= c4,
        off + encoded_size(c0, c1, c2, c3, c4) <= e,
    ensures
        mesh_body(b.subrange(off, e), 40, c0, c1, c2, c3, c4) == mesh_body(
            b,
            off + 40,
            c0,
            c1,
            c2,
            c3,
            c4,
        ),
{
    let sub = b.subrange(off, e);
    let x = mesh_body(sub, 40, c0, c1, c2, c3, c4);
    let y = mesh_body(b, off + 40, c0, c1, c2, c3, c4);
    let q1 = 40 + 12 * c0;
    let q2 = q1 + 12 * c1;
    let q3 = q2 + 4 * c2;
    let q4 = q3 + c3;
    assert forall|i: int| 0 <= i < c0 implies #[trigger] x.vertex_positions[i] == y.vertex_positions[i] by {
        lemma_vec3_shift(b, off, e, 40 + 12 * i);
    }
    assert forall|i: int| 0 <= i < c1 implies #[trigger] x.vertex_attributes[i] == y.vertex_attributes[i] by {
        lemma_le_u32_sub(b, off, e, q1 + 12 * i);
        lemma_le_u32_sub(b, off, e, q1 + 12 * i + 4);
        lemma_le_u32_sub(b, off, e, q1 + 12 * i + 8);
    }
    assert forall|i: int| 0 <= i < c2 implies #[trigger] x.meshlet_vertex_indices[i] == y.meshlet_vertex_indices[i] by {
        lemma_le_u32_sub(b, off, e, q2 + 4 * i);
    }
    assert forall|i: int| 0 <= i < c4 implies #[trigger] x.meshlets[i] == y.meshlets[i] by {
        assert(q4 + 56 * i + 56 <= q4 + 56 * c4) by (nonlinear_arith)
            requires
                i < c4,
        ;
        lemma_meshlet_shift(b, off, e, q4 + 56 * i);
    }
    assert(x.vertex_positions =~= y.vertex_positions);
    assert(x.vertex_attributes =~= y.vertex_attributes);
    assert(x.meshlet_vertex_indices =~= y.meshlet_vertex_indices);
    assert(x.meshlet_indices =~= y.meshlet_indices);
    assert(x.meshlets =~= y.meshlets);
}

/// Law: what follows a mesh does not change what is read. Where reading `b`
/// gives a mesh that took `k` bytes, reading only `b[..k]` gives the same
/// mesh and the same `k`.
pub proof fn lemma_decode_mesh_prefix(b: Seq<u8>)
    requires
        decode_mesh(b) is Ok,
    ensures
        decode_mesh(b.subrange(0, decode_mesh(b)->Ok_0.1)) == decode_mesh(b),
{
    let k = decode_mesh(b)->Ok_0.1;
    let c = b.subrange(0, k);
    let c0 = le_u64(b, 0);
    let c1 = le_u64(b, 8);
    let c2 = le_u64(b, 16);
    let c3 = le_u64(b, 24);
    let c4 = le_u64(b, 32);
    assert(0 <= c0 && 0 <= c1 && 0 <= c2 && 0 <= c3 && 0 <= c4) by {
        reveal(le_u32);
    }
    assert(k == encoded_size(c0, c1, c2, c3, c4));
    assert(40 <= k <= b.len());
    assert forall|p: int| 0 <= p && p + 4 <= 40 implies #[trigger] le_u32(c, p) == le_u32(b, p) by {
        lemma_le_u32_sub(b, 0, k, p);
    }
    assert(le_u32(c, 0) == le_u32(b, 0) && le_u32(c, 4) == le_u32(b, 4));
    assert(le_u32(c, 8) == le_u32(b, 8) && le_u32(c, 12) == le_u32(b, 12));
    assert(le_u32(c, 16) == le_u32(b, 16) && le_u32(c, 20) == le_u32(b, 20));
    assert(le_u32(c, 24) == le_u32(b, 24) && le_u32(c, 28) == le_u32(b, 28));
    assert(le_u32(c, 32) == le_u32(b, 32) && le_u32(c, 36) == le_u32(b, 36));
    lemma_mesh_body_shift(b, 0, k, c0, c1, c2, c3, c4);
}

/// Reads a mesh from `b` at `off`, as `from_mere_file` does from `b[off..]`.
fn decode_mesh_at(b: &[u8], off: usize) -> (r: Result<(MeshletMesh, usize), MereFileError>)
    requires
        off <= b@.len(),
    ensures
        match r {
            Ok((m, n)) => {
                &&& decode_mesh(b@.subrange(off as int, b@.len() as int)) == Ok::<
                    (MeshData, int),
                    MereFileError,
                >((m.data(), n as int))
                &&& m.name@ == Seq::<char>::empty()
                &&& m.meshlet_offset == 0
            },
            Err(e) => decode_mesh(b@.subrange(off as int, b@.len() as int)) == Err::<
                (MeshData, int),
                MereFileError,
            >(e),
        },
{
    let ghost sub = b@.subrange(off as int, b@.len() as int);
    let len = b.len();
    if len - off < 40 {
        return Err(MereFileError::TooSmall);
    }
    let c0 = read_u64_le(b, off);
    let c1 = read_u64_le(b, off + 8);
    let c2 = read_u64_le(b, off + 16);
    let c3 = read_u64_le(b, off + 24);
    let c4 = read_u64_le(b, off + 32);
    proof {
        lemma_le_u32_shift(b@, off as int, 0);
        lemma_le_u32_shift(b@, off as int, 4);
        lemma_le_u32_shift(b@, off as int, 8);
        lemma_le_u32_shift(b@, off as int, 12);
        lemma_le_u32_shift(b@, off as int, 16);
        lemma_le_u32_shift(b@, off as int, 20);
        lemma_le_u32_shift(b@, off as int, 24);
        lemma_le_u32_shift(b@, off as int, 28);
        lemma_le_u32_shift(b@, off as int, 32);
        lemma_le_u32_shift(b@, off as int, 36);
        assert(le_u64(sub, 0) == c0 as int);
        assert(le_u64(sub, 8) == c1 as int);
        assert(le_u64(sub, 16) == c2 as int);
        assert(le_u64(sub, 24) == c3 as int);
        assert(le_u64(sub, 32) == c4 as int);
    }
    let avail = (len - off) as u64;
    let total = match checked_encoded_size(c0, c1, c2, c3, c4) {
        None => {
            return Err(MereFileError::Truncated);
        },
        Some(t) => t,
    };
    if total > avail {
        return Err(MereFileError::Truncated);
    }
    let n0 = c0 as usize;
    let n1 = c1 as usize;
    let n2 = c2 as usize;
    let n3 = c3 as usize;
    let n4 = c4 as usize;
    let p0 = off + 40;
    let p1 = p0 + 12 * n0;
    let p2 = p1 + 12 * n1;
    let p3 = p2 + 4 * n2;
    let p4 = p3 + n3;
    let vertex_positions = read_vertices(b, p0, n0);
    let vertex_attributes = read_attributes(b, p1, n1);
    let meshlet_vertex_indices = read_u32s(b, p2, n2);
    let meshlet_indices = read_u8s(b, p3, n3);
    let meshlets = read_meshlets(b, p4, n4);
    let m = MeshletMesh {
        name: String::new(),
        vertex_positions,
        vertex_attributes,
        meshlet_vertex_indices,
        meshlet_indices,
        meshlets,
        meshlet_offset: 0,
    };
    proof {
        lemma_mesh_body_shift(b@, off as int, b@.len() as int, c0 as int, c1 as int, c2 as int, c3 as int, c4 as int);
        assert(m.data() =~= mesh_body(b@, off + 40, c0 as int, c1 as int, c2 as int, c3 as int, c4 as int));
    }
    Ok((m, total as usize))
}


// ---------------------------------------------------------------------------
// Files of several meshes

/// The concatenated encodings of the meshes `ms`.
pub open spec fn meshes_bytes(ms: Seq<MeshData>) -> Seq<u8> {
    enc_seq(ms, |m: MeshData| mesh_file_bytes(m))
}

/// The `.mere` file of the meshes `ms`: their count as a little-endian `u32`
/// (the low 32 bits of it), then the meshes.
pub open spec fn mere_file_bytes(ms: Seq<MeshData>) -> Seq<u8> {
    u32_le_bytes(ms.len() as u32) + meshes_bytes(ms)
}

/// What reading `count` meshes from `b` at `off`, one after another, gives.
pub open spec fn decode_meshes(b: Seq<u8>, off: int, count: nat) -> Result<Seq<MeshData>, MereFileError>
    decreases count,
{
    if count == 0 {
        Ok(Seq::empty())
    } else {
        match decode_mesh(b.subrange(off, b.len() as int)) {
            Err(e) => Err(e),
            Ok((m, n)) => if 0 <= n {
                match decode_meshes(b, off + n, (count - 1) as nat) {
                    Err(e) => Err(e),
                    Ok(rest) => Ok(seq![m] + rest),
                }
            } else {
                Err(MereFileError::Truncated)
            },
        }
    }
}

/// What reading a `.mere` file gives: as many meshes as its leading count says.
pub open spec fn decode_mere_file(b: Seq<u8>) -> Result<Seq<MeshData>, MereFileError> {
    decode_meshes(b, 4, le_u32(b, 0) as nat)
}

proof fn lemma_enc_seq_front<T>(s: Seq<T>, f: spec_fn(T) -> Seq<u8>)
    requires
        s.len() > 0,
    ensures
        enc_seq(s, f) == f(s[0]) + enc_seq(s.drop_first(), f),
    decreases s.len(),
{
    if s.len() == 1 {
        assert(s.drop_first() =~= Seq::<T>::empty());
        assert(s.drop_last() =~= Seq::<T>::empty());
        assert(enc_seq(s, f) =~= f(s[0]) + enc_seq(s.drop_first(), f));
    } else {
        lemma_enc_seq_front(s.drop_last(), f);
        assert(s.drop_last().drop_first() =~= s.drop_first().drop_last());
        assert(s.drop_first().last() == s.last());
        assert(enc_seq(s, f) =~= f(s[0]) + enc_seq(s.drop_first(), f));
    }
}

/// The meshes encoded one after another at `pre.len()` read back as they were.
proof fn lemma_meshes_roundtrip(pre: Seq<u8>, ms: Seq<MeshData>, rest: Seq<u8>)
    requires
        forall|i: int| 0 <= i < ms.len() ==> mesh_counts_fit(#[trigger] ms[i]),
    ensures
        decode_meshes(pre + meshes_bytes(ms) + rest, pre.len() as int, ms.len()) == Ok::<
            Seq<MeshData>,
            MereFileError,
        >(ms),
    decreases ms.len(),
{
    let b = pre + meshes_bytes(ms) + rest;
    if ms.len() > 0 {
        let f = |m: MeshData| mesh_file_bytes(m);
        lemma_enc_seq_front(ms, f);
        let m0 = ms[0];
        let tail = ms.drop_first();
        let e0 = mesh_file_bytes(m0);
        assert(b.subrange(pre.len() as int, b.len() as int) =~= e0 + (meshes_bytes(tail) + rest));
        lemma_mesh_roundtrip(m0, meshes_bytes(tail) + rest);
        assert forall|i: int| 0 <= i < tail.len() implies mesh_counts_fit(#[trigger] tail[i]) by {
            assert(tail[i] == ms[i + 1]);
        }
        lemma_meshes_roundtrip(pre + e0, tail, rest);
        assert(b =~= (pre + e0) + meshes_bytes(tail) + rest);
        assert(seq![m0] + tail =~= ms);
    } else {
        assert(decode_meshes(b, pre.len() as int, 0) == Ok::<Seq<MeshData>, MereFileError>(Seq::empty()));
        assert(ms =~= Seq::<MeshData>::empty());
    }
}

/// Law: reading a `.mere` file gives back the meshes that were written to it,
/// when there are fewer than 2^32 of them.
pub proof fn lemma_mere_file_roundtrip(ms: Seq<MeshData>)
    requires
        ms.len() <= u32::MAX,
        forall|i: int| 0 <= i < ms.len() ==> mesh_counts_fit(#[trigger] ms[i]),
    ensures
        decode_mere_file(mere_file_bytes(ms)) == Ok::<Seq<MeshData>, MereFileError>(ms),
{
    let b = mere_file_bytes(ms);
    let c = u32_le_bytes(ms.len() as u32);
    lemma_u32_le_roundtrip(ms.len() as u32, Seq::empty(), meshes_bytes(ms));
    assert(b =~= Seq::<u8>::empty() + c + meshes_bytes(ms));
    lemma_meshes_roundtrip(c, ms, Seq::empty());
    assert(b =~= c + meshes_bytes(ms) + Seq::<u8>::empty());
}

/// The views of a list of meshes.
pub open spec fn mesh_datas(ms: Seq<MeshletMesh>) -> Seq<MeshData> {
    ms.map_values(|m: MeshletMesh| m.data())
}

/// The `.mere` file holding `meshes`.
pub fn encode_mere_file(meshes: &Vec<MeshletMesh>) -> (bytes: Vec<u8>)
    ensures
        bytes@ == mere_file_bytes(mesh_datas(meshes@)),
{
    let mut bytes: Vec<u8> = Vec::new();
    push_u32_le(&mut bytes, meshes.len() as u32);
    let ghost ds = mesh_datas(meshes@);
    let ghost head = bytes@;
    let mut i: usize = 0;
    while i < meshes.len()
        invariant
            0 <= i <= meshes@.len(),
            ds == mesh_datas(meshes@),
            bytes@ == head + meshes_bytes(ds.take(i as int)),
        decreases meshes@.len() - i,
    {
        proof {
            lemma_enc_seq_step(ds, |m: MeshData| mesh_file_bytes(m), i as int);
        }
        let mut one = meshes[i].into_mere_file();
        bytes.append(&mut one);
        i = i + 1;
        assert(bytes@ =~= head + meshes_bytes(ds.take(i as int)));
    }
    assert(ds.take(i as int) =~= ds);
    assert(head == u32_le_bytes(ds.len() as u32));
    bytes
}

/// Wraps a decoded list in the outcome of decoding what follows it.
pub open spec fn prepend_ok(xs: Seq<MeshData>, r: Result<Seq<MeshData>, MereFileError>) -> Result<
    Seq<MeshData>,
    MereFileError,
> {
    match r {
        Ok(s) => Ok(xs + s),
        Err(e) => Err(e),
    }
}

/// Reads the meshes of a `.mere` file: as many as its leading count says, one
/// after another, stopping at the first that cannot be read. Each mesh read
/// is named `""` and stands at meshlet offset `0`.
pub fn decode_mere_file_bytes(bytes: &[u8]) -> (r: Result<Vec<MeshletMesh>, MereFileError>)
    requires
        bytes@.len() >= 4,
    ensures
        match r {
            Ok(ms) => decode_mere_file(bytes@) == Ok::<Seq<MeshData>, MereFileError>(
                mesh_datas(ms@),
            ),
            Err(e) => decode_mere_file(bytes@) == Err::<Seq<MeshData>, MereFileError>(e),
        },
        r matches Ok(ms) ==> forall|i: int|
            0 <= i < ms@.len() ==> #[trigger] ms@[i].name@ == Seq::<char>::empty()
                && ms@[i].meshlet_offset == 0,
{
    let count = read_u32_le(bytes, 0);
    let len = bytes.len();
    let mut offset: usize = 4;
    let mut meshes: Vec<MeshletMesh> = Vec::new();
    let mut k: u32 = 0;
    while k < count
        invariant
            0 <= k <= count,
            count as int == le_u32(bytes@, 0),
            len == bytes@.len(),
            4 <= offset <= len,
            decode_mere_file(bytes@) == prepend_ok(
                mesh_datas(meshes@),
                decode_meshes(bytes@, offset as int, (count - k) as nat),
            ),
            forall|i: int|
                0 <= i < meshes@.len() ==> #[trigger] meshes@[i].name@ == Seq::<char>::empty()
                    && meshes@[i].meshlet_offset == 0,
        decreases count - k,
    {
        let ghost before = mesh_datas(meshes@);
        match decode_mesh_at(bytes, offset) {
            Err(e) => {
                assert(decode_meshes(bytes@, offset as int, (count - k) as nat) == Err::<
                    Seq<MeshData>,
                    MereFileError,
                >(e));
                return Err(e);
            },
            Ok((m, n)) => {
                proof {
                    let sub = bytes@.subrange(offset as int, len as int);
                    assert(n <= sub.len());
                }
                meshes.push(m);
                offset = offset + n;
                k = k + 1;
                proof {
                    assert(mesh_datas(meshes@) =~= before + seq![m.data()]);
                    let r = decode_meshes(bytes@, offset as int, (count - k) as nat);
                    match r {
                        Ok(s) => {
                            assert(before + (seq![m.data()] + s) =~= mesh_datas(meshes@) + s);
                        },
                        Err(_) => {},
                    }
                }
            },
        }
    }
    assert(mesh_datas(meshes@) + Seq::<MeshData>::empty() =~= mesh_datas(meshes@));
    Ok(meshes)
}

} // verus!
