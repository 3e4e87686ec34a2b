//! Resource handles: 64-bit identifiers derived from the BLAKE3 digest of a name.

use std::marker::PhantomData;
use std::rc::Rc;
use vstd::prelude::*;
use vstd::string::StringSliceAdditionalSpecFns;
use crate::bytes::{le_u64, u32_le_bytes, u64_le_bytes, push_u32_le, push_u64_le, read_u64_le};

verus! {

/// Name for the 32-byte BLAKE3 digest of a byte string.
pub uninterp spec fn blake3_digest(data: Seq<u8>) -> Seq<u8>;

/// Calls `blake3::hash`, which computes the BLAKE3 digest of `data`; the
/// digest is handed back as its 32 bytes.
#[verifier::external_body]
fn blake3_hash(data: &[u8]) -> (digest: [u8; 32])
    ensures
        digest@ == blake3_digest(data@),
{
    *blake3::hash(data).as_bytes()
}

/// The identifier that a handle derived from `bytes` carries: the first eight
/// digest bytes read as a little-endian `u64`.
pub open spec fn handle_id_of(bytes: Seq<u8>) -> int {
    le_u64(blake3_digest(bytes), 0)
}

/// The bytes of `v` in little-endian order, as many as a `usize` has.
pub open spec fn usize_le_bytes(v: usize) -> Seq<u8> {
    if usize::BITS == 64 {
        u64_le_bytes(v as u64)
    } else {
        u32_le_bytes(v as u32)
    }
}

/// The bytes of `v` in little-endian order, as many as a `usize` has.
fn usize_to_le_bytes(v: usize) -> (b: Vec<u8>)
    ensures
        b@ == usize_le_bytes(v),
{
    let mut b: Vec<u8> = Vec::new();
    if usize::BITS == 64 {
        push_u64_le(&mut b, v as u64);
    } else {
        push_u32_le(&mut b, v as u32);
    }
    assert(b@ =~= usize_le_bytes(v));
    b
}

/// The handle id for `bytes`: the first eight digest bytes, little-endian.
fn id_of_bytes(bytes: &[u8]) -> (id: u64)
    ensures
        id as int == handle_id_of(bytes@),
{
    let digest = blake3_hash(bytes);
    read_u64_le(&digest, 0)
}

/// Identifier type of handles.
pub type ResourceHandleID = u64;

/// A typed handle to a resource of kind `R`, identified by a 64-bit id.
pub struct ResourceHandle<R> {
    id: ResourceHandleID,
    _type: PhantomData<R>,
}

impl<R> ResourceHandle<R> {
    /// The identifier carried by the handle.
    pub closed spec fn spec_id(self) -> u64 {
        self.id
    }

    /// A handle with the given identifier.
    pub fn new(id: ResourceHandleID) -> (h: Self)
        ensures
            h.spec_id() == id,
    {
        ResourceHandle { id, _type: PhantomData }
    }

    /// The identifier carried by the handle.
    pub fn id(&self) -> (id: ResourceHandleID)
        ensures
            id == self.spec_id(),
    {
        self.id
    }

    /// A handle whose id is the first eight bytes of the BLAKE3 digest of
    /// `value`, read as a little-endian integer.
    pub fn from_bytes(value: &[u8]) -> (h: Self)
        ensures
            h.spec_id() as int == handle_id_of(value@),
    {
        Self::new(id_of_bytes(value))
    }

    /// A handle derived from the UTF-8 bytes of `value`.
    pub fn from_str(value: &str) -> (h: Self)
        ensures
            h.spec_id() as int == handle_id_of(value.spec_bytes()),
    {
        Self::from_bytes(value.as_bytes())
    }

    /// A handle derived from the eight little-endian bytes of `value`.
    pub fn from_usize(value: usize) -> (h: Self)
        ensures
            h.spec_id() as int == handle_id_of(usize_le_bytes(value)),
    {
        let bytes = usize_to_le_bytes(value);
        Self::from_bytes(bytes.as_slice())
    }

    /// Two handles are equal exactly when their ids are.
    pub fn same(&self, other: &Self) -> (b: bool)
        ensures
            b == (self.spec_id() == other.spec_id()),
    {
        self.id == other.id
    }
}

impl<R> Clone for ResourceHandle<R> {
    fn clone(&self) -> (h: Self)
        ensures
            h.spec_id() == self.spec_id(),
    {
        ResourceHandle { id: self.id, _type: PhantomData }
    }
}

impl<R> Copy for ResourceHandle<R> {}

/// A handle with its resource kind erased.
pub struct UntypedHandle(ResourceHandle<()>);

impl UntypedHandle {
    /// The identifier carried by the handle.
    pub closed spec fn spec_id(self) -> u64 {
        self.0.spec_id()
    }

    /// The untyped handle with identifier `id`.
    pub closed spec fn with_id(id: u64) -> UntypedHandle {
        UntypedHandle(ResourceHandle { id, _type: PhantomData })
    }

    /// The untyped handle with the same id as `value`.
    pub fn from_handle<R>(value: ResourceHandle<R>) -> (h: Self)
        ensures
            h == UntypedHandle::with_id(value.spec_id()),
            h.spec_id() == value.spec_id(),
    {
        UntypedHandle(ResourceHandle::new(value.id()))
    }

    /// The identifier carried by the handle.
    pub fn id(&self) -> (id: ResourceHandleID)
        ensures
            id == self.spec_id(),
    {
        self.0.id()
    }
}

impl Clone for UntypedHandle {
    fn clone(&self) -> (h: Self)
        ensures
            h.spec_id() == self.spec_id(),
    {
        UntypedHandle(self.0.clone())
    }
}

impl Copy for UntypedHandle {}

/// Identifier type of mesh handles.
pub type MeshHandleID = u64;

/// A reference-counted handle to a loaded mesh.
pub struct MeshHandle {
    pub id: MeshHandleID,
    pub ref_counter: Rc<()>,
}

/// Calls `Rc::strong_count`, which reports how many `Rc` pointers share the
/// allocation of `rc`. The count depends on the clones alive elsewhere, so the
/// contract states only that the pointer passed in is one of them.
#[verifier::external_body]
fn rc_strong_count(rc: &Rc<()>) -> (n: usize)
    ensures
        n >= 1,
{
    Rc::strong_count(rc)
}

impl MeshHandle {
    /// A fresh handle with its own reference counter.
    pub fn new(id: MeshHandleID) -> (h: Self)
        ensures
            h.id == id,
    {
        MeshHandle { id, ref_counter: Rc::new(()) }
    }

    /// The handle id of a mesh loaded from `path`.
    pub fn id_from_path(path: &str) -> (id: MeshHandleID)
        ensures
            id as int == handle_id_of(path.spec_bytes()),
    {
        id_of_bytes(path.as_bytes())
    }

    /// How many handles share this handle's reference counter.
    pub fn use_count(&self) -> (n: usize)
        ensures
            n >= 1,
    {
        rc_strong_count(&self.ref_counter)
    }
}

} // verus!
