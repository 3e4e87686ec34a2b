# mere

The verified core of MeRe, a meshlet rendering engine: the bookkeeping that
decides what the GPU is given, proved with Verus.

## Layout

- `src/` — the library. Its own functions are verified; the calls into
  outside code go through small trusted wrappers whose contracts are
  believed, not proved: BLAKE3 hashing, the `range-alloc` allocator, METIS
  partitioning, the `slotmap` dense slot map, `Rc::strong_count` and
  `str::to_lowercase`. Each wrapper's doc comment says what it claims.
  - `handle` — resource handles: 64-bit ids from the BLAKE3 digest of a name.
  - `bytes`, `mesh` — the `.mere` mesh format (header of counts, then
    little-endian records), with its encode/decode round trip proved.
  - `meshlet` — the triangle adjacency graph, its METIS partition into
    clusters, merging of meshlet lists and per-meshlet attributes.
  - `gpu_buffer` — best-fit sub-allocation of growable GPU buffers over
    `range-alloc`, and the queue of writes into them.
  - `meshlet_storage` — where each uploaded mesh lives in the four meshlet
    buffers; uploaded meshes never share a byte.
  - `asset_server` — the asset registry (loading / ready), dependency
    listeners and the event queue, and the event loop that uploads meshes.
  - `instance_storage` — scene instances in a dense slot map and the
    per-instance arrays rebuilt from them.
  - `profiler`, `history` — frame profiler bookkeeping and bounded sample
    histories.
  - `texture`, `depth_pyramid`, `packing`, `render_plan` — texture options and
    mip chains, depth pyramid sizing, vertex attribute packing, and the
    renderer's per-frame decisions.
- `tests/` — tests of the library on concrete values.
- `app/` — the program around it: file I/O, the float stages of mesh
  building (quantization, tangents, bounds, meshopt), the camera's float
  motion and the clock.

Floats are held in the library as their bit patterns; it moves them but never
computes on them.
