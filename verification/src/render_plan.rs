//! Frame decisions of the renderer that do not touch the GPU: what to do
//! with the surface texture on offer, how the passes are dispatched, which
//! camera movement the keys ask for, the debug views, and the sizes and
//! initial contents of the per-frame cluster buffers.

use vstd::prelude::*;
use crate::bytes::{push_u32_le, u32_le_bytes, lemma_u32_le_bytes_len};
use crate::mesh::MAX_INDICES_PER_MESHLET;

verus! {

broadcast use lemma_u32_le_bytes_len;

/// Cluster slots of the per-frame cluster buffers.
pub const CLUSTER_SLOTS: u32 = 1048576;

/// Texels a visibility-buffer clearing workgroup covers along each side.
pub const CLEAR_TILE: u32 = 16;

/// The views the debug overlay can show.
#[derive(Clone, Copy, Debug, PartialEq, Eq, Structural)]
pub enum DebugMode {
    CLUSTERS,
    SHADED,
    TRIANGLES,
    INSTANCES,
    MATERIALS,
}

impl DebugMode {
    /// The name the overlay shows for the view.
    pub fn name(&self) -> (s: &'static str)
        ensures
            s@ == match *self {
                DebugMode::SHADED => "Shaded"@,
                DebugMode::CLUSTERS => "Clusters"@,
                DebugMode::TRIANGLES => "Triangles"@,
                DebugMode::INSTANCES => "Instances"@,
                DebugMode::MATERIALS => "Materials"@,
            },
    {
        match self {
            DebugMode::SHADED => "Shaded",
            DebugMode::CLUSTERS => "Clusters",
            DebugMode::TRIANGLES => "Triangles",
            DebugMode::INSTANCES => "Instances",
            DebugMode::MATERIALS => "Materials",
        }
    }
}

impl Default for DebugMode {
    fn default() -> (m: Self)
        ensures
            m == DebugMode::CLUSTERS,
    {
        DebugMode::CLUSTERS
    }
}

/// What the surface offered when a frame was asked for.
#[derive(Clone, Copy, Debug, PartialEq, Eq, Structural)]
pub enum SurfaceStatus {
    Success,
    Suboptimal,
    Timeout,
    Occluded,
    Validation,
    Outdated,
    Lost,
}

/// What to do with the frame on offer: whether to draw into it, and whether
/// to configure the surface anew first.
#[derive(Clone, Copy, Debug, PartialEq, Eq, Structural)]
pub struct FrameAction {
    pub render: bool,
    pub reconfigure: bool,
}

/// Why no frame can be drawn any more.
#[derive(Clone, Copy, Debug, PartialEq, Eq, Structural)]
pub enum FrameError {
    DeviceLost,
}

/// The action for the surface status: draw into a good frame; draw into a
/// suboptimal one after reconfiguring; skip a frame that timed out, is
/// occluded or failed validation; reconfigure and skip an outdated one; and
/// fail once the device is lost.
pub fn frame_action(status: SurfaceStatus) -> (r: Result<FrameAction, FrameError>)
    ensures
        r == match status {
            SurfaceStatus::Success => Ok(FrameAction { render: true, reconfigure: false }),
            SurfaceStatus::Suboptimal => Ok(FrameAction { render: true, reconfigure: true }),
            SurfaceStatus::Timeout | SurfaceStatus::Occluded | SurfaceStatus::Validation => Ok(
                FrameAction { render: false, reconfigure: false },
            ),
            SurfaceStatus::Outdated => Ok(FrameAction { render: false, reconfigure: true }),
            SurfaceStatus::Lost => Err(FrameError::DeviceLost),
        },
{
    match status {
        SurfaceStatus::Success => Ok(FrameAction { render: true, reconfigure: false }),
        SurfaceStatus::Suboptimal => Ok(FrameAction { render: true, reconfigure: true }),
        SurfaceStatus::Timeout | SurfaceStatus::Occluded | SurfaceStatus::Validation => Ok(
            FrameAction { render: false, reconfigure: false },
        ),
        SurfaceStatus::Outdated => Ok(FrameAction { render: false, reconfigure: true }),
        SurfaceStatus::Lost => Err(FrameError::DeviceLost),
    }
}

/// `n / d` rounded up.
pub open spec fn ceil_div(n: int, d: int) -> int {
    (n + d - 1) / d
}

/// `n / d` rounded up.
pub fn div_ceil(n: u32, d: u32) -> (q: u32)
    requires
        d > 0,
    ensures
        q == ceil_div(n as int, d as int),
{
    let q = n / d;
    proof {
        assert(ceil_div(n as int, d as int) == (n as int) / (d as int) + (if (n as int) % (d as int) == 0 {
            0int
        } else {
            1int
        })) by (nonlinear_arith)
            requires
                d > 0,
                n >= 0,
        ;
        assert((n as int) % (d as int) != 0 ==> (n as int) / (d as int) < u32::MAX) by (nonlinear_arith)
            requires
                d > 0,
                n >= 0,
                n <= u32::MAX,
        ;
    }
    if n % d == 0 {
        q
    } else {
        q + 1
    }
}

/// The workgroups clearing the visibility buffer of a `width` by `height`
/// target.
pub fn clear_dispatch(width: u32, height: u32) -> (d: (u32, u32, u32))
    ensures
        d == (ceil_div(width as int, CLEAR_TILE as int) as u32, ceil_div(height as int, CLEAR_TILE as int) as u32, 1u32),
{
    (div_ceil(width, CLEAR_TILE), div_ceil(height, CLEAR_TILE), 1)
}

/// The vertices drawn for the material with index `id`: three, from `3 * id`.
pub fn material_draw_range(id: u32) -> (r: (u32, u32))
    requires
        3 * id + 3 <= u32::MAX,
    ensures
        r == ((3 * id) as u32, (3 * id + 3) as u32),
{
    let x = id * 3;
    (x, x + 3)
}

/// Whether there is anything to cull and draw: some instance and some
/// uploaded mesh.
pub fn should_prepare(instance_count: u32, meshlet_count: usize) -> (b: bool)
    ensures
        b == (instance_count != 0 && meshlet_count != 0),
{
    !(instance_count == 0 || meshlet_count == 0)
}

/// Bytes of a per-frame cluster buffer: two words per cluster slot.
pub fn cluster_info_size(cluster_slots: u32) -> (n: u64)
    ensures
        n == 8 * cluster_slots,
{
    2 * cluster_slots as u64 * 4
}

/// The last cluster slot.
pub fn rightmost_slot(cluster_slots: u32) -> (s: u32)
    requires
        cluster_slots >= 1,
    ensures
        s == cluster_slots - 1,
{
    cluster_slots - 1
}

/// The little-endian words of `words`.
pub open spec fn words_le(words: Seq<u32>) -> Seq<u8>
    decreases words.len(),
{
    if words.len() == 0 {
        Seq::empty()
    } else {
        words_le(words.drop_last()) + u32_le_bytes(words.last())
    }
}

fn push_words(out: &mut Vec<u8>, words: &[u32])
    ensures
        final(out)@ == old(out)@ + words_le(words@),
{
    let ghost start = out@;
    let mut i: usize = 0;
    while i < words.len()
        invariant
            i <= words@.len(),
            out@ == start + words_le(words@.take(i as int)),
        decreases words@.len() - i,
    {
        push_u32_le(out, words[i]);
        proof {
            assert(words@.take(i as int + 1).drop_last() =~= words@.take(i as int));
        }
        i = i + 1;
        assert(out@ =~= start + words_le(words@.take(i as int)));
    }
    assert(words@.take(i as int) =~= words@);
}

/// The initial bytes of the visible-cluster counter: a zero word.
pub fn initial_visible_cluster_count() -> (b: Vec<u8>)
    ensures
        b@ == words_le(seq![0u32]),
{
    let mut b: Vec<u8> = Vec::new();
    let w: Vec<u32> = vec![0u32];
    push_words(&mut b, w.as_slice());
    assert(w@ =~= seq![0u32]);
    b
}

/// The initial bytes of the indirect cluster-culling dispatch: no
/// workgroups along x, one along y and z.
pub fn initial_indirect_cluster_args() -> (b: Vec<u8>)
    ensures
        b@ == words_le(seq![0u32, 1u32, 1u32]),
{
    let mut b: Vec<u8> = Vec::new();
    let w: Vec<u32> = vec![0u32, 1, 1];
    push_words(&mut b, w.as_slice());
    assert(w@ =~= seq![0u32, 1u32, 1u32]);
    b
}

/// The initial bytes of the indirect draw of visible clusters: a meshlet's
/// largest index count per instance, no instance yet, from vertex and
/// instance zero.
pub fn initial_indirect_draw_args() -> (b: Vec<u8>)
    ensures
        b@ == words_le(seq![MAX_INDICES_PER_MESHLET, 0u32, 0u32, 0u32]),
{
    let mut b: Vec<u8> = Vec::new();
    let w: Vec<u32> = vec![MAX_INDICES_PER_MESHLET, 0, 0, 0];
    push_words(&mut b, w.as_slice());
    assert(w@ =~= seq![MAX_INDICES_PER_MESHLET, 0u32, 0u32, 0u32]);
    b
}

/// The keys the camera controller reads; `Other` stands for every other.
#[derive(Clone, Copy, Debug, PartialEq, Eq, Structural)]
pub enum KeyCode {
    KeyW,
    KeyA,
    KeyS,
    KeyD,
    KeyE,
    KeyQ,
    ArrowUp,
    ArrowLeft,
    ArrowDown,
    ArrowRight,
    PageUp,
    PageDown,
    Escape,
    Other,
}

/// Which movement keys are held.
#[derive(Clone, Copy, Debug, PartialEq, Eq, Structural)]
pub struct MovementKeys {
    pub forward: bool,
    pub backward: bool,
    pub left: bool,
    pub right: bool,
    pub up: bool,
    pub down: bool,
}

impl MovementKeys {
    /// No key held.
    pub fn new() -> (m: Self)
        ensures
            !m.forward && !m.backward && !m.left && !m.right && !m.up && !m.down,
    {
        MovementKeys {
            forward: false,
            backward: false,
            left: false,
            right: false,
            up: false,
            down: false,
        }
    }

    /// Records a key going down or up: W or Up moves forward, S or Down
    /// back, A or Left left, D or Right right, E or Page Up up, Q or Page
    /// Down down. Says whether the key is a movement key; other keys change
    /// nothing.
    pub fn handle_key(&mut self, code: KeyCode, is_pressed: bool) -> (handled: bool)
        ensures
            *final(self) == match code {
                KeyCode::KeyW | KeyCode::ArrowUp => MovementKeys { forward: is_pressed, ..*old(self) },
                KeyCode::KeyA | KeyCode::ArrowLeft => MovementKeys { left: is_pressed, ..*old(self) },
                KeyCode::KeyS | KeyCode::ArrowDown => MovementKeys { backward: is_pressed, ..*old(self) },
                KeyCode::KeyD | KeyCode::ArrowRight => MovementKeys { right: is_pressed, ..*old(self) },
                KeyCode::KeyE | KeyCode::PageUp => MovementKeys { up: is_pressed, ..*old(self) },
                KeyCode::KeyQ | KeyCode::PageDown => MovementKeys { down: is_pressed, ..*old(self) },
                _ => *old(self),
            },
            handled == !(code is Escape || code is Other),
    {
        match code {
            KeyCode::KeyW | KeyCode::ArrowUp => {
                self.forward = is_pressed;
                true
            },
            KeyCode::KeyA | KeyCode::ArrowLeft => {
                self.left = is_pressed;
                true
            },
            KeyCode::KeyS | KeyCode::ArrowDown => {
                self.backward = is_pressed;
                true
            },
            KeyCode::KeyD | KeyCode::ArrowRight => {
                self.right = is_pressed;
                true
            },
            KeyCode::KeyE | KeyCode::PageUp => {
                self.up = is_pressed;
                true
            },
            KeyCode::KeyQ | KeyCode::PageDown => {
                self.down = is_pressed;
                true
            },
            _ => false,
        }
    }

    /// The direction asked for along the camera's forward, right and the
    /// world's up axes: each one, minus one, or zero.
    pub fn axes(&self) -> (a: (i32, i32, i32))
        ensures
            a.0 == (if self.forward { 1int } else { 0 }) - (if self.backward { 1int } else { 0 }),
            a.1 == (if self.right { 1int } else { 0 }) - (if self.left { 1int } else { 0 }),
            a.2 == (if self.up { 1int } else { 0 }) - (if self.down { 1int } else { 0 }),
    {
        let f: i32 = if self.forward { 1 } else { 0 };
        let b: i32 = if self.backward { 1 } else { 0 };
        let r: i32 = if self.right { 1 } else { 0 };
        let l: i32 = if self.left { 1 } else { 0 };
        let u: i32 = if self.up { 1 } else { 0 };
        let d: i32 = if self.down { 1 } else { 0 };
        (f - b, r - l, u - d)
    }
}

/// Whether a key event ends the program: Escape going down.
pub fn is_exit_key(code: KeyCode, is_pressed: bool) -> (b: bool)
    ensures
        b == (code is Escape && is_pressed),
{
    match code {
        KeyCode::Escape => is_pressed,
        _ => false,
    }
}

/// A binding of a bind group layout: its number, the shader stages that see
/// it (as the GPU API's stage bits), and its binding type `E`.
pub struct LayoutEntry<E> {
    pub binding: u32,
    pub visibility: u32,
    pub ty: E,
}

/// A bind group layout under construction: its label and its entries.
pub struct Layout<'a, E> {
    pub label: Option<&'a str>,
    pub entries: Vec<LayoutEntry<E>>,
}

impl<'a, E: Copy> Layout<'a, E> {
    /// A layout whose entries have the given types, numbered from zero in
    /// order, all seen by the stages `visibility`.
    pub fn sequential(label: Option<&'a str>, visibility: u32, types: &[E]) -> (l: Self)
        requires
            types@.len() <= u32::MAX,
        ensures
            l.label == label,
            l.entries@.len() == types@.len(),
            forall|i: int|
                0 <= i < types@.len() ==> (#[trigger] l.entries@[i]).binding == i && l.entries@[i].visibility
                    == visibility && l.entries@[i].ty == types@[i],
    {
        let mut entries: Vec<LayoutEntry<E>> = Vec::new();
        let mut i: usize = 0;
        while i < types.len()
            invariant
                i <= types@.len(),
                types@.len() <= u32::MAX,
                entries@.len() == i,
                forall|k: int|
                    0 <= k < i ==> (#[trigger] entries@[k]).binding == k && entries@[k].visibility == visibility
                        && entries@[k].ty == types@[k],
            decreases types@.len() - i,
        {
            entries.push(LayoutEntry { binding: i as u32, visibility, ty: types[i] });
            i = i + 1;
        }
        Layout { label, entries }
    }

    /// Appends `entry`, numbered after the entries there are.
    pub fn with(&mut self, entry: LayoutEntry<E>)
        requires
            old(self).entries@.len() < u32::MAX,
        ensures
            final(self).label == old(self).label,
            final(self).entries@ == old(self).entries@.push(
                LayoutEntry { binding: old(self).entries@.len() as u32, ..entry },
            ),
    {
        let n = self.entries.len() as u32;
        self.entries.push(LayoutEntry { binding: n, ..entry });
    }
}

/// Bytes of the buffer of second-pass instance candidates: a word per
/// instance.
pub open spec fn candidates_size(instance_count: u32) -> int {
    4 * instance_count
}

/// Whether the buffer of second-pass instance candidates there is (of
/// `existing` bytes, none where there is none yet) can be kept for
/// `instance_count` instances, and else the size of the one to make.
pub fn candidates_buffer(existing: Option<u64>, instance_count: u32) -> (r: Option<u64>)
    ensures
        r == match existing {
            Some(size) => if size >= candidates_size(instance_count) {
                None::<u64>
            } else {
                Some(candidates_size(instance_count) as u64)
            },
            None => Some(candidates_size(instance_count) as u64),
        },
{
    let needed = instance_count as u64 * 4;
    match existing {
        Some(size) => if size >= needed {
            None
        } else {
            Some(needed)
        },
        None => Some(needed),
    }
}

/// The GPU memory of the renderer's resources: its four view and cluster
/// buffers, the candidates buffer if any, the visibility buffer (eight
/// bytes a texel) and its placeholder target (one byte a texel), the
/// material depth, both depth pyramids and the per-frame indirect argument
/// buffers if any.
pub fn resource_memory_device(
    buffers: [u64; 4],
    candidates: Option<u64>,
    width: u32,
    height: u32,
    textures: [u64; 3],
    per_frame: Option<[u64; 3]>,
) -> (n: u128)
    requires
        width * height <= u32::MAX,
    ensures
        n == buffers[0] + buffers[1] + buffers[2] + buffers[3] + (match candidates {
            Some(c) => c as int,
            None => 0,
        }) + 8 * (width * height) + (width * height) + textures[0] + textures[1] + textures[2]
            + (match per_frame {
            Some(p) => p[0] + p[1] + p[2],
            None => 0,
        }),
{
    let texels = width as u128 * height as u128;
    proof {
        assert(texels == width * height) by (nonlinear_arith)
            requires
                texels == (width as u128) * (height as u128),
        ;
    }
    let mut total: u128 = 0;
    total = total + buffers[0] as u128 + buffers[1] as u128 + buffers[2] as u128 + buffers[3] as u128;
    total = total + match candidates {
        Some(c) => c as u128,
        None => 0,
    };
    total = total + 8 * texels + texels;
    total = total + textures[0] as u128 + textures[1] as u128 + textures[2] as u128;
    total = total + match per_frame {
        Some(p) => p[0] as u128 + p[1] as u128 + p[2] as u128,
        None => 0,
    };
    total
}

/// The index of the surface format to render to, among the formats the
/// surface supports (`is_srgb[i]` says whether format `i` is sRGB): the first
/// sRGB format, or the first format where none is sRGB.
pub fn choose_surface_format(is_srgb: &[bool]) -> (i: usize)
    requires
        is_srgb@.len() > 0,
    ensures
        i < is_srgb@.len(),
        (exists|j: int| 0 <= j < is_srgb@.len() && is_srgb@[j]) ==> is_srgb@[i as int],
        !(exists|j: int| 0 <= j < is_srgb@.len() && is_srgb@[j]) ==> i == 0,
        forall|j: int| 0 <= j < i ==> !is_srgb@[j],
{
    let mut k: usize = 0;
    while k < is_srgb.len()
        invariant
            k <= is_srgb@.len(),
            forall|j: int| 0 <= j < k ==> !is_srgb@[j],
        decreases is_srgb@.len() - k,
    {
        if is_srgb[k] {
            return k;
        }
        k = k + 1;
    }
    0
}

} // verus!
