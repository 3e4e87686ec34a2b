//! Sizing of the hierarchical depth pyramid used for occlusion culling: its
//! extent and level count for a screen size, which of its view slots hold a
//! level, and how its downsampling is dispatched.

use vstd::prelude::*;
use vstd::arithmetic::power2::is_pow2;
use crate::texture::{bit_len, bit_length};

verus! {

/// The number of level views the downsampling shader binds.
pub const DEPTH_PYRAMID_COUNT: usize = 12;

/// Texels a downsampling workgroup covers along each side.
pub const DOWNSAMPLE_TILE: u32 = 64;

/// Level count from which the second downsampling dispatch runs.
pub const SECOND_PASS_MIN_MIPS: u32 = 7;

/// `p` is the smallest power of two not below `n`.
pub open spec fn is_next_pow2(n: int, p: int) -> bool {
    &&& is_pow2(p)
    &&& n <= p
    &&& (p == 1 || p < 2 * n)
}

/// `p` is the largest power of two below `n`, or zero where there is none.
pub open spec fn is_pow2_below(n: int, p: int) -> bool {
    ||| (p == 0 && n <= 1)
    ||| (is_pow2(p) && p < n && n <= 2 * p)
}

/// Of two powers of two, the larger is at least twice the smaller.
proof fn lemma_pow2_gap(p: int, q: int)
    requires
        is_pow2(p),
        is_pow2(q),
        p < q,
    ensures
        2 * p <= q,
    decreases p,
{
    reveal_with_fuel(is_pow2, 2);
    if p > 1 {
        lemma_pow2_gap(p / 2, q / 2);
    }
}

/// Law: a number has one smallest power of two not below it.
pub proof fn lemma_next_pow2_unique(n: int, p: int, q: int)
    requires
        is_next_pow2(n, p),
        is_next_pow2(n, q),
    ensures
        p == q,
{
    reveal_with_fuel(is_pow2, 2);
    if p < q {
        lemma_pow2_gap(p, q);
    } else if q < p {
        lemma_pow2_gap(q, p);
    }
}

/// The smallest power of two not below `n` (one for zero).
pub fn next_power_of_two(n: u32) -> (p: u32)
    requires
        n <= 0x8000_0000,
    ensures
        is_next_pow2(n as int, p as int),
{
    let mut p: u64 = 1;
    proof {
        reveal_with_fuel(is_pow2, 2);
    }
    while p < n as u64
        invariant
            is_pow2(p as int),
            1 <= p,
            p == 1 || p < 2 * n,
            p <= 0x1_0000_0000,
            n <= 0x8000_0000,
        decreases 0x1_0000_0000 - p,
    {
        proof {
            reveal_with_fuel(is_pow2, 2);
            assert((2 * p) % 2 == 0);
            assert((2 * p) / 2 == p);
        }
        p = 2 * p;
    }
    p as u32
}

/// Half the smallest power of two not below `n`: the largest power of two
/// below `n`, or zero where there is none.
pub fn half_next_power_of_two(n: u32) -> (p: u32)
    requires
        n <= 0x8000_0000,
    ensures
        is_pow2_below(n as int, p as int),
{
    let q = next_power_of_two(n);
    proof {
        reveal_with_fuel(is_pow2, 2);
        if q > 1 {
            assert(q % 2 == 0);
        }
    }
    q / 2
}

/// The number of levels of a full mip chain of a 2D texture: as many as
/// the larger side has bits.
pub fn max_mips_2d(width: u32, height: u32) -> (n: u32)
    ensures
        n == bit_len(if width >= height { width as nat } else { height as nat }),
{
    bit_length(if width >= height {
        width
    } else {
        height
    })
}

/// The depth pyramid for a screen: its extent and number of levels.
#[derive(Clone, Copy, Debug, PartialEq, Eq, Structural)]
pub struct DepthPyramidPlan {
    pub width: u32,
    pub height: u32,
    pub mip_count: u32,
}

impl DepthPyramidPlan {
    /// The pyramid of a `width` by `height` screen: each side the largest
    /// power of two not above the screen's (zero for zero), with a full mip
    /// chain.
    pub fn new(width: u32, height: u32) -> (p: Self)
        requires
            width < 0x8000_0000,
            height < 0x8000_0000,
        ensures
            is_pow2_below(width + 1, p.width as int),
            is_pow2_below(height + 1, p.height as int),
            p.mip_count == bit_len(if p.width >= p.height { p.width as nat } else { p.height as nat }),
    {
        let w = half_next_power_of_two(width + 1);
        let h = half_next_power_of_two(height + 1);
        DepthPyramidPlan { width: w, height: h, mip_count: max_mips_2d(w, h) }
    }

    /// The pyramid that the resource storage sizes for a `width` by `height`
    /// screen: each side the largest power of two below the screen's (zero
    /// where there is none), with a full mip chain.
    pub fn below(width: u32, height: u32) -> (p: Self)
        requires
            width <= 0x8000_0000,
            height <= 0x8000_0000,
        ensures
            is_pow2_below(width as int, p.width as int),
            is_pow2_below(height as int, p.height as int),
            p.mip_count == bit_len(if p.width >= p.height { p.width as nat } else { p.height as nat }),
    {
        let w = half_next_power_of_two(width);
        let h = half_next_power_of_two(height);
        DepthPyramidPlan { width: w, height: h, mip_count: max_mips_2d(w, h) }
    }

    /// The level shown in view slot `slot`: the slot's own level where the
    /// pyramid has it, else none (the slot gets a placeholder view).
    pub fn mip_view(&self, slot: u32) -> (level: Option<u32>)
        ensures
            level == if slot < self.mip_count { Some(slot) } else { None::<u32> },
    {
        if slot < self.mip_count {
            Some(slot)
        } else {
            None
        }
    }

    /// The extent the downsampling shader works in: each side the smallest
    /// power of two above the pyramid's.
    pub fn virtual_size(&self) -> (s: (u32, u32))
        requires
            self.width < 0x8000_0000,
            self.height < 0x8000_0000,
        ensures
            is_next_pow2(self.width + 1, s.0 as int),
            is_next_pow2(self.height + 1, s.1 as int),
    {
        (next_power_of_two(self.width + 1), next_power_of_two(self.height + 1))
    }

    /// The workgroups of the first downsampling dispatch, and whether the
    /// second dispatch runs.
    pub fn downsample_dispatch(&self) -> (d: (u32, u32, bool))
        requires
            self.width < 0x8000_0000,
            self.height < 0x8000_0000,
        ensures
            forall|sx: int, sy: int|
                #[trigger] is_next_pow2(self.width + 1, sx) && #[trigger] is_next_pow2(self.height + 1, sy) ==> d.0 == (sx
                    + DOWNSAMPLE_TILE - 1) / DOWNSAMPLE_TILE as int && d.1 == (sy + DOWNSAMPLE_TILE - 1)
                    / DOWNSAMPLE_TILE as int,
            d.2 == (self.mip_count >= SECOND_PASS_MIN_MIPS),
    {
        let (sx, sy) = self.virtual_size();
        proof {
            assert forall|ax: int, ay: int|
                #[trigger] is_next_pow2(self.width + 1, ax) && #[trigger] is_next_pow2(self.height + 1, ay) implies ax == sx
                    && ay == sy by {
                lemma_next_pow2_unique(self.width + 1, ax, sx as int);
                lemma_next_pow2_unique(self.height + 1, ay, sy as int);
            }
        }
        let x = sx / DOWNSAMPLE_TILE + if sx % DOWNSAMPLE_TILE == 0 {
            0
        } else {
            1
        };
        let y = sy / DOWNSAMPLE_TILE + if sy % DOWNSAMPLE_TILE == 0 {
            0
        } else {
            1
        };
        (x, y, self.mip_count >= SECOND_PASS_MIN_MIPS)
    }
}

/// The depth pyramid built this frame and the one built the frame before,
/// which culling tests against.
pub struct DepthPyramids<T> {
    pub current: T,
    pub previous: T,
}

impl<T> DepthPyramids<T> {
    /// Starts a frame: this frame's pyramid becomes the previous one, and the
    /// pyramid of two frames ago is built over as the current one.
    pub fn begin_frame(&mut self)
        ensures
            final(self).current == old(self).previous,
            final(self).previous == old(self).current,
    {
        std::mem::swap(&mut self.current, &mut self.previous);
    }
}

} // verus!
