//! Texture options and upload planning: mipmap choices, the texel layout a
//! format is uploaded in, the extents of a mip chain, and the built-in
//! default textures.
//!
//! The GPU enums the options are made of have library stand-ins here, with
//! the variants the engine uses; the caller maps them to the GPU API's own.

use vstd::prelude::*;
use vstd::string::StringSliceAdditionalSpecFns;
use vstd::arithmetic::power2::{lemma_pow2_pos, lemma_pow2_unfold, pow2};
use vstd::arithmetic::div_mod::lemma_div_denominator;

verus! {

/// How a sampler blends between mip levels.
#[derive(Clone, Copy, Debug, PartialEq, Eq, Structural)]
pub enum MipmapFilterMode {
    Nearest,
    Linear,
}

/// How a sampler filters texels within a level.
#[derive(Clone, Copy, Debug, PartialEq, Eq, Structural)]
pub enum FilterMode {
    Nearest,
    Linear,
}

/// How a sampler treats coordinates outside the texture.
#[derive(Clone, Copy, Debug, PartialEq, Eq, Structural)]
pub enum AddressMode {
    ClampToEdge,
    Repeat,
    MirrorRepeat,
    ClampToBorder,
}

/// The texel formats the engine creates textures in; `Other` stands for
/// every format it does not name.
#[derive(Clone, Copy, Debug, PartialEq, Eq, Structural)]
pub enum TextureFormat {
    R8Unorm,
    R8Snorm,
    R8Uint,
    R8Sint,
    Rg8Unorm,
    Rg8Snorm,
    Rg8Uint,
    Rg8Sint,
    Rgba8UnormSrgb,
    Rgba8Unorm,
    Rgba8Snorm,
    Rgba8Uint,
    Rgba8Sint,
    R32Float,
    R64Uint,
    Depth32Float,
    Other,
}

/// Texture usage flags, as the bits of the GPU API.
pub const USAGE_COPY_SRC: u32 = 1;
pub const USAGE_COPY_DST: u32 = 2;
pub const USAGE_TEXTURE_BINDING: u32 = 4;
pub const USAGE_STORAGE_BINDING: u32 = 8;
pub const USAGE_RENDER_ATTACHMENT: u32 = 16;

/// The number of bits needed to write `n`: zero for zero, else one more
/// than the largest `k` with `2^k <= n`.
pub open spec fn bit_len(n: nat) -> nat
    decreases n,
{
    if n == 0 {
        0
    } else {
        1 + bit_len(n / 2)
    }
}

/// The number of bits needed to write `n`.
pub fn bit_length(n: u32) -> (b: u32)
    ensures
        b == bit_len(n as nat),
        b <= 32,
{
    let mut m = n;
    let mut b: u32 = 0;
    proof {
        lemma_bit_len_bound(n);
    }
    while m > 0
        invariant
            b + bit_len(m as nat) == bit_len(n as nat),
            b <= 32 - bit_len(m as nat),
            bit_len(m as nat) <= 32,
        decreases m,
    {
        proof {
            lemma_bit_len_bound(m);
        }
        m = m / 2;
        b = b + 1;
    }
    b
}

/// A `u32` needs at most 32 bits, and one needs as many bits as its half
/// plus one.
proof fn lemma_bit_len_bound(m: u32)
    ensures
        bit_len(m as nat) <= 32,
        m > 0 ==> bit_len(m as nat) == 1 + bit_len((m / 2) as nat),
{
    vstd::arithmetic::power2::lemma2_to64();
    lemma_bit_len_below(m as nat, 32);
}

proof fn lemma_bit_len_below(n: nat, k: nat)
    requires
        n < vstd::arithmetic::power2::pow2(k),
    ensures
        bit_len(n) <= k,
    decreases k,
{
    if n > 0 {
        if k == 0 {
            vstd::arithmetic::power2::lemma2_to64();
            assert(false);
        }
        vstd::arithmetic::power2::lemma_pow2_unfold(k);
        lemma_bit_len_below(n / 2, (k - 1) as nat);
    }
}

/// The number of mip levels of an image whose larger side is `extent`:
/// `floor(log2(extent)) + 1`, and one for an empty image.
pub open spec fn full_mip_levels(extent: nat) -> nat {
    if extent == 0 { 1 } else { bit_len(extent) }
}

/// Whether and how a texture gets mip levels.
#[derive(Clone, Copy, Debug, PartialEq, Eq, Structural)]
pub enum MipmapOptions {
    /// One level.
    Disabled,
    /// A full chain, filtered linearly.
    Auto,
    /// A full chain, with the given filter.
    AutoWithFilter { filter: MipmapFilterMode },
    /// The given number of levels (at least one) and filter.
    Custom { levels: u32, filter: MipmapFilterMode },
}

/// Upper bound on the levels of a chain not yet sized to an image.
pub const MIPMAP_LEVEL_BOUND: u32 = 32;

impl MipmapOptions {
    /// A custom level count is at least one.
    pub open spec fn wf(self) -> bool {
        self matches MipmapOptions::Custom { levels, .. } ==> levels >= 1
    }

    /// The number of mip levels.
    pub fn levels(&self) -> (n: u32)
        ensures
            n == match *self {
                MipmapOptions::Disabled => 1,
                MipmapOptions::Auto => MIPMAP_LEVEL_BOUND,
                MipmapOptions::AutoWithFilter { .. } => MIPMAP_LEVEL_BOUND,
                MipmapOptions::Custom { levels, .. } => levels,
            },
            self.wf() ==> n >= 1,
    {
        match self {
            MipmapOptions::Disabled => 1,
            MipmapOptions::Auto => MIPMAP_LEVEL_BOUND,
            MipmapOptions::AutoWithFilter { .. } => MIPMAP_LEVEL_BOUND,
            MipmapOptions::Custom { levels, .. } => *levels,
        }
    }

    /// The filter between mip levels.
    pub fn filter(&self) -> (f: MipmapFilterMode)
        ensures
            f == match *self {
                MipmapOptions::Disabled => MipmapFilterMode::Nearest,
                MipmapOptions::Auto => MipmapFilterMode::Linear,
                MipmapOptions::AutoWithFilter { filter } => filter,
                MipmapOptions::Custom { filter, .. } => filter,
            },
    {
        match self {
            MipmapOptions::Disabled => MipmapFilterMode::Nearest,
            MipmapOptions::Auto => MipmapFilterMode::Linear,
            MipmapOptions::AutoWithFilter { filter } => *filter,
            MipmapOptions::Custom { filter, .. } => *filter,
        }
    }

    /// Sizes an automatic chain to an image of `width` by `height`: it
    /// becomes a custom chain of `floor(log2(max(width, height))) + 1`
    /// levels (one for an empty image), keeping its filter. Other options
    /// stay.
    pub fn try_auto_generate(&mut self, width: u32, height: u32)
        ensures
            ({
                let extent = if width >= height { width } else { height };
                let levels = full_mip_levels(extent as nat) as u32;
                *final(self) == match *old(self) {
                    MipmapOptions::Auto => MipmapOptions::Custom {
                        levels,
                        filter: MipmapFilterMode::Linear,
                    },
                    MipmapOptions::AutoWithFilter { filter } => MipmapOptions::Custom { levels, filter },
                    other => other,
                }
            }),
            final(self).wf() || !old(self).wf() && *final(self) == *old(self),
    {
        let extent = if width >= height {
            width
        } else {
            height
        };
        let levels = if extent == 0 {
            1
        } else {
            bit_length(extent)
        };
        proof {
            if extent > 0 {
                reveal_with_fuel(bit_len, 2);
            }
        }
        match *self {
            MipmapOptions::Auto => {
                *self = MipmapOptions::Custom { levels, filter: MipmapFilterMode::Linear };
            },
            MipmapOptions::AutoWithFilter { filter } => {
                *self = MipmapOptions::Custom { levels, filter };
            },
            _ => {},
        }
    }
}

/// How a texture is created and sampled.
#[derive(Clone, Copy, Debug, PartialEq, Eq, Structural)]
pub struct TextureOptions {
    pub format: TextureFormat,
    pub usage: u32,
    pub address_mode: AddressMode,
    pub mag_filter: FilterMode,
    pub min_filter: FilterMode,
    pub mipmap: MipmapOptions,
    pub anisotropy: u16,
}

impl TextureOptions {
    /// The options every texture starts from: RGBA8, no usage, clamped,
    /// nearest filtering, one level, no anisotropy.
    pub open spec fn spec_default() -> TextureOptions {
        TextureOptions {
            format: TextureFormat::Rgba8Unorm,
            usage: 0,
            address_mode: AddressMode::ClampToEdge,
            mag_filter: FilterMode::Nearest,
            min_filter: FilterMode::Nearest,
            mipmap: MipmapOptions::Disabled,
            anisotropy: 1,
        }
    }

    /// Options of a depth attachment that shaders also read.
    pub fn depth() -> (o: Self)
        ensures
            o == (TextureOptions {
                format: TextureFormat::Depth32Float,
                usage: USAGE_RENDER_ATTACHMENT | USAGE_TEXTURE_BINDING,
                mag_filter: FilterMode::Linear,
                min_filter: FilterMode::Linear,
                ..TextureOptions::spec_default()
            }),
    {
        TextureOptions {
            format: TextureFormat::Depth32Float,
            usage: USAGE_RENDER_ATTACHMENT | USAGE_TEXTURE_BINDING,
            mag_filter: FilterMode::Linear,
            min_filter: FilterMode::Linear,
            ..TextureOptions::default()
        }
    }

    /// Options of a sampled texture in `format`, filled by copies, repeating
    /// and filtered linearly.
    pub fn texture(format: TextureFormat) -> (o: Self)
        ensures
            o == (TextureOptions {
                format,
                usage: USAGE_TEXTURE_BINDING | USAGE_COPY_DST,
                address_mode: AddressMode::Repeat,
                mag_filter: FilterMode::Linear,
                min_filter: FilterMode::Linear,
                ..TextureOptions::spec_default()
            }),
    {
        TextureOptions {
            format,
            usage: USAGE_TEXTURE_BINDING | USAGE_COPY_DST,
            address_mode: AddressMode::Repeat,
            mag_filter: FilterMode::Linear,
            min_filter: FilterMode::Linear,
            ..TextureOptions::default()
        }
    }

    /// These options in another format.
    pub fn with_format(self, format: TextureFormat) -> (o: Self)
        ensures
            o == (TextureOptions { format, ..self }),
    {
        TextureOptions { format, ..self }
    }

    /// These options with other usage flags.
    pub fn with_usage(self, usage: u32) -> (o: Self)
        ensures
            o == (TextureOptions { usage, ..self }),
    {
        TextureOptions { usage, ..self }
    }

    /// These options with another address mode.
    pub fn with_address_mode(self, address_mode: AddressMode) -> (o: Self)
        ensures
            o == (TextureOptions { address_mode, ..self }),
    {
        TextureOptions { address_mode, ..self }
    }

    /// These options with mip levels, and anisotropy (one where not given).
    pub fn with_mipmap(self, mipmap: MipmapOptions, anisotropy: Option<u16>) -> (o: Self)
        ensures
            o == (TextureOptions {
                mipmap,
                anisotropy: match anisotropy {
                    Some(a) => a,
                    None => 1u16,
                },
                ..self
            }),
    {
        let anisotropy = match anisotropy {
            Some(a) => a,
            None => 1,
        };
        TextureOptions { mipmap, anisotropy, ..self }
    }

    /// These options with other magnification and minification filters.
    pub fn with_mag_min_filter(self, mag: FilterMode, min: FilterMode) -> (o: Self)
        ensures
            o == (TextureOptions { mag_filter: mag, min_filter: min, ..self }),
    {
        TextureOptions { mag_filter: mag, min_filter: min, ..self }
    }
}

impl Default for TextureOptions {
    fn default() -> (o: Self)
        ensures
            o == TextureOptions::spec_default(),
    {
        TextureOptions {
            format: TextureFormat::Rgba8Unorm,
            usage: 0,
            address_mode: AddressMode::ClampToEdge,
            mag_filter: FilterMode::Nearest,
            min_filter: FilterMode::Nearest,
            mipmap: MipmapOptions::Disabled,
            anisotropy: 1,
        }
    }
}

/// The channels an image is converted to for upload.
#[derive(Clone, Copy, Debug, PartialEq, Eq, Structural)]
pub enum TexelLayout {
    /// One 8-bit channel.
    Luma8,
    /// Two 8-bit channels.
    LumaAlpha8,
    /// Four 8-bit channels.
    Rgba8,
}

/// Why an image cannot be uploaded.
#[derive(Clone, Copy, Debug, PartialEq, Eq, Structural)]
pub enum TextureError {
    /// The format is not one of the 8-bit formats images are uploaded in.
    InvalidFormat(TextureFormat),
}

/// The layout and bytes per texel an image in `format` is uploaded with.
pub open spec fn spec_texel_layout(format: TextureFormat) -> Result<(TexelLayout, u32), TextureError> {
    match format {
        TextureFormat::R8Unorm | TextureFormat::R8Snorm | TextureFormat::R8Uint
        | TextureFormat::R8Sint => Ok((TexelLayout::Luma8, 1u32)),
        TextureFormat::Rg8Unorm | TextureFormat::Rg8Snorm | TextureFormat::Rg8Uint
        | TextureFormat::Rg8Sint => Ok((TexelLayout::LumaAlpha8, 2u32)),
        TextureFormat::Rgba8UnormSrgb | TextureFormat::Rgba8Unorm | TextureFormat::Rgba8Snorm
        | TextureFormat::Rgba8Uint | TextureFormat::Rgba8Sint => Ok((TexelLayout::Rgba8, 4u32)),
        _ => Err(TextureError::InvalidFormat(format)),
    }
}

/// The layout and bytes per texel an image in `format` is uploaded with:
/// one 8-bit channel for the R8 formats, two for RG8, four for RGBA8, and
/// an error for any other format.
pub fn texel_layout(format: TextureFormat) -> (r: Result<(TexelLayout, u32), TextureError>)
    ensures
        r == spec_texel_layout(format),
{
    match format {
        TextureFormat::R8Unorm | TextureFormat::R8Snorm | TextureFormat::R8Uint
        | TextureFormat::R8Sint => Ok((TexelLayout::Luma8, 1)),
        TextureFormat::Rg8Unorm | TextureFormat::Rg8Snorm | TextureFormat::Rg8Uint
        | TextureFormat::Rg8Sint => Ok((TexelLayout::LumaAlpha8, 2)),
        TextureFormat::Rgba8UnormSrgb | TextureFormat::Rgba8Unorm | TextureFormat::Rgba8Snorm
        | TextureFormat::Rgba8Uint | TextureFormat::Rgba8Sint => Ok((TexelLayout::Rgba8, 4)),
        _ => Err(TextureError::InvalidFormat(format)),
    }
}

/// The extents after one step down the mip chain: each side halved, but
/// never below one; an image of one texel stays as it is.
pub open spec fn next_extent(e: (u32, u32)) -> (u32, u32) {
    if e.0 > 1 || e.1 > 1 {
        (if e.0 / 2 >= 1 { (e.0 / 2) as u32 } else { 1u32 }, if e.1 / 2 >= 1 {
            (e.1 / 2) as u32
        } else {
            1u32
        })
    } else {
        e
    }
}

/// The extents of level `i` of the chain of an image of `width` by `height`.
pub open spec fn mip_extent(width: u32, height: u32, i: nat) -> (u32, u32)
    decreases i,
{
    if i == 0 {
        (width, height)
    } else {
        next_extent(mip_extent(width, height, (i - 1) as nat))
    }
}

/// A side of `x` texels halved `i` times, rounding down, but never below one.
pub open spec fn halved_side(x: u32, i: nat) -> int {
    if x as int / pow2(i) as int >= 1 {
        x as int / pow2(i) as int
    } else {
        1
    }
}

/// Law: level `i` of the mip chain of a `width` by `height` image (neither
/// side zero) is `max(width / 2^i, 1)` by `max(height / 2^i, 1)`, the
/// divisions rounding down.
pub proof fn lemma_mip_extent_halves(width: u32, height: u32, i: nat)
    requires
        width >= 1,
        height >= 1,
    ensures
        mip_extent(width, height, i).0 == halved_side(width, i),
        mip_extent(width, height, i).1 == halved_side(height, i),
    decreases i,
{
    lemma_pow2_pos(i);
    if i > 0 {
        let j = (i - 1) as nat;
        lemma_mip_extent_halves(width, height, j);
        lemma_pow2_pos(j);
        lemma_pow2_unfold(i);
        lemma_div_denominator(width as int, pow2(j) as int, 2);
        lemma_div_denominator(height as int, pow2(j) as int, 2);
        assert(pow2(j) * 2 == pow2(i));
    } else {
        assert(pow2(0) == 1) by {
            vstd::arithmetic::power2::lemma2_to64();
        }
    }
}

/// One level of a mip chain to upload.
#[derive(Clone, Copy, Debug, PartialEq, Eq, Structural)]
pub struct MipUpload {
    pub level: u32,
    pub width: u32,
    pub height: u32,
    pub bytes_per_row: u32,
}

/// The levels of a chain of `levels` levels of an image of `width` by
/// `height` with `bytes_per_texel` bytes per texel: their extents halve
/// from level to level, and each row holds its width of texels.
pub fn mip_uploads(width: u32, height: u32, levels: u32, bytes_per_texel: u32) -> (r: Vec<MipUpload>)
    requires
        bytes_per_texel * width <= u32::MAX,
    ensures
        r@.len() == levels,
        forall|i: int|
            0 <= i < levels ==> {
                let e = mip_extent(width, height, i as nat);
                &&& (#[trigger] r@[i]).level == i
                &&& r@[i].width == e.0
                &&& r@[i].height == e.1
                &&& r@[i].bytes_per_row == bytes_per_texel * e.0
            },
        width >= 1 && height >= 1 ==> forall|i: int|
            0 <= i < levels ==> (#[trigger] r@[i]).width == halved_side(width, i as nat) && r@[i].height
                == halved_side(height, i as nat),
{
    let mut r: Vec<MipUpload> = Vec::new();
    let mut w = width;
    let mut h = height;
    let mut level: u32 = 0;
    while level < levels
        invariant
            level <= levels,
            r@.len() == level,
            (w, h) == mip_extent(width, height, level as nat),
            bytes_per_texel * w <= u32::MAX,
            forall|i: int|
                0 <= i < level ==> {
                    let e = mip_extent(width, height, i as nat);
                    &&& (#[trigger] r@[i]).level == i
                    &&& r@[i].width == e.0
                    &&& r@[i].height == e.1
                    &&& r@[i].bytes_per_row == bytes_per_texel * e.0
                },
        decreases levels - level,
    {
        r.push(MipUpload { level, width: w, height: h, bytes_per_row: bytes_per_texel * w });
        if w > 1 || h > 1 {
            proof {
                assert(bytes_per_texel * (w / 2) <= bytes_per_texel * w) by (nonlinear_arith);
            }
            w = if w / 2 >= 1 {
                w / 2
            } else {
                1
            };
            h = if h / 2 >= 1 {
                h / 2
            } else {
                1
            };
        }
        level = level + 1;
    }
    proof {
        if width >= 1 && height >= 1 {
            assert forall|i: int| 0 <= i < levels implies (#[trigger] r@[i]).width == halved_side(
                width,
                i as nat,
            ) && r@[i].height == halved_side(height, i as nat) by {
                lemma_mip_extent_halves(width, height, i as nat);
            }
        }
    }
    r
}

/// Handle id of the default white texture.
pub const DEFAULT_WHITE_TEXTURE_ID: u64 = 0;

/// Handle id of the default chequered texture.
pub const DEFAULT_CHEQUERED_TEXTURE_ID: u64 = 1;

/// The built-in 2x2 RGBA8 textures: their handle ids, labels and texels
/// (white; black and white chequers).
pub fn default_textures() -> (t: Vec<(u64, &'static str, [u8; 16])>)
    ensures
        t@.len() == 2,
        t@[0].0 == DEFAULT_WHITE_TEXTURE_ID,
        t@[1].0 == DEFAULT_CHEQUERED_TEXTURE_ID,
        t@[0].2@ == Seq::new(16, |i: int| 0xffu8),
        t@[1].2@ == seq![
            0xffu8, 0xff, 0xff, 0xff, 0, 0, 0, 0xff, 0, 0, 0, 0xff, 0xff, 0xff, 0xff, 0xff,
        ],
{
    let white: [u8; 16] = [0xff; 16];
    let chequered: [u8; 16] = [
        0xff, 0xff, 0xff, 0xff, 0, 0, 0, 0xff, 0, 0, 0, 0xff, 0xff, 0xff, 0xff, 0xff,
    ];
    let mut t: Vec<(u64, &'static str, [u8; 16])> = Vec::new();
    t.push((DEFAULT_WHITE_TEXTURE_ID, "mere_default_white_texture", white));
    t.push((DEFAULT_CHEQUERED_TEXTURE_ID, "mere_default_chequered_texture", chequered));
    assert(t@[0].2@ =~= Seq::new(16, |i: int| 0xffu8));
    assert(t@[1].2@ =~= seq![
        0xffu8, 0xff, 0xff, 0xff, 0, 0, 0, 0xff, 0, 0, 0, 0xff, 0xff, 0xff, 0xff, 0xff,
    ]);
    t
}

/// `needle` occurs in `hay`.
pub open spec fn has_sub(hay: Seq<u8>, needle: Seq<u8>) -> bool {
    exists|i: int| 0 <= i && i + needle.len() <= hay.len() && #[trigger] hay.subrange(i, i + needle.len()) == needle
}

/// Whether `needle` matches `hay` at position `i`.
fn matches_at(hay: &[u8], needle: &[u8], i: usize) -> (b: bool)
    requires
        i + needle@.len() <= hay@.len(),
    ensures
        b == (hay@.subrange(i as int, i + needle@.len()) == needle@),
{
    let _n = hay.len();
    let mut j: usize = 0;
    while j < needle.len()
        invariant
            i + needle@.len() <= hay@.len(),
            hay@.len() <= usize::MAX,
            j <= needle@.len(),
            forall|k: int| 0 <= k < j ==> hay@[i + k] == needle@[k],
        decreases needle@.len() - j,
    {
        if hay[i + j] != needle[j] {
            assert(hay@.subrange(i as int, i + needle@.len())[j as int] != needle@[j as int]);
            return false;
        }
        j = j + 1;
    }
    assert(hay@.subrange(i as int, i + needle@.len()) =~= needle@);
    true
}

/// Whether `needle` occurs in `hay`, byte for byte.
pub fn contains_bytes(hay: &[u8], needle: &[u8]) -> (b: bool)
    ensures
        b == has_sub(hay@, needle@),
{
    if needle.len() > hay.len() {
        return false;
    }
    let last = hay.len() - needle.len();
    let mut i: usize = 0;
    loop
        invariant
            last == hay@.len() - needle@.len(),
            i <= last,
            forall|k: int| 0 <= k < i ==> #[trigger] hay@.subrange(k, k + needle@.len()) != needle@,
        decreases last - i,
    {
        if matches_at(hay, needle, i) {
            assert(hay@.subrange(i as int, i + needle@.len()) == needle@);
            return true;
        }
        if i == last {
            assert forall|k: int| 0 <= k && k + needle@.len() <= hay@.len() implies #[trigger] hay@.subrange(
                k,
                k + needle@.len(),
            ) != needle@ by {
                assert(k <= i);
            }
            return false;
        }
        i = i + 1;
    }
}

/// Name for the lowercase form of a string, as `str::to_lowercase` gives it.
pub uninterp spec fn lowercase(s: Seq<char>) -> Seq<char>;

/// Calls `str::to_lowercase`: the lowercase form of `s`.
#[verifier::external_body]
fn to_lowercase(s: &str) -> (r: String)
    ensures
        r@ == lowercase(s@),
{
    s.to_lowercase()
}

/// Anisotropy of sampled material textures.
pub const DIFFUSE_ANISOTROPY: u16 = 8;

/// Anisotropy of normal and roughness-metalness textures.
pub const OTHER_ANISOTROPY: u16 = 8;

/// The image file name `uri` names a texture holding data rather than
/// colour: a normal map, or a combined roughness and metalness map.
pub open spec fn is_data_texture(uri: Seq<char>) -> bool {
    let l = vstd::utf8::encode_utf8(lowercase(uri));
    has_sub(l, "normal".spec_bytes()) || (has_sub(l, "roughness".spec_bytes()) && has_sub(
        l,
        "metalness".spec_bytes(),
    ))
}

/// Law: a scene texture is stored linear exactly when its lowercased name
/// holds "normal", or holds both "roughness" and "metalness"; a name holding
/// neither "normal" nor "roughness" (a metalness map alone, say) is sRGB.
pub proof fn lemma_texture_linear_names(uri: Seq<char>)
    ensures
        ({
            let l = vstd::utf8::encode_utf8(lowercase(uri));
            &&& (!has_sub(l, "normal".spec_bytes()) && !has_sub(l, "roughness".spec_bytes()))
                ==> !is_data_texture(uri)
            &&& is_data_texture(uri) <==> (has_sub(l, "normal".spec_bytes()) || (has_sub(
                l,
                "roughness".spec_bytes(),
            ) && has_sub(l, "metalness".spec_bytes())))
        }),
{
}

/// The options a scene texture loaded from `uri` gets: a linear RGBA8
/// texture where its lowercased name holds "normal", or both "roughness"
/// and "metalness"; an sRGB RGBA8 texture otherwise; both with a full
/// mip chain and anisotropic filtering.
pub fn texture_options(uri: &str) -> (o: TextureOptions)
    ensures
        o == (if is_data_texture(uri@) {
            TextureOptions {
                format: TextureFormat::Rgba8Unorm,
                usage: USAGE_TEXTURE_BINDING | USAGE_COPY_DST,
                address_mode: AddressMode::Repeat,
                mag_filter: FilterMode::Linear,
                min_filter: FilterMode::Linear,
                mipmap: MipmapOptions::Auto,
                anisotropy: OTHER_ANISOTROPY,
            }
        } else {
            TextureOptions {
                format: TextureFormat::Rgba8UnormSrgb,
                usage: USAGE_TEXTURE_BINDING | USAGE_COPY_DST,
                address_mode: AddressMode::Repeat,
                mag_filter: FilterMode::Linear,
                min_filter: FilterMode::Linear,
                mipmap: MipmapOptions::Auto,
                anisotropy: DIFFUSE_ANISOTROPY,
            }
        }),
        ({
            let l = vstd::utf8::encode_utf8(lowercase(uri@));
            &&& (!has_sub(l, "normal".spec_bytes()) && !has_sub(l, "roughness".spec_bytes())) ==> o.format
                == TextureFormat::Rgba8UnormSrgb
            &&& o.format == TextureFormat::Rgba8Unorm <==> (has_sub(l, "normal".spec_bytes()) || (has_sub(
                l,
                "roughness".spec_bytes(),
            ) && has_sub(l, "metalness".spec_bytes())))
            &&& o.format == TextureFormat::Rgba8Unorm || o.format == TextureFormat::Rgba8UnormSrgb
        }),
{
    proof {
        lemma_texture_linear_names(uri@);
    }
    let lower = to_lowercase(uri);
    let l = lower.as_str().as_bytes();
    let normal = contains_bytes(l, "normal".as_bytes());
    let roughness = contains_bytes(l, "roughness".as_bytes());
    let metalness = contains_bytes(l, "metalness".as_bytes());
    if normal || (roughness && metalness) {
        TextureOptions::texture(TextureFormat::Rgba8Unorm).with_mipmap(
            MipmapOptions::Auto,
            Some(OTHER_ANISOTROPY),
        )
    } else {
        TextureOptions::texture(TextureFormat::Rgba8UnormSrgb).with_mipmap(
            MipmapOptions::Auto,
            Some(DIFFUSE_ANISOTROPY),
        )
    }
}

} // verus!
