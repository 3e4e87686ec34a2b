use mere::depth_pyramid::{half_next_power_of_two, max_mips_2d, next_power_of_two, DepthPyramidPlan, DepthPyramids};
use mere::packing::{pack_10_10_10_2, pack_11_11_10, pack_16_16};
use mere::render_plan::{
    choose_surface_format, clear_dispatch, cluster_info_size, div_ceil, frame_action, initial_indirect_cluster_args,
    initial_indirect_draw_args, initial_visible_cluster_count, is_exit_key, material_draw_range,
    rightmost_slot, should_prepare, DebugMode, FrameAction, FrameError, KeyCode, Layout, LayoutEntry,
    MovementKeys, SurfaceStatus, CLUSTER_SLOTS,
};
use mere::texture::{
    bit_length, contains_bytes, default_textures, mip_uploads, texel_layout, texture_options,
    AddressMode, FilterMode, MipmapFilterMode, MipmapOptions, TexelLayout, TextureError, TextureFormat,
    TextureOptions, MIPMAP_LEVEL_BOUND, USAGE_COPY_DST, USAGE_RENDER_ATTACHMENT, USAGE_TEXTURE_BINDING,
};

#[test]
fn auto_mipmaps_are_sized_to_the_image() {
    let mut m = MipmapOptions::Auto;
    m.try_auto_generate(1024, 512);
    assert_eq!(m, MipmapOptions::Custom { levels: 11, filter: MipmapFilterMode::Linear });
    assert_eq!(m.levels(), 11);

    let mut m = MipmapOptions::AutoWithFilter { filter: MipmapFilterMode::Nearest };
    m.try_auto_generate(3, 5);
    assert_eq!(m, MipmapOptions::Custom { levels: 3, filter: MipmapFilterMode::Nearest });

    let mut m = MipmapOptions::Auto;
    m.try_auto_generate(0, 0);
    assert_eq!(m.levels(), 1);

    let mut m = MipmapOptions::Disabled;
    m.try_auto_generate(64, 64);
    assert_eq!(m, MipmapOptions::Disabled);
    assert_eq!(m.levels(), 1);
    assert_eq!(m.filter(), MipmapFilterMode::Nearest);
    assert_eq!(MipmapOptions::Auto.levels(), MIPMAP_LEVEL_BOUND);
    assert_eq!(MipmapOptions::Auto.filter(), MipmapFilterMode::Linear);
}

#[test]
fn bit_lengths() {
    assert_eq!(bit_length(0), 0);
    assert_eq!(bit_length(1), 1);
    assert_eq!(bit_length(255), 8);
    assert_eq!(bit_length(256), 9);
    assert_eq!(bit_length(u32::MAX), 32);
}

#[test]
fn texture_option_builders() {
    let d = TextureOptions::default();
    assert_eq!(d.format, TextureFormat::Rgba8Unorm);
    assert_eq!(d.usage, 0);
    assert_eq!(d.anisotropy, 1);
    let t = TextureOptions::texture(TextureFormat::R8Unorm)
        .with_address_mode(AddressMode::MirrorRepeat)
        .with_mag_min_filter(FilterMode::Nearest, FilterMode::Linear)
        .with_mipmap(MipmapOptions::Auto, None)
        .with_usage(USAGE_COPY_DST)
        .with_format(TextureFormat::Rg8Unorm);
    assert_eq!(t.format, TextureFormat::Rg8Unorm);
    assert_eq!(t.usage, USAGE_COPY_DST);
    assert_eq!(t.address_mode, AddressMode::MirrorRepeat);
    assert_eq!(t.mag_filter, FilterMode::Nearest);
    assert_eq!(t.min_filter, FilterMode::Linear);
    assert_eq!(t.anisotropy, 1);
    let depth = TextureOptions::depth();
    assert_eq!(depth.format, TextureFormat::Depth32Float);
    assert_eq!(depth.usage, USAGE_RENDER_ATTACHMENT | USAGE_TEXTURE_BINDING);
    assert_eq!(depth.address_mode, AddressMode::ClampToEdge);
}

#[test]
fn scene_texture_options_by_name() {
    let normal = texture_options("Brick_NormalMap.PNG");
    assert_eq!(normal.format, TextureFormat::Rgba8Unorm);
    assert_eq!(normal.mipmap, MipmapOptions::Auto);
    assert_eq!(normal.anisotropy, 8);
    let rm = texture_options("sponza_roughness_metalness.png");
    assert_eq!(rm.format, TextureFormat::Rgba8Unorm);
    let only_rough = texture_options("sponza_roughness.png");
    assert_eq!(only_rough.format, TextureFormat::Rgba8UnormSrgb);
    let diffuse = texture_options("Diffuse.png");
    assert_eq!(diffuse.format, TextureFormat::Rgba8UnormSrgb);
    assert_eq!(diffuse.address_mode, AddressMode::Repeat);
}

#[test]
fn byte_search() {
    assert!(contains_bytes(b"abcabd", b"abd"));
    assert!(!contains_bytes(b"abcabc", b"abd"));
    assert!(contains_bytes(b"abc", b""));
    assert!(!contains_bytes(b"ab", b"abc"));
}

#[test]
fn texel_layouts() {
    assert_eq!(texel_layout(TextureFormat::R8Uint), Ok((TexelLayout::Luma8, 1)));
    assert_eq!(texel_layout(TextureFormat::Rg8Snorm), Ok((TexelLayout::LumaAlpha8, 2)));
    assert_eq!(texel_layout(TextureFormat::Rgba8UnormSrgb), Ok((TexelLayout::Rgba8, 4)));
    assert_eq!(
        texel_layout(TextureFormat::Depth32Float),
        Err(TextureError::InvalidFormat(TextureFormat::Depth32Float))
    );
}

#[test]
fn mip_chain_extents() {
    let ups = mip_uploads(4, 2, 4, 4);
    let e: Vec<(u32, u32, u32, u32)> =
        ups.iter().map(|u| (u.level, u.width, u.height, u.bytes_per_row)).collect();
    assert_eq!(e, vec![(0, 4, 2, 16), (1, 2, 1, 8), (2, 1, 1, 4), (3, 1, 1, 4)]);
}

#[test]
fn default_texture_table() {
    let t = default_textures();
    assert_eq!(t[0].0, 0);
    assert_eq!(t[0].1, "mere_default_white_texture");
    assert_eq!(t[0].2, [0xff; 16]);
    assert_eq!(t[1].0, 1);
    assert_eq!(t[1].2[4..8], [0, 0, 0, 0xff]);
}

#[test]
fn powers_of_two() {
    assert_eq!(next_power_of_two(0), 1);
    assert_eq!(next_power_of_two(1), 1);
    assert_eq!(next_power_of_two(5), 8);
    assert_eq!(next_power_of_two(8), 8);
    assert_eq!(next_power_of_two(0x8000_0000), 0x8000_0000);
    assert_eq!(half_next_power_of_two(1921), 1024);
    assert_eq!(half_next_power_of_two(1), 0);
    assert_eq!(max_mips_2d(1024, 512), 11);
    assert_eq!(max_mips_2d(0, 0), 0);
}

#[test]
fn depth_pyramid_for_a_full_hd_screen() {
    let p = DepthPyramidPlan::new(1920, 1080);
    assert_eq!((p.width, p.height, p.mip_count), (1024, 1024, 11));
    assert_eq!(p.virtual_size(), (2048, 2048));
    assert_eq!(p.downsample_dispatch(), (32, 32, true));
    assert_eq!(p.mip_view(10), Some(10));
    assert_eq!(p.mip_view(11), None);
    let q = DepthPyramidPlan::new(1024, 768);
    assert_eq!((q.width, q.height), (1024, 512));
    let b = DepthPyramidPlan::below(1024, 768);
    assert_eq!((b.width, b.height, b.mip_count), (512, 512, 10));
}

#[test]
fn small_pyramid_skips_the_second_pass() {
    let p = DepthPyramidPlan::new(40, 30);
    assert_eq!((p.width, p.height, p.mip_count), (32, 16, 6));
    assert_eq!(p.downsample_dispatch(), (1, 1, false));
}

#[test]
fn attribute_packing() {
    assert_eq!(pack_11_11_10(1, 2, 3), 1 | (2 << 11) | (3 << 22));
    assert_eq!(pack_11_11_10(0x7ff, 0x7ff, 0x3ff), u32::MAX);
    assert_eq!(pack_10_10_10_2(1, 2, 3, 1), 1 | (2 << 10) | (3 << 20) | (1 << 30));
    assert_eq!(pack_10_10_10_2(0, 0, 0, 7), 3 << 30);
    assert_eq!(pack_16_16(0x3c00, 0x4000), 0x4000_3c00);
    let w = pack_11_11_10(100, 200, 300);
    assert_eq!((w & 0x7ff, (w >> 11) & 0x7ff, w >> 22), (100, 200, 300));
}

#[test]
fn surface_statuses() {
    assert_eq!(frame_action(SurfaceStatus::Success), Ok(FrameAction { render: true, reconfigure: false }));
    assert_eq!(frame_action(SurfaceStatus::Suboptimal), Ok(FrameAction { render: true, reconfigure: true }));
    assert_eq!(frame_action(SurfaceStatus::Occluded), Ok(FrameAction { render: false, reconfigure: false }));
    assert_eq!(frame_action(SurfaceStatus::Outdated), Ok(FrameAction { render: false, reconfigure: true }));
    assert_eq!(frame_action(SurfaceStatus::Lost), Err(FrameError::DeviceLost));
}

#[test]
fn dispatch_sizes() {
    assert_eq!(div_ceil(0, 16), 0);
    assert_eq!(div_ceil(17, 16), 2);
    assert_eq!(div_ceil(u32::MAX, 2), 0x8000_0000);
    assert_eq!(clear_dispatch(1920, 1080), (120, 68, 1));
    assert_eq!(material_draw_range(5), (15, 18));
    assert!(should_prepare(1, 1));
    assert!(!should_prepare(0, 1));
    assert!(!should_prepare(1, 0));
}

#[test]
fn cluster_buffers() {
    assert_eq!(cluster_info_size(CLUSTER_SLOTS), 8 * 1048576);
    assert_eq!(rightmost_slot(CLUSTER_SLOTS), 1048575);
    assert_eq!(initial_visible_cluster_count(), vec![0, 0, 0, 0]);
    assert_eq!(initial_indirect_cluster_args(), vec![0, 0, 0, 0, 1, 0, 0, 0, 1, 0, 0, 0]);
    let draw = initial_indirect_draw_args();
    assert_eq!(&draw[0..4], &384u32.to_le_bytes());
    assert_eq!(draw.len(), 16);
}

#[test]
fn debug_mode_names() {
    assert_eq!(DebugMode::default(), DebugMode::CLUSTERS);
    assert_eq!(DebugMode::SHADED.name(), "Shaded");
    assert_eq!(DebugMode::MATERIALS.name(), "Materials");
    assert_eq!(DebugMode::CLUSTERS.name(), "Clusters");
}

#[test]
fn movement_keys() {
    let mut m = MovementKeys::new();
    assert!(m.handle_key(KeyCode::KeyW, true));
    assert!(m.handle_key(KeyCode::ArrowLeft, true));
    assert!(m.handle_key(KeyCode::PageUp, true));
    assert!(!m.handle_key(KeyCode::Other, true));
    assert_eq!(m.axes(), (1, -1, 1));
    m.handle_key(KeyCode::KeyS, true);
    m.handle_key(KeyCode::KeyW, false);
    assert_eq!(m.axes(), (-1, -1, 1));
    assert!(is_exit_key(KeyCode::Escape, true));
    assert!(!is_exit_key(KeyCode::Escape, false));
}

#[test]
fn layouts_number_their_bindings() {
    let mut l = Layout::sequential(Some("x"), 4, &['a', 'b', 'c']);
    l.with(LayoutEntry { binding: 99, visibility: 2, ty: 'd' });
    let b: Vec<(u32, u32, char)> = l.entries.iter().map(|e| (e.binding, e.visibility, e.ty)).collect();
    assert_eq!(b, vec![(0, 4, 'a'), (1, 4, 'b'), (2, 4, 'c'), (3, 2, 'd')]);
    assert_eq!(l.label, Some("x"));
}

#[test]
fn candidate_buffer_reuse() {
    assert_eq!(mere::render_plan::candidates_buffer(None, 10), Some(40));
    assert_eq!(mere::render_plan::candidates_buffer(Some(40), 10), None);
    assert_eq!(mere::render_plan::candidates_buffer(Some(39), 10), Some(40));
}

#[test]
fn resource_memory_sums_everything() {
    let n = mere::render_plan::resource_memory_device([1, 2, 3, 4], Some(5), 10, 20, [6, 7, 8], Some([9, 10, 11]));
    assert_eq!(n, 1 + 2 + 3 + 4 + 5 + 8 * 200 + 200 + 6 + 7 + 8 + 9 + 10 + 11);
    let m = mere::render_plan::resource_memory_device([0; 4], None, 1, 1, [0; 3], None);
    assert_eq!(m, 9);
}

#[test]
fn depth_pyramids_trade_places_each_frame() {
    let mut p = DepthPyramids { current: DepthPyramidPlan::new(64, 32), previous: DepthPyramidPlan::new(16, 16) };
    let (cur, prev) = (p.current.virtual_size(), p.previous.virtual_size());
    p.begin_frame();
    assert_eq!(p.current.virtual_size(), prev);
    assert_eq!(p.previous.virtual_size(), cur);
    p.begin_frame();
    assert_eq!(p.current.virtual_size(), cur);
}

#[test]
fn surface_format_is_the_first_srgb_one() {
    assert_eq!(choose_surface_format(&[false, true, true]), 1);
    assert_eq!(choose_surface_format(&[true]), 0);
    assert_eq!(choose_surface_format(&[false, false]), 0);
}
