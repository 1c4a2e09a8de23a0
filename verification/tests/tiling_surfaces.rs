use orbistoun_gpu::registers::{ImageDescriptor, RegisterWrite, SwizzleMode};
use orbistoun_gpu::tiling::{
    detile_64kb_rx_bpp4, detile_colour_target, detile_image, detile_surface_64kb_rx_bpp4, detile_texture,
    element_bytes, surface_words_64kb_rx_bpp4, tile_surface_64kb_rx_bpp4, tiled_byte_offset_64kb_rx_bpp4 as offset,
    tiled_byte_offset_64kb_rx_bpp4_surface as at, DetileError, SurfaceError,
};

#[test]
fn surface_address_inside_block_zero_is_the_block_swizzle() {
    for (x, y) in [(0, 0), (15, 15), (127, 0), (0, 127), (127, 127), (64, 33)] {
        for width in [128, 129, 1920] {
            assert_eq!(at(x, y, width), offset(x, y) as usize, "({x},{y}) width {width}");
        }
    }
}

#[test]
fn surface_blocks_are_row_major_and_unrotated() {
    assert_eq!(at(128, 0, 1920), 65536);
    assert_eq!(at(0, 128, 1920), 15 * 65536);
    assert_eq!(at(1919, 1079, 1920), (8 * 15 + 14) * 65536 + offset(127, 55) as usize);
    assert_eq!(at(0, 128, 129), 2 * 65536);
    assert_eq!(surface_words_64kb_rx_bpp4(1920, 1080), 135 * 16384);
}

#[test]
fn block_swizzle_equals_the_measured_basis() {
    const X_BASIS: [u32; 7] = [0x4, 0x8, 0x80, 0x100, 0x2200, 0x800, 0x8400];
    const Y_BASIS: [u32; 7] = [0x10, 0x20, 0x40, 0x1100, 0x200, 0x400, 0x4800];
    let fold = |v: u32, basis: &[u32; 7]| (0..7).filter(|b| v >> b & 1 == 1).fold(0, |acc, b| acc ^ basis[b]);
    for y in 0..128 {
        for x in 0..128 {
            assert_eq!(offset(x, y), fold(x, &X_BASIS) ^ fold(y, &Y_BASIS), "({x},{y})");
        }
    }
}

#[test]
fn tile_then_detile_round_trips_a_partial_block_surface() {
    let (width, height) = (300, 150);
    let linear: Vec<u32> = (0..width * height).map(|i: u32| i.wrapping_mul(2_654_435_761)).collect();
    let mut tiled = vec![0u32; surface_words_64kb_rx_bpp4(width, height)];
    tile_surface_64kb_rx_bpp4(&linear, width, height, &mut tiled).expect("tiles");
    assert_eq!(detile_surface_64kb_rx_bpp4(&tiled, width, height).expect("detiles"), linear);
}

#[test]
fn surface_shorter_than_its_blocks_is_refused() {
    let short = vec![0u32; surface_words_64kb_rx_bpp4(300, 150) - 1];
    assert!(matches!(detile_surface_64kb_rx_bpp4(&short, 300, 150), Err(DetileError::TiledDataTooShort { .. })));
    let mut short = short;
    assert!(tile_surface_64kb_rx_bpp4(&vec![0; 300 * 150], 300, 150, &mut short).is_err());
    let mut whole = vec![0u32; surface_words_64kb_rx_bpp4(300, 150)];
    assert!(tile_surface_64kb_rx_bpp4(&[0; 10], 300, 150, &mut whole).is_err());
}

/// Register writes setting colour buffer zero's base (256-byte units), extent and tiling.
fn target_writes(base_256b: u32, attrib2: u32, attrib3: u32) -> Vec<RegisterWrite> {
    let write = |register, value| RegisterWrite { packet_offset: 0, register, value };
    vec![write(0xA318, base_256b), write(0xA3B0, attrib2), write(0xA3B8, attrib3)]
}

#[test]
fn detile_colour_target_reads_the_stream_and_places_the_measured_pixel() {
    const RED: u32 = 0xff00_00ff;
    let base = 0x2_000e_0000u64;
    let window_base = base - 0x400;
    let writes = target_writes(0x0200_0e00, 0x000f_c03f, 0x08c6_c000);
    let mut guest = vec![0u32; 256 + 4096];
    guest[256 + 4348 / 4] = RED;
    let surface = detile_colour_target(&writes, &guest, window_base).expect("detiles");
    assert_eq!((surface.width, surface.height), (64, 64));
    assert_eq!(surface.pixels[(15 * 64 + 15) as usize], RED, "texel (15,15)");
    assert_eq!(surface.pixels.iter().filter(|&&p| p == RED).count(), 1);
}

#[test]
fn detile_colour_target_refuses_incomplete_state() {
    let write = |register, value| RegisterWrite { packet_offset: 0, register, value };
    let writes = vec![write(0xA3B0, 0x000f_c03f), write(0xA3B8, 0x08c6_c000)];
    assert_eq!(detile_colour_target(&writes, &[0u32; 4096], 0), Err(SurfaceError::Incomplete));
}

#[test]
fn detile_colour_target_refuses_a_mode_it_does_not_model() {
    let writes = target_writes(0x0200_0e00, 0x000f_c03f, 0x0000_0000);
    assert_eq!(
        detile_colour_target(&writes, &[0u32; 4096], 0x2_000e_0000),
        Err(SurfaceError::UnsupportedTiling(SwizzleMode::Linear))
    );
}

#[test]
fn detile_colour_target_refuses_a_base_outside_the_window() {
    let writes = target_writes(0x0200_0e00, 0x000f_c03f, 0x08c6_c000);
    let window_base = 0x2_000e_0000u64 + 0x1000;
    match detile_colour_target(&writes, &[0u32; 4096], window_base) {
        Err(SurfaceError::OutsideWindow { base, .. }) => assert_eq!(base, 0x2_000e_0000),
        other => panic!("expected an outside-window refusal, got {other:?}"),
    }
}

#[test]
fn detile_texture_reads_the_descriptor_and_places_the_measured_pixel() {
    const RED: u32 = 0xff00_00ff;
    let base = 0x2_000e_0000u64;
    let window_base = base - 0x400;
    let descriptor = ImageDescriptor { base, width: 64, height: 64, format: 56, tiling: SwizzleMode::Tiled64KbRX };
    let mut guest = vec![0u32; 256 + 4096];
    guest[256 + 4348 / 4] = RED;
    let surface = detile_texture(&descriptor, &guest, window_base).expect("detiles");
    assert_eq!((surface.width, surface.height), (64, 64));
    assert_eq!(surface.pixels[(15 * 64 + 15) as usize], RED, "texel (15,15)");
    assert_eq!(surface.pixels.iter().filter(|&&p| p == RED).count(), 1);
}

#[test]
fn detile_texture_refuses_a_linear_descriptor() {
    let descriptor =
        ImageDescriptor { base: 0x2_000e_0000, width: 64, height: 64, format: 56, tiling: SwizzleMode::Linear };
    assert_eq!(
        detile_texture(&descriptor, &[0u32; 4096], 0x2_000e_0000),
        Err(SurfaceError::UnsupportedTiling(SwizzleMode::Linear))
    );
}

#[test]
fn detile_texture_refuses_a_non_32_bpp_format() {
    let descriptor =
        ImageDescriptor { base: 0x2_000e_0000, width: 64, height: 64, format: 71, tiling: SwizzleMode::Tiled64KbRX };
    assert_eq!(
        detile_texture(&descriptor, &[0u32; 4096], 0x2_000e_0000),
        Err(SurfaceError::Detile(DetileError::UnsupportedFormat { format: 71 })),
    );
}

#[test]
fn the_format_element_size_matches_the_cited_table() {
    assert_eq!(element_bytes(56), Some(4), "8_8_8_8_UNORM");
    assert_eq!(element_bytes(50), Some(4), "2_10_10_10_UNORM");
    assert_eq!(element_bytes(36), Some(4), "10_11_11_FLOAT");
    assert_eq!(element_bytes(19), Some(2), "8_8_SINT, just below the block");
    assert_eq!(element_bytes(62), Some(8), "32_32_UINT, just above it");
    assert_eq!(element_bytes(71), Some(8), "16_16_16_16_FLOAT");
    assert_eq!(element_bytes(130), Some(4), "8_8_8_8_SRGB");
    assert_eq!(element_bytes(169), None, "BC1_UNORM is refused, not sized");
    assert_eq!(element_bytes(0), None, "INVALID is refused");
}

#[test]
fn the_measured_byte_and_the_model_agreed_second_point() {
    assert_eq!(offset(15, 15), 4348, "the one measured byte");
    assert_eq!(offset(15, 15), 0x10fc);
    assert_eq!(offset(32, 21), 2640, "the point the software tiler computes, reproduced");
    assert_eq!(offset(32, 21), 0xa50);
    assert_ne!(offset(32, 21), 4348, "and not 4348");
}

#[test]
fn the_origin_is_zero_and_offsets_are_element_aligned() {
    assert_eq!(offset(0, 0), 0);
    for x in 0..16 {
        for y in 0..16 {
            assert_eq!(offset(x, y) & 0x3, 0, "texel ({x},{y}) is element-aligned");
        }
    }
}

#[test]
fn the_swizzle_is_a_bijection_over_the_block() {
    let mut seen = std::collections::HashSet::new();
    for y in 0..128 {
        for x in 0..128 {
            assert!(seen.insert(offset(x, y)), "texel ({x},{y}) collides");
        }
    }
    assert_eq!(seen.len(), 128 * 128);
}

#[test]
fn detile_returns_each_texel_to_its_linear_place() {
    let (width, height) = (16u32, 16u32);
    let mut needed = 0usize;
    for y in 0..height {
        for x in 0..width {
            needed = needed.max(offset(x, y) as usize / 4 + 1);
        }
    }
    let mut tiled = vec![0u32; needed];
    for y in 0..height {
        for x in 0..width {
            tiled[offset(x, y) as usize / 4] = (y << 16) | x;
        }
    }
    let linear = detile_64kb_rx_bpp4(&tiled, width, height).expect("fits in one block");
    for y in 0..height {
        for x in 0..width {
            assert_eq!(linear[(y * width + x) as usize], (y << 16) | x, "texel ({x},{y}) landed wrong");
        }
    }
}

#[test]
fn the_measured_pixel_detiles_to_its_linear_index() {
    const RED: u32 = 0xff00_00ff;
    let (width, height) = (64u32, 64u32);
    let mut tiled = vec![0u32; 4096];
    tiled[4348 / 4] = RED;
    let linear = detile_64kb_rx_bpp4(&tiled, width, height).expect("64x64 fits in one block");
    assert_eq!(linear[(15 * width + 15) as usize], RED, "texel (15,15)");
    assert_eq!(linear.iter().filter(|&&p| p == RED).count(), 1, "only the measured texel is red");
}

#[test]
fn a_surface_beyond_one_block_is_refused() {
    let tiled = vec![0u32; 16384];
    assert_eq!(detile_64kb_rx_bpp4(&tiled, 129, 64), Err(DetileError::SurfaceExceedsBlock { width: 129, height: 64 }));
}

#[test]
fn tiled_data_too_short_is_refused() {
    let tiled = vec![0u32; 8];
    match detile_64kb_rx_bpp4(&tiled, 64, 64) {
        Err(DetileError::TiledDataTooShort { got_words, .. }) => assert_eq!(got_words, 8),
        other => panic!("expected a too-short refusal, got {other:?}"),
    }
}

#[test]
fn detile_image_refuses_a_non_32_bpp_format_and_detiles_a_32_bpp_one() {
    let descriptor = ImageDescriptor { base: 0, width: 64, height: 64, format: 19, tiling: SwizzleMode::Tiled64KbRX };
    assert_eq!(detile_image(&descriptor, &[0u32; 4096]), Err(DetileError::UnsupportedFormat { format: 19 }));
    let mut tiled = vec![0u32; 4096];
    tiled[4348 / 4] = 7;
    let described = ImageDescriptor { format: 56, ..descriptor };
    let linear = detile_image(&described, &tiled).expect("detiles");
    assert_eq!(linear[15 * 64 + 15], 7);
}

#[test]
fn a_texture_past_the_window_is_refused_by_the_detile() {
    let descriptor =
        ImageDescriptor { base: 0x1000, width: 64, height: 64, format: 56, tiling: SwizzleMode::Tiled64KbRX };
    assert_eq!(
        detile_texture(&descriptor, &[0u32; 16], 0x1000),
        Err(SurfaceError::Detile(DetileError::TiledDataTooShort { needed_words: 4096, got_words: 16 }))
    );
    assert!(matches!(
        detile_texture(&descriptor, &[0u32; 16], 0),
        Err(SurfaceError::OutsideWindow { window_words: 16, .. })
    ));
}

#[test]
fn tiling_with_a_map_is_tiling_the_mapped_image() {
    let (width, height) = (130u32, 3u32);
    let linear: Vec<u32> = (0..width * height).map(|i| i.wrapping_mul(0x0101_0101)).collect();
    let swap = |w: u32| w.rotate_left(8);
    let needed = orbistoun_gpu::tiling::surface_words_64kb_rx_bpp4(width, height);
    let mut mapped = vec![0xDEAD_BEEFu32; needed];
    let mut plain = mapped.clone();
    orbistoun_gpu::tiling::tile_surface_64kb_rx_bpp4_mapped(&linear, width, height, &mut mapped, swap).unwrap();
    let swapped: Vec<u32> = linear.iter().map(|w| swap(*w)).collect();
    orbistoun_gpu::tiling::tile_surface_64kb_rx_bpp4(&swapped, width, height, &mut plain).unwrap();
    assert_eq!(mapped, plain);
}
