use orbistoun_gpu::backend::{Rect, RenderCommand, ShaderStage};
use orbistoun_gpu::pipeline::{draw_binds, submission_commands, Queue};
use orbistoun_gpu::packet::walk;
use orbistoun_gpu::registers::{
    blend_control_at, buffer_descriptor_at, colour_swizzle_mode_at, colour_target_at, colour_target_bases_in,
    colour_target_extent_at, colour_target_format_at, correlate_draws, decode_blend_control, decode_blend_factor,
    decode_buffer_descriptor, decode_colour_swizzle_mode, decode_colour_target_extent, decode_colour_target_format,
    decode_combine_func, decode_depth_control, decode_image_descriptor, decode_primitive_topology, decode_scissor,
    decode_stencil_control, decode_target_mask, depth_control_at, dispatch_calls, draw_calls,
    primitive_topology_at, register_writes, scissor_at, shader_candidates, shader_candidates_before,
    stencil_control_at, target_mask_at, viewport_words_at, wave_widths_at, BlendFactor, BufferDescriptor,
    ColourTarget, ColourTargetExtent, CombineFunc, CompareFunc, ComponentSwap, DispatchCall, DrawKind,
    DrawOrDispatch, ImageDescriptor, PrimitiveTopology, RegisterSweep, RegisterWrite, Scissor, StencilOp,
    SwizzleMode, Vocabulary, VocabularyError, WaveWidths,
};

fn stream(words: &[u32]) -> Vec<u8> {
    words.iter().flat_map(|w| w.to_le_bytes()).collect()
}

fn command(opcode: u8, body_dwords: u32) -> u32 {
    (3 << 30) | ((body_dwords - 1) << 16) | (u32::from(opcode) << 8)
}

fn register_packet(base: u16, body_dwords: u32) -> u32 {
    ((body_dwords - 1) << 16) | u32::from(base)
}

/// `SET_SH_REG` writing from `0x2C00`, with the fragment stage's address at `0x2C0C`/`0x2C0D`.
fn vocabulary() -> Vocabulary {
    Vocabulary::from_entries(
        vec![(0x76, "SET_SH_REG".to_string())],
        vec![(0x76, 0x2C00)],
        vec![
            (0x2C0C, "fragment".to_string(), "low".to_string()),
            (0x2C0D, "fragment".to_string(), "high".to_string()),
        ],
    )
    .expect("vocabulary")
}

fn write(register: u32, value: u32) -> RegisterWrite {
    RegisterWrite { packet_offset: 0, register, value }
}

#[test]
fn the_sweep_gives_each_registers_latest_earlier_write() {
    let at = |packet_offset, register, value| RegisterWrite { packet_offset, register, value };
    let writes = [at(0, 0xA1E0, 1), at(4, 0x2C8C, 2), at(8, 0xA1E0, 3), at(12, 0x1_0005, 4)];
    let mut sweep = RegisterSweep::new(&writes);
    assert_eq!(sweep.latest(0, 0xA1E0), None, "a write in the packet itself is not before it");
    assert_eq!(sweep.latest(8, 0xA1E0), Some(1));
    assert_eq!(sweep.latest(9, 0xA1E0), Some(3));
    assert_eq!(sweep.latest(9, 0x2C8C), Some(2));
    assert_eq!(sweep.latest(13, 0x1_0005), Some(4));
    assert_eq!(sweep.latest(5, 0xA1E0), Some(1));
    assert_eq!(sweep.latest(5, 0x1_0005), None);
    let among = sweep.before_among(13, &[0x1_0005, 0xA1E0, 0x2C8C]);
    let values: Vec<u32> = among.iter().map(|w| w.value).collect();
    assert_eq!(values, [2, 3, 4], "in the order they were made");
}

#[test]
fn a_reused_sweep_table_remembers_nothing_of_the_last_stream() {
    let at = |packet_offset, register, value| RegisterWrite { packet_offset, register, value };
    let first = [at(0, 0xA1E0, 7), at(4, 0x2C8C, 8)];
    {
        let mut sweep = RegisterSweep::new(&first);
        assert_eq!(sweep.latest(8, 0xA1E0), Some(7));
        assert_eq!(sweep.latest(8, 0x2C8C), Some(8));
    }
    let second = [at(0, 0x2C8C, 9)];
    let mut sweep = RegisterSweep::new(&second);
    assert_eq!(sweep.latest(8, 0xA1E0), None, "the last stream's write is not this one's");
    assert_eq!(sweep.latest(8, 0x2C8C), Some(9));
}

#[test]
fn a_sweep_names_a_register_twice_when_asked_twice() {
    let writes = [write(0xA1E0, 1), write(0xA1E1, 2)];
    let mut sweep = RegisterSweep::new(&writes);
    let among = sweep.before_among(1, &[0xA1E1, 0xA1E0, 0xA1E1, 0x1234]);
    let values: Vec<u32> = among.iter().map(|w| w.value).collect();
    assert_eq!(values, [1, 2, 2]);
}

#[test]
fn wave_widths_read_each_stages_own_bit() {
    assert_eq!(wave_widths_at(&[]), WaveWidths::default());
    let gl = [write(0xA2D5, 0x00c1_2010), write(0xA1B6, 0x0000_8002)];
    assert_eq!(wave_widths_at(&gl), WaveWidths { primitive_w32: true, pixel_w32: true });
    let vs_only = [write(0xA2D5, 1 << 23), write(0xA1B6, 0x0000_0002)];
    assert_eq!(wave_widths_at(&vs_only), WaveWidths::default());
    let fixture = [write(0xA2D5, 0x00c1_2010), write(0xA2D5, 0x0200_2000)];
    assert!(!wave_widths_at(&fixture).primitive_w32);
}

#[test]
fn colour_target_info_decodes_format_number_and_swap() {
    let measured = decode_colour_target_format(0x0001_80a8);
    assert_eq!((measured.format, measured.number_type, measured.swap), (10, 0, ComponentSwap::Standard));
    assert!(measured.is_rgba8_class());
    let alternate = decode_colour_target_format(0x0001_80a8 | (1 << 11));
    assert_eq!(alternate.swap, ComponentSwap::Alternate);
    assert!(alternate.is_rgba8_class());
    assert!(!decode_colour_target_format(0x0001_80a8 | (2 << 11)).is_rgba8_class());
    assert!(!decode_colour_target_format(0x0001_80a8 | (1 << 8)).is_rgba8_class());
    assert!(!decode_colour_target_format(0x0001_8000 | (12 << 2)).is_rgba8_class());
}

#[test]
fn the_colour_target_format_reads_the_live_register() {
    assert_eq!(colour_target_format_at(&[write(0xA31C, 0x0001_80a8)]).map(|f| f.swap), Some(ComponentSwap::Standard));
    assert!(colour_target_format_at(&[write(0xA000, 0x0001_80a8)]).is_none());
    assert_eq!(decode_colour_target_format(3 << 11).swap, ComponentSwap::Other(3));
}

#[test]
fn distinct_colour_target_bases_are_counted_once_each() {
    assert_eq!(colour_target_bases_in(&[]), 0);
    let writes = [write(0xA318, 5), write(0xA000, 6), write(0xA318, 5), write(0xA318, 7)];
    assert_eq!(colour_target_bases_in(&writes), 2);
}

#[test]
fn the_topology_decodes_and_reads_the_live_register() {
    assert_eq!(decode_primitive_topology(0), PrimitiveTopology::PointList);
    assert_eq!(decode_primitive_topology(2), PrimitiveTopology::TriangleStrip);
    assert_eq!(decode_primitive_topology(0x43), PrimitiveTopology::RectangleList);
    assert_eq!(decode_primitive_topology(9), PrimitiveTopology::Other(9));
    assert_eq!(primitive_topology_at(&[write(0xA29B, 0), write(0xA29B, 2)]), Some(PrimitiveTopology::TriangleStrip));
    assert_eq!(primitive_topology_at(&[write(0xA000, 2)]), None);
    assert_eq!(PrimitiveTopology::TriangleStrip.label(), "triangle strip");
    assert_eq!(PrimitiveTopology::Other(42).label(), "VGT_GS_OUTPRIM_TYPE 42");
}

#[test]
fn an_undefined_topology_is_named_in_decimal_without_leading_zeros() {
    assert_eq!(PrimitiveTopology::Other(0).label(), "VGT_GS_OUTPRIM_TYPE 0");
    assert_eq!(PrimitiveTopology::Other(10).label(), "VGT_GS_OUTPRIM_TYPE 10");
    assert_eq!(PrimitiveTopology::Other(u32::MAX).label(), "VGT_GS_OUTPRIM_TYPE 4294967295");
}

#[test]
fn the_viewport_transform_is_read_with_its_sign() {
    let at = |register, value: f32, packet_offset| RegisterWrite { packet_offset, register, value: value.to_bits() };
    let mut writes =
        vec![at(0xA10F, 960.0, 8), at(0xA110, 960.0, 8), at(0xA111, -540.0, 8), at(0xA112, 540.0, 8)];
    let (xs, xo, ys, yo) = viewport_words_at(&writes, 100).expect("all four were written");
    assert_eq!(
        (f32::from_bits(xs), f32::from_bits(xo), f32::from_bits(ys), f32::from_bits(yo)),
        (960.0, 960.0, -540.0, 540.0)
    );
    assert!(viewport_words_at(&writes, 8).is_none(), "not before the writes");
    writes.push(RegisterWrite { packet_offset: 20, register: 0xA206, value: 0x430 });
    assert!(viewport_words_at(&writes, 100).is_none());
}

#[test]
fn a_type_zero_packet_writes_consecutive_registers_from_its_header() {
    let bytes = stream(&[register_packet(0x30, 3), 0xAAAA, 0xBBBB, 0xCCCC]);
    let writes = register_writes(&walk(&bytes), &bytes, &vocabulary());
    assert_eq!(writes.len(), 3);
    assert_eq!(writes[0].register, 0x30);
    assert_eq!(writes[1].register, 0x31);
    assert_eq!(writes[2].value, 0xCCCC);
}

#[test]
fn a_set_register_packet_takes_its_index_from_the_first_body_word() {
    let bytes = stream(&[command(0x76, 3), 0x0C, 0x1111, 0x2222]);
    let writes = register_writes(&walk(&bytes), &bytes, &vocabulary());
    assert_eq!(writes.len(), 2, "the index word is not a value");
    assert_eq!(writes[0].register, 0x2C0C, "base plus index");
    assert_eq!(writes[0].value, 0x1111);
    assert_eq!(writes[1].register, 0x2C0D);
}

#[test]
fn a_packet_the_vocabulary_does_not_know_writes_nothing() {
    let bytes = stream(&[command(0x2D, 2), 0x00, 0x1111]);
    let writes = register_writes(&walk(&bytes), &bytes, &vocabulary());
    assert!(writes.is_empty());
}

#[test]
fn both_halves_reassemble_into_one_address() {
    let bytes = stream(&[command(0x76, 3), 0x0C, 0x8000_0000, 0x0000_00FF]);
    let walked = walk(&bytes);
    let writes = register_writes(&walked, &bytes, &vocabulary());
    let candidates = shader_candidates(&writes, &vocabulary());
    assert_eq!(candidates.len(), 1);
    assert_eq!(candidates[0].stage, "fragment");
    assert_eq!(candidates[0].address, 0x0000_FF80_0000_0000);
}

#[test]
fn a_lone_half_produces_no_candidate() {
    let bytes = stream(&[command(0x76, 2), 0x0C, 0x8000_0000]);
    let walked = walk(&bytes);
    let writes = register_writes(&walked, &bytes, &vocabulary());
    assert!(shader_candidates(&writes, &vocabulary()).is_empty());
}

#[test]
fn a_later_bind_replaces_an_earlier_one() {
    let bytes = stream(&[
        command(0x76, 3),
        0x0C,
        0x1111_1111,
        0x0000_0001,
        command(0x76, 3),
        0x0C,
        0x2222_2222,
        0x0000_0002,
    ]);
    let walked = walk(&bytes);
    let writes = register_writes(&walked, &bytes, &vocabulary());
    let candidates = shader_candidates(&writes, &vocabulary());
    assert_eq!(candidates.len(), 1);
    assert_eq!(candidates[0].address, 0x0000_0222_2222_2200);
}

#[test]
fn a_draw_between_two_binds_sees_the_first() {
    let bytes = stream(&[
        command(0x76, 3),
        0x0C,
        0x1111_1111,
        0x0000_0001,
        command(0x76, 3),
        0x0C,
        0x2222_2222,
        0x0000_0002,
    ]);
    let walked = walk(&bytes);
    let writes = register_writes(&walked, &bytes, &vocabulary());
    let second_bind = walked.packets[1].offset;
    let between = shader_candidates_before(&writes, &vocabulary(), second_bind);
    assert_eq!(between.len(), 1);
    assert_eq!(between[0].address, 0x0000_0111_1111_1100, "the first bind");
    let after = shader_candidates_before(&writes, &vocabulary(), u32::MAX);
    assert_eq!(after[0].address, 0x0000_0222_2222_2200, "the second bind");
    assert!(shader_candidates_before(&writes, &vocabulary(), 0).is_empty());
}

#[test]
fn each_draw_is_correlated_with_the_shader_live_when_it_issued() {
    let bytes = stream(&[
        command(0x76, 3),
        0x0C,
        0x0000_00A0,
        0x0000_0000,
        command(0x2D, 2),
        3,
        0,
        command(0x76, 3),
        0x0C,
        0x0000_00B0,
        0x0000_0000,
        command(0x2D, 2),
        6,
        0,
    ]);
    let correlations = correlate_draws(&walk(&bytes), &bytes, &vocabulary());
    assert_eq!(correlations.len(), 2, "two draws");
    let DrawOrDispatch::Draw(first) = correlations[0].work else {
        panic!("first is a draw");
    };
    assert_eq!(first.kind, DrawKind::Auto { vertices: 3 });
    assert_eq!(correlations[0].shaders.len(), 1);
    assert_eq!(correlations[0].shaders[0].stage, "fragment");
    assert_eq!(correlations[0].shaders[0].address, 0xA000, "the first bind");
    let DrawOrDispatch::Draw(second) = correlations[1].work else {
        panic!("second is a draw");
    };
    assert_eq!(second.kind, DrawKind::Auto { vertices: 6 });
    assert_eq!(correlations[1].shaders[0].address, 0xB000, "the rebind, not the first");
}

#[test]
fn a_draw_before_any_shader_bind_correlates_to_no_shader() {
    let bytes = stream(&[command(0x2D, 2), 3, 0, command(0x76, 3), 0x0C, 0x0000_00A0, 0x0000_0000]);
    let correlations = correlate_draws(&walk(&bytes), &bytes, &vocabulary());
    assert_eq!(correlations.len(), 1);
    assert!(correlations[0].shaders.is_empty(), "a later bind is not live at an earlier draw");
}

#[test]
fn a_dispatch_and_a_draw_are_correlated_in_stream_order() {
    let bytes = stream(&[
        command(0x76, 3),
        0x0C,
        0x0000_00A0,
        0x0000_0000,
        command(0x15, 4),
        2,
        3,
        4,
        0,
        command(0x2D, 2),
        3,
        0,
    ]);
    let correlations = correlate_draws(&walk(&bytes), &bytes, &vocabulary());
    assert_eq!(correlations.len(), 2);
    assert!(matches!(correlations[0].work, DrawOrDispatch::Dispatch(_)), "the dispatch sits first in the stream");
    assert!(matches!(correlations[1].work, DrawOrDispatch::Draw(_)));
    assert_eq!(correlations[0].shaders[0].address, 0xA000);
    assert_eq!(correlations[1].shaders[0].address, 0xA000);
}

#[test]
fn a_dispatch_after_a_draw_is_ordered_after_it() {
    let bytes = stream(&[command(0x2D, 2), 3, 0, command(0x15, 4), 1, 1, 1, 0, command(0x2D, 2), 6, 0]);
    let correlations = correlate_draws(&walk(&bytes), &bytes, &vocabulary());
    let offsets: Vec<u32> = correlations.iter().map(|c| c.work.packet_offset()).collect();
    assert_eq!(offsets, [0, 12, 32]);
    assert!(matches!(correlations[1].work, DrawOrDispatch::Dispatch(_)));
}

#[test]
fn a_half_that_is_neither_low_nor_high_is_refused() {
    let result =
        Vocabulary::from_entries(vec![], vec![], vec![(0x2C0C, "fragment".to_string(), "middle".to_string())]);
    assert!(result.is_err());
    match result {
        Err(VocabularyError::Invalid(message)) => {
            assert!(message.contains("0x2c0c") && message.contains("\"middle\""), "{message}");
        }
        other => panic!("expected an invalid-entry refusal, got {other:?}"),
    }
}

#[test]
fn a_vocabulary_names_what_its_entries_name() {
    let vocabulary = vocabulary();
    assert_eq!(vocabulary.opcode_name(0x76), Some("SET_SH_REG"));
    assert_eq!(vocabulary.opcode_name(0xFE), None);
    assert_eq!(vocabulary.register_base(0x76), Some(0x2C00));
    assert_eq!(vocabulary.shader_register_count(), 2);
    assert_eq!(vocabulary.shader_register_ids(), vec![0x2C0C, 0x2C0D]);
    assert_eq!(vocabulary.opcode_for_register(0x2C0D), Some((0x76, 0x2C00)));
    assert_eq!(vocabulary.opcode_for_register(0x2BFF), None);
}

#[test]
fn an_auto_draw_reads_its_vertices_and_the_running_instance_count() {
    let bytes = stream(&[command(0x2F, 1), 2, command(0x2D, 2), 3, 0]);
    let draws = draw_calls(&walk(&bytes), &bytes);
    assert_eq!(draws.len(), 1);
    assert_eq!(draws[0].instances, 2);
    assert_eq!(draws[0].kind, DrawKind::Auto { vertices: 3 });
}

#[test]
fn a_draw_with_no_instance_count_before_it_draws_one() {
    let bytes = stream(&[command(0x2D, 2), 3, 0]);
    assert_eq!(draw_calls(&walk(&bytes), &bytes)[0].instances, 1);
}

#[test]
fn an_indexed_draw_is_decoded_from_its_own_measured_body() {
    let address: u64 = 0x1_2345_6780;
    let lo = u32::try_from(address & 0xffff_ffff).unwrap();
    let hi = u32::try_from(address >> 32).unwrap();
    let bytes = stream(&[command(0x2F, 1), 4, command(0x27, 5), 0, lo, hi, 36, 0]);
    let draws = draw_calls(&walk(&bytes), &bytes);
    assert_eq!(draws.len(), 1, "the indexed draw is a draw, not nothing");
    assert_eq!(draws[0].instances, 4);
    assert_eq!(draws[0].kind, DrawKind::Indexed { indices: 36, address });
}

#[test]
fn a_short_indexed_draw_is_dropped_rather_than_read_past() {
    let bytes = stream(&[command(0x27, 2), 0, 0]);
    let draws = draw_calls(&walk(&bytes), &bytes);
    assert!(draws.is_empty(), "a body too short to hold a count is no draw");
}

#[test]
fn a_buffer_descriptor_decodes_its_base_stride_and_records() {
    let base: u64 = 0x1_2345_6780;
    let word0 = (base & 0xFFFF_FFFF) as u32;
    let word1 = ((base >> 32) as u32 & 0xFFFF) | (16 << 16);
    let descriptor = decode_buffer_descriptor([word0, word1, 4, 0]);
    assert_eq!(descriptor, BufferDescriptor { base, stride: 16, records: 4, unsupported: false });
    assert_eq!(descriptor.byte_len(), 64);
}

#[test]
fn a_raw_buffer_is_bytes_and_swizzling_is_unsupported() {
    let raw = decode_buffer_descriptor([0x1000, 0, 256, 0]);
    assert_eq!(raw.stride, 0);
    assert_eq!(raw.byte_len(), 256);
    assert!(!raw.unsupported);
    assert!(decode_buffer_descriptor([0, 1 << 31, 4, 0]).unsupported);
    assert!(decode_buffer_descriptor([0, 0, 4, 1 << 23]).unsupported);
}

#[test]
fn a_descriptor_reads_the_live_register_values() {
    let writes = vec![write(8, 0xDEAD_BEEF), write(8, 0x0000_1000), write(9, 16 << 16), write(10, 4), write(11, 0)];
    let descriptor = buffer_descriptor_at(&writes, 8).expect("all four registers set");
    assert_eq!(descriptor.base, 0x1000);
    assert_eq!(descriptor.stride, 16);
    assert_eq!(descriptor.records, 4);
    assert!(buffer_descriptor_at(&writes, 9).is_none(), "register 12 was never written");
}

#[test]
fn a_direct_dispatch_decodes_its_workgroup_counts() {
    let bytes = stream(&[command(0x15, 4), 8, 4, 1, 1]);
    let dispatches = dispatch_calls(&walk(&bytes), &bytes);
    assert_eq!(dispatches.len(), 1);
    assert_eq!(dispatches[0], DispatchCall { packet_offset: 0, groups: [8, 4, 1] });
    let short = stream(&[command(0x15, 2), 8, 4]);
    assert!(dispatch_calls(&walk(&short), &short).is_empty());
}

#[test]
fn a_colour_target_decodes_its_width_and_height() {
    assert_eq!(decode_colour_target_extent(0x01df_c437), ColourTargetExtent { width: 1920, height: 1080 });
    assert_eq!(decode_colour_target_extent(0), ColourTargetExtent { width: 1, height: 1 });
    assert_eq!(decode_colour_target_extent(0x3FFF << 14), ColourTargetExtent { width: 16384, height: 1 });
}

#[test]
fn the_extent_reads_the_live_register_and_is_absent_when_unset() {
    let writes = vec![write(0xA3B0, 0x0000_0000), write(0xA3B0, 0x01df_c437)];
    assert_eq!(colour_target_extent_at(&writes), Some(ColourTargetExtent { width: 1920, height: 1080 }));
    assert!(colour_target_extent_at(&[write(0xA000, 0x01df_c437)]).is_none(), "CB_COLOR0_ATTRIB2 was never written");
}

#[test]
fn the_colour_target_pairs_its_base_and_extent_and_refuses_without_either() {
    let writes = vec![write(0xA318, 0x0200_0e00), write(0xA3B0, 0x000f_c03f)];
    assert_eq!(colour_target_at(&writes), Some(ColourTarget { base: 0x2_000e_0000, width: 64, height: 64 }));
    assert!(colour_target_at(&[write(0xA318, 0x0200_0e00)]).is_none(), "no extent");
    assert!(colour_target_at(&[write(0xA3B0, 0x000f_c03f)]).is_none(), "no base");
}

#[test]
fn the_colour_target_takes_the_most_recent_base() {
    let writes = vec![write(0xA318, 0x0100_0000), write(0xA3B0, 0x000f_c03f), write(0xA318, 0x0200_0e00)];
    assert_eq!(colour_target_at(&writes).expect("both set").base, 0x2_000e_0000);
}

#[test]
fn the_target_mask_decodes_per_target_channels() {
    let mask = decode_target_mask(0x0000_009F);
    assert_eq!(mask.targets[0], 0xF, "MRT0 RGBA");
    assert_eq!(mask.targets[1], 0x9, "MRT1 red+alpha");
    assert_eq!(mask.targets[2], 0x0);
    assert!(mask.writes_target(0));
    assert!(mask.writes_target(1));
    assert!(!mask.writes_target(2), "MRT2 is disabled");
    assert_eq!(mask.active_targets(), 2);
}

#[test]
fn the_target_mask_reads_the_live_register_and_is_absent_when_unset() {
    let writes = vec![write(0xA08E, 0x0000_0000), write(0xA08E, 0x0000_000F)];
    assert_eq!(target_mask_at(&writes).expect("set").active_targets(), 1);
    assert!(target_mask_at(&[write(0xA000, 0x0000_000F)]).is_none(), "CB_TARGET_MASK was never written");
}

#[test]
fn the_depth_control_decodes_its_test_state() {
    let dc = decode_depth_control(0x0050_07B7);
    assert!(dc.depth_test_enable);
    assert!(dc.depth_write_enable);
    assert_eq!(dc.depth_func, CompareFunc::LessEqual);
    assert!(!dc.depth_bounds_test_enable, "bit 3 was not set");
    assert!(dc.stencil_test_enable);
    assert_eq!(dc.stencil_func, CompareFunc::Always);
    assert!(dc.backface_enable);
    assert_eq!(dc.stencil_func_backface, CompareFunc::NotEqual);
    let off = decode_depth_control(0);
    assert!(!off.depth_test_enable && !off.stencil_test_enable && !off.depth_write_enable);
    assert_eq!(off.depth_func, CompareFunc::Never);
}

#[test]
fn the_depth_control_reads_the_live_register_and_is_absent_when_unset() {
    let writes = vec![write(0xA200, 0x0000_0000), write(0xA200, 0x0000_0002 | 0x0010)];
    let dc = depth_control_at(&writes).expect("set");
    assert!(dc.depth_test_enable);
    assert_eq!(dc.depth_func, CompareFunc::Less);
    assert!(depth_control_at(&[write(0xA000, 0x2)]).is_none(), "DB_DEPTH_CONTROL was never written");
}

#[test]
fn the_stencil_control_decodes_its_six_operations() {
    let sc = decode_stencil_control(0x00F5_1730);
    assert_eq!(sc.fail_op, StencilOp::Keep, "STENCILFAIL = 0");
    assert_eq!(sc.depth_pass_op, StencilOp::ReplaceTest, "STENCILZPASS = 3");
    assert_eq!(sc.depth_fail_op, StencilOp::Invert, "STENCILZFAIL = 7");
    assert_eq!(sc.back_fail_op, StencilOp::Zero, "STENCILFAIL_BF = 1");
    assert_eq!(sc.back_depth_pass_op, StencilOp::AddClamp, "STENCILZPASS_BF = 5");
    assert_eq!(sc.back_depth_fail_op, StencilOp::Xnor, "STENCILZFAIL_BF = 15");
}

#[test]
fn the_stencil_control_reads_the_live_register_and_is_absent_when_unset() {
    let writes = vec![write(0xA10B, 0x0000_0000), write(0xA10B, 0x0000_0001)];
    let sc = stencil_control_at(&writes).expect("set");
    assert_eq!(sc.fail_op, StencilOp::Zero);
    assert_eq!(sc.depth_pass_op, StencilOp::Keep, "the rest stay at 0");
    assert!(stencil_control_at(&[write(0xA000, 0x1)]).is_none(), "DB_STENCIL_CONTROL was never written");
}

#[test]
fn the_blend_control_decodes_its_factors_and_functions() {
    let bc = decode_blend_control(0x6081_0564);
    assert_eq!(bc.color_src, BlendFactor::SrcAlpha);
    assert_eq!(bc.color_combine, CombineFunc::MaxDstSrc);
    assert_eq!(bc.color_dst, BlendFactor::OneMinusSrcAlpha);
    assert_eq!(bc.alpha_src, BlendFactor::One);
    assert_eq!(bc.alpha_combine, CombineFunc::DstMinusSrc);
    assert_eq!(bc.alpha_dst, BlendFactor::Zero);
    assert!(bc.separate_alpha_blend);
    assert!(bc.enable);
    assert!(!bc.disable_rop3, "bit 31 was not set");
    assert_eq!(decode_blend_factor(31), BlendFactor::Other(31));
    assert_eq!(decode_combine_func(7), CombineFunc::Other(7));
}

#[test]
fn the_blend_control_reads_the_live_register_and_is_absent_when_unset() {
    let writes = vec![write(0xA1E0, 0x0000_0000), write(0xA1E0, 0x4000_0000)];
    let bc = blend_control_at(&writes).expect("set");
    assert!(bc.enable);
    assert!(!bc.separate_alpha_blend, "bit 29 was not set");
    assert!(blend_control_at(&[write(0xA000, 0x4000_0000)]).is_none(), "CB_BLEND0_CONTROL was never written");
}

#[test]
fn the_swizzle_mode_decodes_the_modes_orbistoun_handles() {
    assert_eq!(decode_colour_swizzle_mode(0x08c6_c000), SwizzleMode::Tiled64KbRX, "the measured tiling");
    assert_eq!(decode_colour_swizzle_mode(0x0000_0000), SwizzleMode::Linear);
    assert_eq!(decode_colour_swizzle_mode(0x0001_4000), SwizzleMode::Other(5));
}

#[test]
fn the_swizzle_mode_reads_the_live_register_and_is_absent_when_unset() {
    assert_eq!(colour_swizzle_mode_at(&[write(0xA3B8, 0x08c6_c000)]), Some(SwizzleMode::Tiled64KbRX));
    assert!(colour_swizzle_mode_at(&[write(0xA000, 0x08c6_c000)]).is_none(), "CB_COLOR0_ATTRIB3 was never written");
}

#[test]
fn an_image_descriptor_decodes_its_base_dimensions_format_and_tiling() {
    let encode = |base: u64, width: u32, height: u32, format: u32, sw_mode: u32| -> [u32; 8] {
        let (w1, h1) = (width - 1, height - 1);
        let word0 = u32::try_from((base >> 8) & 0xFFFF_FFFF).expect("32 bits");
        let base_hi = u32::try_from((base >> 40) & 0xFF).expect("8 bits");
        let word1 = base_hi | (format << 20) | ((w1 & 0x3) << 30);
        let word2 = (w1 >> 2) | ((h1 & 0x3FFF) << 14);
        let word3 = (sw_mode & 0x1F) << 20;
        [word0, word1, word2, word3, 0, 0, 0, 0]
    };
    assert_eq!(
        decode_image_descriptor(encode(0x1234_5670_0000, 2, 2, 0x0A, 0)),
        ImageDescriptor { base: 0x1234_5670_0000, width: 2, height: 2, format: 0x0A, tiling: SwizzleMode::Linear }
    );
    assert_eq!(
        decode_image_descriptor(encode(0x2_0000_0000, 1920, 1080, 0x0C, 27)),
        ImageDescriptor { base: 0x2_0000_0000, width: 1920, height: 1080, format: 0x0C, tiling: SwizzleMode::Tiled64KbRX }
    );
}

#[test]
fn a_scissor_decodes_its_rectangle() {
    assert_eq!(decode_scissor(0x8000_0000, 0x0040_0040), Scissor { x: 0, y: 0, width: 64, height: 64 });
    let top_left = 0x0008_0010;
    let bottom_right = 0x0038_0030;
    assert_eq!(decode_scissor(top_left, bottom_right), Scissor { x: 16, y: 8, width: 32, height: 48 });
    assert_eq!(decode_scissor(bottom_right, top_left).width, 0);
}

#[test]
fn the_scissor_reads_the_live_registers() {
    let writes = vec![write(0xA090, 0xDEAD_BEEF), write(0xA090, 0x8000_0000), write(0xA091, 0x0040_0040)];
    assert_eq!(scissor_at(&writes), Some(Scissor { x: 0, y: 0, width: 64, height: 64 }));
    assert!(scissor_at(&[write(0xA090, 0x8000_0000)]).is_none(), "the bottom-right corner was never written");
}

#[test]
fn each_draw_binds_the_program_live_before_it_unless_registered() {
    let bytes = stream(&[
        command(0x76, 3),
        0x0C,
        0x0000_00A0,
        0x0000_0000,
        command(0x2D, 2),
        3,
        0,
        command(0x76, 3),
        0x0C,
        0x0000_00B0,
        0x0000_0000,
        command(0x2D, 2),
        6,
        0,
    ]);
    let walked = walk(&bytes);
    let vocabulary = vocabulary();
    let writes = register_writes(&walked, &bytes, &vocabulary);
    let draws = draw_calls(&walked, &bytes);
    let binds = draw_binds(&writes, &draws, &vocabulary, Queue::Draw, &[]);
    assert_eq!(
        binds,
        vec![vec![(ShaderStage::Fragment, 0xA000)], vec![(ShaderStage::Fragment, 0xB000)]]
    );
    let registered = draw_binds(&writes, &draws, &vocabulary, Queue::Draw, &[ShaderStage::Fragment]);
    assert_eq!(registered, vec![vec![], vec![]], "a registered stage keeps its registration");
    let compute = draw_binds(&writes, &draws, &vocabulary, Queue::Compute, &[]);
    assert_eq!(compute, vec![vec![], vec![]], "a compute queue binds no fragment shader");
}

#[test]
fn a_submissions_commands_start_with_its_target_and_viewport() {
    let bytes = stream(&[command(0x2D, 2), 3, 0]);
    let walked = walk(&bytes);
    let draws = draw_calls(&walked, &bytes);
    let none: Vec<RegisterWrite> = Vec::new();
    let plain = submission_commands(&walked, &bytes, &none, &draws, &[Vec::new()]);
    assert!(!plain.iter().any(|c| matches!(c, RenderCommand::SetRenderTargets { .. } | RenderCommand::SetViewport(_))));
    assert!(plain.iter().any(|c| matches!(c, RenderCommand::Draw { .. })), "the draw is emitted");
    let scissor = vec![
        RegisterWrite { packet_offset: 0, register: 0xA090, value: (20 << 16) | 10 },
        RegisterWrite { packet_offset: 0, register: 0xA091, value: (120 << 16) | 110 },
    ];
    let with_viewport = submission_commands(&walked, &bytes, &scissor, &draws, &[Vec::new()]);
    assert_eq!(
        with_viewport[0],
        RenderCommand::SetViewport(Rect { x: 10, y: 20, width: 100, height: 100 })
    );
}
