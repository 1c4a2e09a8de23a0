use orbistoun_gpu::backend::{RenderCommand, ResourceId, ShaderStage, ViewportTerms};
use orbistoun_gpu::packet::build::dispatch_direct;
use orbistoun_gpu::packet::walk;
use orbistoun_gpu::pipeline::{
    push_geometry_commands, user_data_layouts, FRAGMENT_RSRC2, FRAGMENT_USER_DATA_0, VERTEX_RSRC1, VERTEX_RSRC2,
    VERTEX_USER_DATA_0,
};
use orbistoun_gpu::registers::{
    decode_blend_control, DrawCall, DrawKind, RegisterWrite, CB_BLEND0_CONTROL, PA_CL_VPORT_XSCALE, PA_CL_VTE_CNTL,
};

fn write(packet_offset: u32, register: u32, value: u32) -> RegisterWrite {
    RegisterWrite { packet_offset, register, value }
}

fn draw(packet_offset: u32) -> DrawCall {
    DrawCall { packet_offset, instances: 1, kind: DrawKind::Auto { vertices: 36 } }
}

/// Twelve draws, each preceded by its own vertex offset in `SPI_SHADER_USER_DATA_GS_0`: each is
/// handed its own word before it, and the twelve differ.
#[test]
fn each_draw_carries_the_vertex_offset_written_before_it() {
    let writes: Vec<RegisterWrite> = (0..12u32).map(|i| write(i * 16, VERTEX_USER_DATA_0, i * 36)).collect();
    let draws: Vec<DrawCall> = (0..12u32).map(|i| draw(i * 16 + 8)).collect();
    let mut commands = Vec::new();
    push_geometry_commands(&mut commands, &walk(&[]), &[], &draws, &writes, &[]);
    let mut offset = None;
    let mut offsets = Vec::new();
    for command in &commands {
        match command {
            RenderCommand::SetUserData { stage: ShaderStage::Vertex, words } => offset = Some(words[0]),
            RenderCommand::Draw { .. } => offsets.push(offset.expect("user data before the draw")),
            _ => {}
        }
    }
    assert_eq!(offsets, (0..12u32).map(|i| i * 36).collect::<Vec<_>>());
}

/// State is sent before a draw only when it changed: the fragment stage's words once, the blend
/// state once it is set and again when it changes, and a shader only when its stage does not run it
/// already.
#[test]
fn state_is_sent_only_when_it_changed() {
    let writes = vec![
        write(0, FRAGMENT_USER_DATA_0 + 1, 0x55),
        write(0, CB_BLEND0_CONTROL, 0x4000_0000),
        write(32, CB_BLEND0_CONTROL, 0x4000_0001),
    ];
    let draws = vec![draw(16), draw(24), draw(40)];
    let vs = (ShaderStage::Vertex, ResourceId(1));
    let fs = (ShaderStage::Fragment, ResourceId(2));
    let other = (ShaderStage::Fragment, ResourceId(3));
    let shaders = vec![vec![vs, fs], vec![vs, fs], vec![vs, other]];
    let mut commands = vec![RenderCommand::BindShader { stage: vs.0, shader: vs.1 }];
    push_geometry_commands(&mut commands, &walk(&[]), &[], &draws, &writes, &shaders);

    let mut fragment_words = [0u32; 32];
    fragment_words[1] = 0x55;
    let expected = vec![
        RenderCommand::BindShader { stage: vs.0, shader: vs.1 },
        RenderCommand::BindShader { stage: fs.0, shader: fs.1 },
        RenderCommand::SetBlend(decode_blend_control(0x4000_0000)),
        RenderCommand::SetUserData { stage: ShaderStage::Vertex, words: [0; 32] },
        RenderCommand::SetUserData { stage: ShaderStage::Fragment, words: fragment_words },
        RenderCommand::Draw { vertices: 36, instances: 1, first_vertex: 0 },
        RenderCommand::Draw { vertices: 36, instances: 1, first_vertex: 0 },
        RenderCommand::BindShader { stage: other.0, shader: other.1 },
        RenderCommand::SetBlend(decode_blend_control(0x4000_0001)),
        RenderCommand::Draw { vertices: 36, instances: 1, first_vertex: 0 },
    ];
    assert_eq!(commands, expected);
}

/// The clip-to-pixel transform goes out once all four terms are set and the enables allow it, as
/// the bits the stream wrote, and again only when it changes; an indexed draw asks for its indices.
#[test]
fn the_viewport_transform_goes_out_when_set_and_changed() {
    let minus_one = (-1.0f32).to_bits();
    let mut writes = vec![write(0, PA_CL_VTE_CNTL, 0x3f)];
    for (k, value) in [2.0f32, 1.0, -2.0, 1.0].iter().enumerate() {
        writes.push(write(0, PA_CL_VPORT_XSCALE + k as u32, value.to_bits()));
    }
    writes.push(write(32, PA_CL_VPORT_XSCALE + 2, minus_one));
    let indexed = DrawCall { packet_offset: 40, instances: 2, kind: DrawKind::Indexed { indices: 6, address: 0x1000 } };
    let draws = vec![draw(16), draw(24), indexed];
    let mut commands = Vec::new();
    push_geometry_commands(&mut commands, &walk(&[]), &[], &draws, &writes, &[]);
    let transforms: Vec<ViewportTerms> = commands
        .iter()
        .filter_map(|c| match c {
            RenderCommand::SetViewportTransform(t) => Some(*t),
            _ => None,
        })
        .collect();
    assert_eq!(transforms.len(), 2);
    assert_eq!(f32::from_bits(transforms[0].y_scale), -2.0);
    assert_eq!(transforms[1].y_scale, minus_one);
    assert_eq!(commands.last(), Some(&RenderCommand::DrawIndexed { indices: 6, instances: 2, first_index: 0 }));

    // Enables that leave a term off mean no transform at all.
    let mut disabled = writes.clone();
    disabled[0] = write(0, PA_CL_VTE_CNTL, 0x3);
    let mut commands = Vec::new();
    push_geometry_commands(&mut commands, &walk(&[]), &[], &draws, &disabled, &[]);
    assert!(!commands.iter().any(|c| matches!(c, RenderCommand::SetViewportTransform(_))));
}

/// The stream's compute dispatches follow its draws, with their workgroup counts.
#[test]
fn dispatches_follow_the_draws() {
    let stream: Vec<u8> = dispatch_direct(4, 2, 1).iter().flat_map(|w| w.to_le_bytes()).collect();
    let walked = walk(&stream);
    let mut commands = Vec::new();
    push_geometry_commands(&mut commands, &walked, &stream, &[draw(0)], &[], &[]);
    assert_eq!(commands.last(), Some(&RenderCommand::Dispatch { x: 4, y: 2, z: 1 }));
    assert!(commands.iter().any(|c| matches!(c, RenderCommand::Draw { .. })));
}

/// Each stage's user data is as long as its last `RSRC2` says, the vertex stage's from `s8` at the
/// block's start and the fragment stage's from `s0` after it; `DX10_CLAMP` comes from the last
/// `RSRC1`, and a stage with none says nothing of it.
#[test]
fn each_stage_takes_the_user_data_its_rsrc2_names() {
    let writes = vec![
        write(0, VERTEX_RSRC2, 3 << 1),
        write(8, VERTEX_RSRC2, 5 << 1),
        write(8, FRAGMENT_RSRC2, (2 << 1) | 1),
        write(8, VERTEX_RSRC1, 1 << 21),
    ];
    let [vertex, fragment] = user_data_layouts(&writes);
    assert_eq!((vertex.first_register, vertex.count, vertex.block_offset, vertex.dx10_clamp), (8, 5, 0, Some(true)));
    assert_eq!((fragment.first_register, fragment.count, fragment.block_offset, fragment.dx10_clamp), (0, 2, 16, None));
    let [none, _] = user_data_layouts(&[]);
    assert_eq!(none.count, 0);
}
