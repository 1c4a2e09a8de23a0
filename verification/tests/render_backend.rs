use orbistoun_gpu::backend::{
    BackendError, RecordingBackend, Rect, RenderBackend, RenderCommand, Resource, ResourceId, ShaderStage,
};
use orbistoun_gpu::pipeline::Submission;
use orbistoun_gpu::registers::ColourTargetExtent;
use orbistoun_gpu::render::{drive, FrameOutcome};
use std::collections::BTreeMap;

#[test]
fn recording_backend_preserves_order() {
    // Order matters: a reordered command stream is a different frame, so the recorder normalises
    // nothing.
    let mut b = RecordingBackend::new();
    b.execute(&RenderCommand::SetViewport(Rect { x: 0, y: 0, width: 1920, height: 1080 }))
        .expect("recording never fails");
    b.execute(&RenderCommand::Draw { vertices: 3, instances: 1, first_vertex: 0 }).expect("recording never fails");

    assert_eq!(b.recorded().len(), 2);
    assert!(matches!(b.recorded()[0], RenderCommand::SetViewport(_)));
    assert!(matches!(b.recorded()[1], RenderCommand::Draw { .. }));
}

#[test]
fn present_is_counted_separately_from_commands() {
    let mut b = RecordingBackend::new();
    b.present().expect("recording never fails");
    b.present().expect("recording never fails");
    assert_eq!(b.presents(), 2);
    assert!(b.recorded().is_empty(), "present is not a command");
}

#[test]
fn clear_drops_commands_but_not_the_present_count() {
    // A frame boundary resets what was drawn, not the frame count, so the counter can detect a
    // stalled presenter.
    let mut b = RecordingBackend::new();
    b.execute(&RenderCommand::Fence { label: 7 }).expect("recording never fails");
    b.present().expect("recording never fails");
    b.clear();
    assert!(b.recorded().is_empty());
    assert_eq!(b.presents(), 1);
}

#[test]
fn resources_are_made_resident_in_order_and_cleared_with_the_frame() {
    // Residency is separate from the command stream: resources come first, in the order a frame
    // references them. `clear` resets them like the commands, and `release` is a no-op by default.
    let words = [0x0723_0203_u32];
    let mut b = RecordingBackend::new();
    b.ensure_resident(ResourceId(0x11), Resource::Shader(&words)).expect("recording never fails");
    b.ensure_resident(ResourceId(0x22), Resource::Shader(&words)).expect("recording never fails");
    b.release(ResourceId(0x11));

    assert_eq!(b.resident(), &[ResourceId(0x11), ResourceId(0x22)]);
    assert!(b.recorded().is_empty(), "making a resource resident is not a command");

    b.clear();
    assert!(b.resident().is_empty(), "a fresh frame starts with nothing resident");
}

#[test]
fn commands_carry_guest_intent_not_host_concepts() {
    // The vocabulary carries no host-API concept; this is where one would become awkward.
    let cmd = RenderCommand::BindBuffer {
        stage: ShaderStage::Vertex,
        slot: 3,
        buffer: ResourceId(0xdead_beef),
        offset: 256,
        length: 1024,
    };
    // Slot numbering is the guest's, carried through untranslated.
    match cmd {
        RenderCommand::BindBuffer { slot, offset, .. } => {
            assert_eq!(slot, 3);
            assert_eq!(offset, 256);
        }
        _ => panic!("wrong variant"),
    }
}

/// A recorded command is the command executed, field for field.
#[test]
fn a_recorded_command_is_a_copy_of_the_one_executed() {
    let mut b = RecordingBackend::new();
    let texture = RenderCommand::BindTexture { slot: 1, texels: vec![1, 2, 3, 4], hash: 9, width: 2, height: 2 };
    let targets = RenderCommand::SetRenderTargets { colour: vec![ResourceId(5)], depth: None };
    b.execute(&texture).expect("recording never fails");
    b.execute(&targets).expect("recording never fails");
    assert_eq!(b.recorded(), &[texture, targets]);
    b.set_guest_memory(&[1, 2]);
    assert_eq!(b.guest_memory(), &[1, 2]);
}

/// A submission with one module and a couple of commands.
fn submission() -> Submission {
    Submission {
        commands: vec![
            RenderCommand::BindShader { stage: ShaderStage::Compute, shader: ResourceId(1) },
            RenderCommand::Dispatch { x: 1, y: 1, z: 1 },
        ],
        modules: BTreeMap::from([(1, vec![0x0723_0203])]),
        ..Submission::default()
    }
}

#[test]
fn a_recording_backend_takes_the_whole_frame() {
    // The recorder accepts everything, so the outcome is the frame's own shape: one resource, two
    // commands, presented.
    let mut backend = RecordingBackend::new();
    let outcome = drive(&mut backend, &submission()).expect("recording never fails");
    assert_eq!(outcome, FrameOutcome { resident: 1, executed: 2, refused: 0, presented: true });
    assert_eq!(backend.resident(), &[ResourceId(1)]);
    assert_eq!(backend.recorded().len(), 2);
}

/// A render target is made resident alongside the modules, so a `SetRenderTargets` finds it.
#[test]
fn a_render_target_is_made_resident() {
    let mut submission = submission();
    let target = ResourceId(0x8000_0000_0040_0040);
    submission.targets.insert(target.0, ColourTargetExtent { width: 64, height: 64 });

    let mut backend = RecordingBackend::new();
    let outcome = drive(&mut backend, &submission).expect("recording never fails");
    assert_eq!(outcome.resident, 2, "the module and the target were both made resident");
    assert!(
        backend.resident().contains(&target),
        "the target reached the backend before the commands: {:?}",
        backend.resident()
    );
}

/// The driver hands the frame's guest-memory window to the backend before the commands.
#[test]
fn the_guest_memory_window_reaches_the_backend() {
    let mut submission = submission();
    submission.guest_memory = vec![0xCAFE_F00D, 0x0000_0001];

    let mut backend = RecordingBackend::new();
    drive(&mut backend, &submission).expect("recording never fails");
    assert_eq!(
        backend.guest_memory(),
        &[0xCAFE_F00D, 0x0000_0001],
        "the driver handed the frame's guest memory to the backend"
    );
}

/// A backend that makes resources resident but refuses every command as unsupported.
#[derive(Debug, Default)]
struct RefusingBackend {
    resident: usize,
}

impl RenderBackend for RefusingBackend {
    fn name(&self) -> &'static str {
        "refusing"
    }
    fn ensure_resident(&mut self, _id: ResourceId, _resource: Resource<'_>) -> Result<(), BackendError> {
        self.resident += 1;
        Ok(())
    }
    fn execute(&mut self, command: &RenderCommand) -> Result<(), BackendError> {
        let _ = command;
        Err(BackendError::Unsupported { command: "everything" })
    }
    fn present(&mut self) -> Result<(), BackendError> {
        Err(BackendError::Unsupported { command: "present" })
    }
}

#[test]
fn refused_commands_are_counted_and_do_not_abort_the_frame() {
    // A backend with no arms yet still makes resources resident and runs to the end of the stream;
    // the refusals are the report, not a stop.
    let mut backend = RefusingBackend::default();
    let outcome = drive(&mut backend, &submission()).expect("residency succeeded");
    assert_eq!(outcome, FrameOutcome { resident: 1, executed: 0, refused: 2, presented: false });
    assert_eq!(backend.resident, 1);
}

/// A backend whose residency fails, to prove that ends the frame.
#[derive(Debug, Default)]
struct BrokenResidency;

impl RenderBackend for BrokenResidency {
    fn name(&self) -> &'static str {
        "broken"
    }
    fn ensure_resident(&mut self, id: ResourceId, _resource: Resource<'_>) -> Result<(), BackendError> {
        Err(BackendError::UnknownResource(id))
    }
    fn execute(&mut self, _command: &RenderCommand) -> Result<(), BackendError> {
        Ok(())
    }
    fn present(&mut self) -> Result<(), BackendError> {
        Ok(())
    }
}

#[test]
fn a_residency_error_ends_the_frame() {
    // A resource that cannot be made resident is one the commands cannot reference, so the frame
    // stops rather than refusing every command for a reason already known.
    let mut backend = BrokenResidency;
    let error = drive(&mut backend, &submission()).expect_err("residency failed");
    assert_eq!(error, BackendError::UnknownResource(ResourceId(1)));
}

/// A backend whose every command fails on the device.
#[derive(Debug)]
struct Failing;

impl RenderBackend for Failing {
    fn name(&self) -> &'static str {
        "failing"
    }
    fn ensure_resident(&mut self, _id: ResourceId, _resource: Resource<'_>) -> Result<(), BackendError> {
        Ok(())
    }
    fn execute(&mut self, _command: &RenderCommand) -> Result<(), BackendError> {
        Err(BackendError::Device("lost".to_string()))
    }
    fn present(&mut self) -> Result<(), BackendError> {
        Ok(())
    }
}

/// A real failure from a command ends the frame with that error.
#[test]
fn a_device_error_from_a_command_ends_the_frame() {
    assert_eq!(drive(&mut Failing, &submission()), Err(BackendError::Device("lost".to_string())));
}
