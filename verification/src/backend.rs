//! The render backend seam: the handles, stages and resources a translated submission hands a
//! backend, which names no graphics API.
use vstd::prelude::*;
use crate::registers::BlendControl;

verus! {

/// Opaque handle to a backend-owned resource. The translator mints these and never dereferences
/// them; a backend maps them onto whatever it stores.
#[derive(Debug, Clone, Copy, PartialEq, Eq, PartialOrd, Ord, Hash, Structural)]
pub struct ResourceId(pub u64);

/// Which pipeline stage a shader binds to.
#[derive(Debug, Clone, Copy, PartialEq, Eq, Hash, Structural)]
pub enum ShaderStage {
    /// Per-vertex processing.
    Vertex,
    /// Per-fragment processing.
    Fragment,
    /// Compute.
    Compute,
}

/// A rectangle in render-target space.
#[derive(Debug, Clone, Copy, PartialEq, Eq, Structural)]
pub struct Rect {
    /// Left edge.
    pub x: i32,
    /// Top edge.
    pub y: i32,
    /// Width in pixels.
    pub width: u32,
    /// Height in pixels.
    pub height: u32,
}

/// How many user-data registers a shader stage has: `SPI_SHADER_USER_DATA_*_0` through `_31`.
pub const USER_DATA_WORDS: usize = 32;

/// Words in the push-constant block a backend supplies each draw's user data through: sixteen
/// per stage, vertex first.
pub const USER_DATA_BLOCK_WORDS: usize = 32;

/// Where a stage's words start in the block, vertex then fragment.
pub const USER_DATA_BLOCK_OFFSETS: [usize; 2] = [0, 16];

/// The transform from clip space to a target's pixels, as the stream's `PA_CL_VPORT_*` registers
/// hold it: the bits of four IEEE-754 single-precision floats, which a backend reads with
/// `f32::from_bits`.
#[derive(Debug, Clone, Copy, PartialEq, Eq, Structural)]
pub struct ViewportTerms {
    /// `PA_CL_VPORT_XSCALE`.
    pub x_scale: u32,
    /// `PA_CL_VPORT_XOFFSET`.
    pub x_offset: u32,
    /// `PA_CL_VPORT_YSCALE`.
    pub y_scale: u32,
    /// `PA_CL_VPORT_YOFFSET`.
    pub y_offset: u32,
}

/// One thing a backend is asked to do, in API-neutral terms: an intent the guest expressed, never
/// a step a host API requires. A float the guest wrote is carried as its bits.
#[derive(Debug, Clone, PartialEq)]
pub enum RenderCommand {
    /// Direct subsequent drawing at these targets.
    SetRenderTargets {
        /// Colour targets, in slot order.
        colour: Vec<ResourceId>,
        /// Depth/stencil target, if one is bound.
        depth: Option<ResourceId>,
    },
    /// Bind a shader to a stage.
    BindShader {
        /// Stage the shader runs at.
        stage: ShaderStage,
        /// The translated shader.
        shader: ResourceId,
    },
    /// Bind a buffer to a numbered slot for a stage.
    BindBuffer {
        /// Stage that reads the buffer.
        stage: ShaderStage,
        /// Slot index as the guest numbered it.
        slot: u32,
        /// The buffer.
        buffer: ResourceId,
        /// Byte offset into the buffer.
        offset: u64,
        /// Byte length of the bound range.
        length: u64,
    },
    /// Restrict rasterisation to a rectangle.
    SetViewport(Rect),
    /// The transform from clip space to the target's pixels for the draws that follow, as the
    /// stream's `PA_CL_VPORT_*` registers stand at them. Its y scale is negative for a GL guest,
    /// whose NDC `+y` is up.
    SetViewportTransform(ViewportTerms),
    /// The user-data words a stage's shader starts with, for the draws that follow: every
    /// user-data register of that stage, in order, zero where the stream wrote none. Emitted
    /// before a draw whenever a stage's words changed.
    SetUserData {
        /// The stage whose shader receives them.
        stage: ShaderStage,
        /// Every user-data register of that stage, in order.
        words: [u32; USER_DATA_WORDS],
    },
    /// Colour target zero's blend state for the draws that follow, emitted before a draw whenever
    /// the value in force changed.
    SetBlend(BlendControl),
    /// The texture the draws that follow sample, as linear `Rgba8` texels, read out of guest
    /// memory only when its layout is one read exactly (linear, `8_8_8_8_UNORM`, 2D).
    BindTexture {
        /// Which of the fragment module's textures this is: 0 for the first it samples.
        slot: u32,
        /// Texels, row-major and tightly packed, each the guest's four bytes in memory order.
        texels: Vec<u32>,
        /// [`crate::content_hash`] of the texels.
        hash: u64,
        /// Width in texels.
        width: u32,
        /// Height in texels.
        height: u32,
    },
    /// Clear a colour target.
    ClearColour {
        /// Target to clear.
        target: ResourceId,
        /// Clear value, RGBA, linear: the bits of four floats.
        value: [u32; 4],
    },
    /// Draw without an index buffer.
    Draw {
        /// Vertices per instance.
        vertices: u32,
        /// Number of instances.
        instances: u32,
        /// First vertex.
        first_vertex: u32,
    },
    /// Draw using the bound index buffer.
    DrawIndexed {
        /// Indices per instance.
        indices: u32,
        /// Number of instances.
        instances: u32,
        /// First index.
        first_index: u32,
    },
    /// Run a compute workload.
    Dispatch {
        /// Workgroups on X.
        x: u32,
        /// Workgroups on Y.
        y: u32,
        /// Workgroups on Z.
        z: u32,
    },
    /// A guest-visible synchronisation point, carrying the guest's own label.
    Fence {
        /// Value the guest associated with this point.
        label: u64,
    },
}

/// Why a backend could not carry out what it was given.
#[derive(Debug, Clone, PartialEq, Eq)]
pub enum BackendError {
    /// The backend does not implement this command.
    Unsupported {
        /// Human-readable name of the command that was refused.
        command: &'static str,
    },
    /// A resource id did not refer to anything the backend owns.
    UnknownResource(ResourceId),
    /// The backend's underlying API refused.
    Device(String),
}

/// A resource a submission references, handed to the backend to make resident, keyed by a
/// content-addressed [`ResourceId`]. The backend is handed plain data and never touches guest
/// memory.
#[derive(Debug, Clone, Copy)]
pub enum Resource<'a> {
    /// A translated shader, as SPIR-V words.
    Shader(&'a [u32]),
    /// A buffer the guest allocated, as its bytes.
    Buffer(&'a [u8]),
    /// A colour render target, by its pixel dimensions: a backend allocates its own attachment.
    RenderTarget {
        /// Width in pixels.
        width: u32,
        /// Height in pixels.
        height: u32,
    },
}

impl RenderCommand {
    /// Whether `self` and `other` are the same command: the same variant with the same fields, a
    /// list compared by its contents.
    pub open spec fn same_as(self, other: RenderCommand) -> bool {
        match (self, other) {
            (
                RenderCommand::SetRenderTargets { colour: a, depth: d },
                RenderCommand::SetRenderTargets { colour: b, depth: e },
            ) => a@ == b@ && d == e,
            (
                RenderCommand::BindTexture { slot: s, texels: t, hash: h, width: w, height: v },
                RenderCommand::BindTexture { slot: s2, texels: t2, hash: h2, width: w2, height: v2 },
            ) => s == s2 && t@ == t2@ && h == h2 && w == w2 && v == v2,
            (RenderCommand::SetRenderTargets { .. }, _) => false,
            (RenderCommand::BindTexture { .. }, _) => false,
            _ => self == other,
        }
    }

    /// A copy of the command.
    pub fn duplicate(&self) -> (r: RenderCommand)
        ensures
            r.same_as(*self),
    {
        match self {
            RenderCommand::SetRenderTargets { colour, depth } => RenderCommand::SetRenderTargets {
                colour: vstd::slice::slice_to_vec(colour.as_slice()),
                depth: *depth,
            },
            RenderCommand::BindShader { stage, shader } => RenderCommand::BindShader { stage: *stage, shader: *shader },
            RenderCommand::BindBuffer { stage, slot, buffer, offset, length } => RenderCommand::BindBuffer {
                stage: *stage,
                slot: *slot,
                buffer: *buffer,
                offset: *offset,
                length: *length,
            },
            RenderCommand::SetViewport(rect) => RenderCommand::SetViewport(*rect),
            RenderCommand::SetViewportTransform(terms) => RenderCommand::SetViewportTransform(*terms),
            RenderCommand::SetUserData { stage, words } => RenderCommand::SetUserData { stage: *stage, words: *words },
            RenderCommand::SetBlend(blend) => RenderCommand::SetBlend(*blend),
            RenderCommand::BindTexture { slot, texels, hash, width, height } => RenderCommand::BindTexture {
                slot: *slot,
                texels: vstd::slice::slice_to_vec(texels.as_slice()),
                hash: *hash,
                width: *width,
                height: *height,
            },
            RenderCommand::ClearColour { target, value } => RenderCommand::ClearColour { target: *target, value: *value },
            RenderCommand::Draw { vertices, instances, first_vertex } => RenderCommand::Draw {
                vertices: *vertices,
                instances: *instances,
                first_vertex: *first_vertex,
            },
            RenderCommand::DrawIndexed { indices, instances, first_index } => RenderCommand::DrawIndexed {
                indices: *indices,
                instances: *instances,
                first_index: *first_index,
            },
            RenderCommand::Dispatch { x, y, z } => RenderCommand::Dispatch { x: *x, y: *y, z: *z },
            RenderCommand::Fence { label } => RenderCommand::Fence { label: *label },
        }
    }
}

/// Something that can carry out [`RenderCommand`]s. Implementations live with a graphics API; a
/// backend that does not carry out a command answers [`BackendError::Unsupported`], which is how a
/// partial backend reports a gap rather than silently doing nothing. Nothing is assumed of what
/// any method answers. A backend may keep a record of the commands handed to it,
/// [`RenderBackend::handed`], and then says so through [`RenderBackend::records_commands`]: each
/// [`RenderBackend::execute`] adds its command to the end of that record and nothing else changes
/// it - which is how a driver's contract says what it handed over, and in what order.
pub trait RenderBackend {
    /// Whether this backend keeps the record of commands handed to it. One that keeps none is
    /// promised nothing through it.
    closed spec fn records_commands() -> bool {
        false
    }

    /// The commands handed to this backend so far, oldest first.
    closed spec fn handed(&self) -> Seq<RenderCommand> {
        Seq::empty()
    }

    /// Human-readable backend name, for logs and the run report.
    fn name(&self) -> &'static str;

    /// Makes a resource resident, keyed by its content [`ResourceId`]. Idempotent: a backend that
    /// already holds `id` reuses its host object.
    fn ensure_resident(&mut self, id: ResourceId, resource: Resource<'_>) -> (r: Result<(), BackendError>)
        ensures
            Self::records_commands() ==> final(self).handed() == old(self).handed(),
    ;

    /// Carries out one command.
    fn execute(&mut self, command: &RenderCommand) -> (r: Result<(), BackendError>)
        ensures
            Self::records_commands() ==> {
                &&& final(self).handed().len() == old(self).handed().len() + 1
                &&& final(self).handed().drop_last() == old(self).handed()
                &&& final(self).handed().last().same_as(*command)
            },
    ;

    /// Presents whatever has been drawn.
    fn present(&mut self) -> (r: Result<(), BackendError>)
        ensures
            Self::records_commands() ==> final(self).handed() == old(self).handed(),
    ;

    /// Sets the frame's guest-memory window: the region of guest memory the frame's shaders read
    /// and write, as words. The default ignores it, for backends that bind no guest memory.
    fn set_guest_memory(&mut self, _memory: &[u32])
        ensures
            Self::records_commands() ==> final(self).handed() == old(self).handed(),
    {
    }

    /// Releases a resource the guest freed. The default keeps it: eviction is the backend's own
    /// concern.
    fn release(&mut self, _id: ResourceId)
        ensures
            Self::records_commands() ==> final(self).handed() == old(self).handed(),
    {
    }
}

/// A backend that records commands and draws nothing, so command-stream translation can be
/// asserted with no GPU, window or driver.
#[derive(Debug)]
pub struct RecordingBackend {
    recorded: Vec<RenderCommand>,
    presents: usize,
    resident: Vec<ResourceId>,
    guest_memory: Vec<u32>,
}

impl RecordingBackend {
    /// Everything executed so far, in order.
    pub closed spec fn spec_recorded(&self) -> Seq<RenderCommand> {
        self.recorded@
    }

    /// Every resource made resident so far, in order.
    pub closed spec fn spec_resident(&self) -> Seq<ResourceId> {
        self.resident@
    }

    /// The guest-memory window the frame set.
    pub closed spec fn spec_guest_memory(&self) -> Seq<u32> {
        self.guest_memory@
    }

    /// How many times the frame was presented.
    pub closed spec fn spec_presents(&self) -> usize {
        self.presents
    }

    /// An empty recorder.
    pub fn new() -> (r: Self)
        ensures
            r.spec_recorded().len() == 0,
            r.spec_resident().len() == 0,
            r.spec_guest_memory().len() == 0,
            r.spec_presents() == 0,
    {
        RecordingBackend { recorded: Vec::new(), presents: 0, resident: Vec::new(), guest_memory: Vec::new() }
    }

    /// Everything executed so far, in order.
    pub fn recorded(&self) -> (r: &[RenderCommand])
        ensures
            r@ == self.spec_recorded(),
    {
        self.recorded.as_slice()
    }

    /// Every resource made resident so far, in order - so a test can assert a frame's resources
    /// reached the backend before the commands that name them.
    pub fn resident(&self) -> (r: &[ResourceId])
        ensures
            r@ == self.spec_resident(),
    {
        self.resident.as_slice()
    }

    /// The guest-memory window the frame set, so a test can assert the driver handed it over.
    pub fn guest_memory(&self) -> (r: &[u32])
        ensures
            r@ == self.spec_guest_memory(),
    {
        self.guest_memory.as_slice()
    }

    /// How many times the frame was presented.
    pub fn presents(&self) -> (r: usize)
        ensures
            r == self.spec_presents(),
    {
        self.presents
    }

    /// Discards the recording - commands, residency and window - keeping the present count, so a
    /// counter across frames can detect a stalled presenter.
    pub fn clear(&mut self)
        ensures
            final(self).spec_recorded().len() == 0,
            final(self).spec_resident().len() == 0,
            final(self).spec_guest_memory().len() == 0,
            final(self).spec_presents() == old(self).spec_presents(),
    {
        self.recorded.clear();
        self.resident.clear();
        self.guest_memory.clear();
    }
}

impl RenderBackend for RecordingBackend {
    open spec fn records_commands() -> bool {
        true
    }

    closed spec fn handed(&self) -> Seq<RenderCommand> {
        self.recorded@
    }

    fn name(&self) -> (r: &'static str)
        ensures
            r@ == "recording"@,
    {
        "recording"
    }

    fn ensure_resident(&mut self, id: ResourceId, _resource: Resource<'_>) -> (r: Result<(), BackendError>)
        ensures
            r is Ok,
            final(self).spec_resident() == old(self).spec_resident().push(id),
            final(self).spec_recorded() == old(self).spec_recorded(),
            final(self).spec_presents() == old(self).spec_presents(),
    {
        self.resident.push(id);
        Ok(())
    }

    fn execute(&mut self, command: &RenderCommand) -> (r: Result<(), BackendError>)
        ensures
            r is Ok,
            final(self).spec_recorded().len() == old(self).spec_recorded().len() + 1,
            final(self).spec_recorded().drop_last() == old(self).spec_recorded(),
            final(self).spec_recorded().last().same_as(*command),
            final(self).spec_resident() == old(self).spec_resident(),
            final(self).spec_presents() == old(self).spec_presents(),
    {
        let copy = command.duplicate();
        self.recorded.push(copy);
        proof {
            assert(self.recorded@.drop_last() =~= old(self).recorded@);
        }
        Ok(())
    }

    fn present(&mut self) -> (r: Result<(), BackendError>)
        ensures
            r is Ok,
            final(self).spec_presents() == old(self).spec_presents().saturating_add(1),
            final(self).spec_recorded() == old(self).spec_recorded(),
            final(self).spec_resident() == old(self).spec_resident(),
    {
        self.presents = self.presents.saturating_add(1);
        Ok(())
    }

    fn set_guest_memory(&mut self, memory: &[u32])
        ensures
            final(self).spec_guest_memory() == memory@,
            final(self).spec_recorded() == old(self).spec_recorded(),
            final(self).spec_resident() == old(self).spec_resident(),
            final(self).spec_presents() == old(self).spec_presents(),
    {
        self.guest_memory = vstd::slice::slice_to_vec(memory);
    }
}

} // verus!
