//! From a submitted command buffer to shaders ready to run: the queue a submission came from,
//! the guest memory shaders are read out of, what a submission's report says, and the cache
//! entries that recognise a shader again.
//!
//! A shader address in a register is a **GPU** address; [`guest_address_of`] is the one place
//! the assumption that it coincides with the guest's address lives. Shaders are cached by
//! content, and a cache entry keeps the length and the first and last words of the bytes it was
//! built from, so a key that quietly changes meaning is caught rather than served.
use vstd::prelude::*;
use crate::backend::{Rect, RenderCommand, ResourceId, ShaderStage, ViewportTerms, USER_DATA_WORDS};
use crate::packet::{le_word, PacketWalk};
use crate::registers::{
    decode_blend_control, decode_image_descriptor, dispatch_calls, dispatches_of, latest_value, offsets_representable,
    latest, read_le_word, spec_decode_blend_control, spec_decode_image_descriptor, spec_viewport_terms, swept_writes,
    viewport_terms, BlendControl, ColourTarget, ColourTargetExtent, ColourTargetFormat, DepthControl, DispatchCall,
    StencilControl, DrawCall, DrawKind, ImageDescriptor, PrimitiveTopology,
    RegisterSweep, RegisterWrite, SwizzleMode, WaveWidths, CB_BLEND0_CONTROL, PA_CL_VPORT_XSCALE, PA_CL_VTE_CNTL,
    colour_target_extent_at, scissor_at, spec_decode_colour_target_extent, spec_decode_scissor, Scissor,
    CB_COLOR0_ATTRIB2, PA_SC_GENERIC_SCISSOR_TL, PA_SC_GENERIC_SCISSOR_BR, Vocabulary, ShaderCandidate,
    candidates_of, shader_candidates_before,
};

verus! {

/// Which queue a command buffer was submitted to: one draws and one dispatches compute.
#[derive(Debug, Clone, Copy, PartialEq, Eq, Structural)]
pub enum Queue {
    /// Drawing.
    Draw,
    /// Compute dispatch.
    Compute,
}

impl Queue {
    /// The shader stages a submission to this queue may bind: vertex and fragment for drawing,
    /// compute for dispatch.
    pub open spec fn spec_permits(self, stage: ShaderStage) -> bool {
        match self {
            Queue::Draw => stage is Vertex || stage is Fragment,
            Queue::Compute => stage is Compute,
        }
    }

    /// The shader stages a submission to this queue may bind - used to report a stage that
    /// cannot belong, rather than to silently drop it.
    pub fn permits(self, stage: ShaderStage) -> (r: bool)
        ensures
            r == self.spec_permits(stage),
    {
        match self {
            Queue::Draw => match stage {
                ShaderStage::Vertex => true,
                ShaderStage::Fragment => true,
                ShaderStage::Compute => false,
            },
            Queue::Compute => match stage {
                ShaderStage::Compute => true,
                _ => false,
            },
        }
    }
}

/// A shader the guest registered by name, rather than one inferred from register writes.
#[derive(Debug, Clone, Copy, PartialEq, Eq, Structural)]
pub struct RegisteredShader {
    /// Guest address of the shader's code.
    pub address: u64,
    /// Stage it was registered for.
    pub stage: ShaderStage,
}

/// Reads guest memory: one fallible read, so a test can supply a buffer and an emulator the
/// mapped guest pages. `None` rather than a short read or zeros when the range is not mapped.
pub trait GuestMemory {
    /// The bytes a read of `length` at `address` finds, or `None` when the range is not mapped.
    spec fn spec_read(&self, address: u64, length: usize) -> Option<Seq<u8>>;

    /// Bytes at a guest virtual address, or `None` if the range is not mapped.
    fn read(&self, address: u64, length: usize) -> (r: Option<&[u8]>)
        ensures
            self.spec_read(address, length) == match r {
                Some(bytes) => Some(bytes@),
                None => None,
            },
    ;
}

/// The largest shader read out of guest memory: the window the decoder may look in for the
/// instruction that ends a program.
pub const MAX_SHADER_BYTES: usize = 65536;

/// The smallest window worth trying: one instruction that ends a program.
pub const MIN_SHADER_BYTES: usize = 4;

/// How many window lengths are tried: from [`MAX_SHADER_BYTES`] halving down to [`MIN_SHADER_BYTES`].
pub const WINDOW_TRIES: usize = 15;

/// The window length tried `k`-th: [`MAX_SHADER_BYTES`] halved `k` times.
pub open spec fn window_length(k: nat) -> usize
    decreases k,
{
    if k == 0 {
        MAX_SHADER_BYTES
    } else {
        (window_length((k - 1) as nat) / 2) as usize
    }
}

/// The lengths tried stay at least [`MIN_SHADER_BYTES`] exactly for the first [`WINDOW_TRIES`].
proof fn lemma_window_lengths(k: nat)
    requires
        k <= WINDOW_TRIES,
    ensures
        window_length(k) >= MIN_SHADER_BYTES <==> k < WINDOW_TRIES,
        window_length(k) <= MAX_SHADER_BYTES,
{
    reveal_with_fuel(window_length, 16);
}

/// Whether `b` is what reading `memory` at `address` first gives, trying the window lengths in
/// turn: the `k`-th length is readable, every longer one before it was not, and `b` is its bytes.
pub open spec fn first_window<M: GuestMemory>(memory: M, address: u64, k: nat, b: Seq<u8>) -> bool {
    &&& k < WINDOW_TRIES
    &&& memory.spec_read(address, window_length(k)) == Some(b)
    &&& forall|j: nat| j < k ==> #[trigger] memory.spec_read(address, window_length(j)) is None
}

/// Reads a shader's window out of guest memory, narrowing from the largest window by halves
/// until a read succeeds: a shader near the end of a mapping is ordinary, and its placement in
/// memory should not decide whether it works. `None` when not even the smallest window is
/// mapped.
pub fn read_window<'m, M: GuestMemory>(memory: &'m M, address: u64) -> (r: Option<&'m [u8]>)
    ensures
        match r {
            Some(b) => exists|k: nat| #[trigger] first_window(*memory, address, k, b@),
            None => forall|k: nat| k < WINDOW_TRIES ==> #[trigger] memory.spec_read(address, window_length(k)) is None,
        },
{
    let mut length: usize = MAX_SHADER_BYTES;
    let ghost mut k: nat = 0;
    proof {
        lemma_window_lengths(0);
    }
    while length >= MIN_SHADER_BYTES
        invariant
            k <= WINDOW_TRIES,
            length == window_length(k),
            length >= MIN_SHADER_BYTES <==> k < WINDOW_TRIES,
            forall|j: nat| j < k ==> #[trigger] memory.spec_read(address, window_length(j)) is None,
        decreases length,
    {
        match memory.read(address, length) {
            Some(bytes) => {
                proof {
                    assert(first_window(*memory, address, k, bytes@));
                }
                return Some(bytes);
            },
            None => {},
        }
        length = length / 2;
        proof {
            k = k + 1;
            lemma_window_lengths(k);
        }
    }
    None
}

/// Converts a GPU virtual address to the guest virtual address holding the same bytes: the
/// identity, since the console shares one coherent memory pool between both processors - named
/// so that if the two spaces turn out to differ by a constant, the change is one edit.
pub fn guest_address_of(gpu_address: u64) -> (r: u64)
    ensures
        r == gpu_address,
{
    gpu_address
}

/// The output shape a vertex-slot shader's mesh module assembles: points, lines or triangles.
#[derive(Debug, Clone, Copy, PartialEq, Eq, Structural)]
pub enum MeshPrimitive {
    /// One index per primitive.
    Points,
    /// Two indices per primitive.
    Lines,
    /// Three indices per primitive.
    Triangles,
}

impl MeshPrimitive {
    /// How many indices one primitive of this shape takes.
    pub open spec fn spec_indices(self) -> u32 {
        match self {
            MeshPrimitive::Points => 1,
            MeshPrimitive::Lines => 2,
            MeshPrimitive::Triangles => 3,
        }
    }

    /// How many indices one primitive of this shape takes: one for a point, two for a line,
    /// three for a triangle - the whole difference between the three shapes.
    pub fn indices(self) -> (r: u32)
        ensures
            r == self.spec_indices(),
    {
        match self {
            MeshPrimitive::Points => 1,
            MeshPrimitive::Lines => 2,
            MeshPrimitive::Triangles => 3,
        }
    }
}

/// What a mesh primitive mixes into a shader's cache key: a point and a triangle built from the
/// same bytes are different modules.
pub open spec fn spec_primitive_salt(primitive: MeshPrimitive) -> u64 {
    match primitive {
        MeshPrimitive::Points => 0x504f_494e_0000_0001,
        MeshPrimitive::Lines => 0x4c49_4e45_0000_0001,
        MeshPrimitive::Triangles => 0,
    }
}

/// Distinguishes the same shader translated for different mesh primitives, in the cache key.
pub fn primitive_salt(primitive: MeshPrimitive) -> (r: u64)
    ensures
        r == spec_primitive_salt(primitive),
{
    match primitive {
        MeshPrimitive::Points => 0x504f_494e_0000_0001,
        MeshPrimitive::Lines => 0x4c49_4e45_0000_0001,
        MeshPrimitive::Triangles => 0,
    }
}

/// Each mesh primitive salts a cache key differently, so the same bytes at two topologies never
/// share a cache entry.
pub proof fn lemma_primitive_salts_differ(a: MeshPrimitive, b: MeshPrimitive)
    requires
        a != b,
    ensures
        spec_primitive_salt(a) != spec_primitive_salt(b),
{
}

/// The refusal for a topology with no mesh-primitive shape, naming it.
pub open spec fn unassembled_topology(topology: PrimitiveTopology) -> Seq<char> {
    "the draw's primitive topology is "@ + topology.spec_label()
        + ", which has no mesh-primitive shape to assemble - a point, line or triangle is emitted, and this is refused rather than drawn as one of them"@
}

/// The mesh primitive a decoded topology asks the translator to assemble: a point list, a line
/// strip and a triangle strip map onto the three shapes; a rectangle list and any unknown value
/// are refused by name rather than drawn as a triangle.
pub fn mesh_primitive_of(topology: PrimitiveTopology) -> (r: Result<MeshPrimitive, String>)
    ensures
        match topology {
            PrimitiveTopology::PointList => r == Ok::<MeshPrimitive, String>(MeshPrimitive::Points),
            PrimitiveTopology::LineStrip => r == Ok::<MeshPrimitive, String>(MeshPrimitive::Lines),
            PrimitiveTopology::TriangleStrip => r == Ok::<MeshPrimitive, String>(
                MeshPrimitive::Triangles,
            ),
            _ => r matches Err(message) && message@ == unassembled_topology(topology),
        },
{
    match topology {
        PrimitiveTopology::PointList => Ok(MeshPrimitive::Points),
        PrimitiveTopology::LineStrip => Ok(MeshPrimitive::Lines),
        PrimitiveTopology::TriangleStrip => Ok(MeshPrimitive::Triangles),
        _ => {
            let mut message = String::from_str("the draw's primitive topology is ");
            let label = topology.label();
            message.append(label.as_str());
            message.append(
                ", which has no mesh-primitive shape to assemble - a point, line or triangle is emitted, and this is refused rather than drawn as one of them",
            );
            Err(message)
        },
    }
}

/// Why a shader could not be prepared.
#[derive(Debug, Clone, PartialEq, Eq)]
pub struct ShaderFailure {
    /// Guest address the shader was to be read from.
    pub address: u64,
    /// Stage it would have bound to, as the guest's register named it.
    pub stage: String,
    /// What went wrong, in a form a worklist can rank.
    pub reason: String,
}

/// A stage where the two routes to a shader address did not agree.
#[derive(Debug, Clone, PartialEq, Eq, Structural)]
pub struct Disagreement {
    /// Which stage.
    pub stage: ShaderStage,
    /// What the guest registered.
    pub registered: u64,
    /// What the register writes implied.
    pub inferred: u64,
}

/// What a submission turned out to contain: counts first, because counts decide where effort
/// goes.
#[derive(Debug, Clone, Default, PartialEq, Eq)]
pub struct SubmissionReport {
    /// Packets the walk recognised.
    pub packets: usize,
    /// Register writes extracted from them.
    pub register_writes: usize,
    /// Draws the stream asked for.
    pub draws: usize,
    /// The primitive the draw's geometry produces, from `VGT_GS_OUT_PRIM_TYPE`; `None` when the
    /// stream set it nowhere.
    pub primitive_topology: Option<PrimitiveTopology>,
    /// Which stages the stream declared thirty-two lanes wide.
    pub wave_widths: WaveWidths,
    /// Shader addresses the registers named.
    pub shaders_found: usize,
    /// Of those, how many produced a module.
    pub shaders_translated: usize,
    /// Of those, how many came from the cache rather than being translated again.
    pub cache_hits: usize,
    /// Shaders the guest registered by name.
    pub registered: usize,
    /// Shader addresses the register writes implied.
    pub inferred: usize,
    /// Stages where both routes produced an address and the two matched.
    pub agreed: usize,
    /// Stages where both produced an address and they differed.
    pub disagreed: Vec<Disagreement>,
    /// Stages named by a route that the queue does not permit.
    pub impossible_stages: Vec<String>,
    /// Every shader that did not translate, and why.
    pub failures: Vec<ShaderFailure>,
    /// Addresses a register named that guest memory recognised.
    pub addresses_resolved: usize,
    /// Addresses a register named that guest memory did not recognise.
    pub addresses_unresolved: usize,
    /// Shaders that translated, and something about them worth knowing.
    pub warnings: Vec<String>,
    /// Every distinct texture the draws' pixel shaders name, in first-use order.
    pub textures: Vec<ImageDescriptor>,
}

/// One submission, prepared for a backend.
#[derive(Debug, Clone, Default)]
pub struct Submission {
    /// What the backend should do, in order.
    pub commands: Vec<RenderCommand>,
    /// Modules the commands refer to, for a backend that has not seen them before, by their
    /// resource id's value.
    pub modules: std::collections::BTreeMap<u64, Vec<u32>>,
    /// Colour render targets the commands select, by the value of the id a
    /// [`RenderCommand::SetRenderTargets`] names, to their dimensions. A target carries no bytes -
    /// only the size a backend allocates its attachment to - and is made resident the same way.
    pub targets: std::collections::BTreeMap<u64, ColourTargetExtent>,
    /// Colour target zero's base address and extent, decoded from the stream; `None` when the
    /// stream set neither register.
    pub colour_target: Option<ColourTarget>,
    /// Colour target zero's tiling mode; `None` when the stream set none.
    pub colour_target_tiling: Option<SwizzleMode>,
    /// Colour target zero's element layout - the byte order a frame written back into it must
    /// use; `None` when the stream set none.
    pub colour_target_format: Option<ColourTargetFormat>,
    /// How many distinct colour target zero bases the stream wrote: one frame written back for a
    /// submission is honest only when its draws all went to one target.
    pub colour_target_bases: usize,
    /// The depth- and stencil-test state a draw runs under; `None` when the stream set none.
    pub depth_control: Option<DepthControl>,
    /// The stencil operations a draw applies on each test outcome; `None` when the stream set none.
    pub stencil_control: Option<StencilControl>,
    /// Colour target zero's blend state; `None` when the stream set none.
    pub blend_control: Option<BlendControl>,
    /// The guest-memory window this submission's shaders read, as words; empty when the window is
    /// not mapped.
    pub guest_memory: Vec<u32>,
    /// The guest address the window's first word was read from.
    pub guest_memory_base: u64,
    /// What was seen and what failed.
    pub report: SubmissionReport,
}

/// One shader recovered from a command stream and offered to the corpus.
#[derive(Debug, Clone, PartialEq, Eq)]
pub struct CapturedShader {
    /// The content id it was stored under.
    pub id: String,
    /// The pipeline stage the shader address was attributed to. Reported, never dispatched on.
    pub stage: String,
    /// Whether the corpus had not seen it before.
    pub fresh: bool,
    /// Its length in bytes, up to and including the terminator that ended it.
    pub length: usize,
}

/// A shader address that yielded no shader, and why: evidence about whether the register
/// mapping that produced it is right.
#[derive(Debug, Clone, PartialEq, Eq)]
pub struct CaptureMiss {
    /// The stage the missed address was attributed to.
    pub stage: String,
    /// The address that produced nothing.
    pub address: u64,
    /// Why nothing came of it.
    pub reason: String,
}

/// What one command stream contributed to the shader corpus.
#[derive(Debug, Clone, Default, PartialEq, Eq)]
pub struct CaptureReport {
    /// Every shader stored, in the order its address appeared.
    pub captured: Vec<CapturedShader>,
    /// Every address that named no readable, terminated shader.
    pub missed: Vec<CaptureMiss>,
}

/// Why a pipeline could not be built.
#[derive(Debug, Clone, PartialEq, Eq)]
pub enum PipelineError {
    /// A built-in table failed to load.
    Table(String),
}

/// Byte `i` of `bytes`, or zero past their end.
pub open spec fn padded_byte(bytes: Seq<u8>, i: int) -> u8 {
    if 0 <= i < bytes.len() {
        bytes[i]
    } else {
        0
    }
}

/// The little-endian word at byte `at`, zero-padded where fewer than four bytes remain.
pub open spec fn padded_word(bytes: Seq<u8>, at: int) -> u32 {
    (padded_byte(bytes, at) as u32) | ((padded_byte(bytes, at + 1) as u32) << 8u32) | ((padded_byte(
        bytes,
        at + 2,
    ) as u32) << 16u32) | ((padded_byte(bytes, at + 3) as u32) << 24u32)
}

/// The byte at `i`, or zero past the end.
fn byte_or_zero(bytes: &[u8], i: usize) -> (r: u8)
    ensures
        r == padded_byte(bytes@, i as int),
{
    if i < bytes.len() {
        bytes[i]
    } else {
        0
    }
}

/// What a shader's bytes should look like for a cache entry to be served: the module it was
/// translated into, and the length and first and last words of the bytes it was built from.
#[derive(Debug, Clone, Copy, PartialEq, Eq, Structural)]
pub struct Cached {
    /// The translated module.
    pub resource: ResourceId,
    /// The shader's length in bytes.
    pub length: usize,
    /// Its first word.
    pub first: u32,
    /// Its last whole word, or the word at its start when it is shorter than a word.
    pub last: u32,
}

/// The entry `bytes` make for `resource`.
pub open spec fn spec_cached_of(resource: ResourceId, bytes: Seq<u8>) -> Cached {
    Cached {
        resource,
        length: bytes.len() as usize,
        first: padded_word(bytes, 0),
        last: padded_word(bytes, if bytes.len() >= 4 { bytes.len() - 4 } else { 0 }),
    }
}

impl Cached {
    /// What a shader's bytes should look like for this entry to be served.
    pub fn of(resource: ResourceId, bytes: &[u8]) -> (r: Self)
        ensures
            r == spec_cached_of(resource, bytes@),
    {
        let n = bytes.len();
        let at = if n >= 4 {
            n - 4
        } else {
            0
        };
        Cached { resource, length: n, first: Self::word(bytes, 0), last: Self::word(bytes, at) }
    }

    /// Whether these bytes are the ones this entry was built from: same length, same first and
    /// last words.
    pub fn matches(self, bytes: &[u8]) -> (r: bool)
        ensures
            r == (self == spec_cached_of(self.resource, bytes@)),
    {
        let other = Self::of(self.resource, bytes);
        self.length == other.length && self.first == other.first && self.last == other.last
    }

    /// The word at `at`, zero-padded when fewer than four bytes remain - padded rather than
    /// answered as zero, so two different short shaders of one length do not compare equal.
    pub fn word(bytes: &[u8], at: usize) -> (r: u32)
        requires
            at <= usize::MAX - 3,
        ensures
            r == padded_word(bytes@, at as int),
    {
        (byte_or_zero(bytes, at) as u32) | ((byte_or_zero(bytes, at + 1) as u32) << 8u32) | ((
        byte_or_zero(bytes, at + 2) as u32) << 16u32) | ((byte_or_zero(bytes, at + 3) as u32)
            << 24u32)
    }
}

/// A cache entry recognises the shader it was built from, and refuses one of another length or
/// with another first or last word.
pub proof fn lemma_entry_recognises_its_own_bytes(resource: ResourceId, bytes: Seq<u8>, other: Seq<u8>)
    requires
        bytes.len() <= usize::MAX,
        other.len() <= usize::MAX,
    ensures
        spec_cached_of(resource, bytes) == spec_cached_of(spec_cached_of(resource, bytes).resource, bytes),
        bytes.len() != other.len() ==> spec_cached_of(resource, bytes) != spec_cached_of(resource, other),
        padded_word(bytes, 0) != padded_word(other, 0) ==> spec_cached_of(resource, bytes)
            != spec_cached_of(resource, other),
        bytes.len() == other.len() && bytes.len() >= 4 && padded_word(bytes, bytes.len() - 4)
            != padded_word(other, other.len() - 4) ==> spec_cached_of(resource, bytes)
            != spec_cached_of(resource, other),
{
}

/// The stage a register name refers to: vertex, fragment (or pixel), compute; an unknown name is
/// `None` rather than a guess.
pub open spec fn spec_stage_of(name: Seq<char>) -> Option<ShaderStage> {
    if name == "vertex"@ {
        Some(ShaderStage::Vertex)
    } else if name == "fragment"@ || name == "pixel"@ {
        Some(ShaderStage::Fragment)
    } else if name == "compute"@ {
        Some(ShaderStage::Compute)
    } else {
        None
    }
}

/// The stage a register name refers to.
pub fn stage_of(name: &str) -> (r: Option<ShaderStage>)
    ensures
        r == spec_stage_of(name@),
{
    let owned = name.to_owned();
    if owned == String::from_str("vertex") {
        Some(ShaderStage::Vertex)
    } else if owned == String::from_str("fragment") || owned == String::from_str("pixel") {
        Some(ShaderStage::Fragment)
    } else if owned == String::from_str("compute") {
        Some(ShaderStage::Compute)
    } else {
        None
    }
}

/// A shader address to prepare, and the stage it is prepared for.
#[derive(Debug, Clone, Copy, PartialEq, Eq, Structural)]
pub struct Candidate {
    /// Guest address of the shader's code.
    pub address: u64,
    /// The stage it is prepared for.
    pub stage: ShaderStage,
}

/// Where a stage sorts among the stages: vertex, fragment, compute.
pub open spec fn stage_index(stage: ShaderStage) -> int {
    match stage {
        ShaderStage::Vertex => 0,
        ShaderStage::Fragment => 1,
        ShaderStage::Compute => 2,
    }
}

/// The stage at a place in that order.
pub open spec fn stage_at(index: int) -> ShaderStage {
    if index == 0 {
        ShaderStage::Vertex
    } else if index == 1 {
        ShaderStage::Fragment
    } else {
        ShaderStage::Compute
    }
}

/// A stage's name in a report.
pub open spec fn stage_name(stage: ShaderStage) -> Seq<char> {
    match stage {
        ShaderStage::Vertex => "Vertex"@,
        ShaderStage::Fragment => "Fragment"@,
        ShaderStage::Compute => "Compute"@,
    }
}

/// A queue's name in a report.
pub open spec fn queue_name(queue: Queue) -> Seq<char> {
    match queue {
        Queue::Draw => "Draw"@,
        Queue::Compute => "Compute"@,
    }
}

/// The note a stage the queue does not permit leaves in a report: the route that named it, the
/// stage, and the queue.
pub open spec fn impossible_note(route: Seq<char>, stage: ShaderStage, queue: Queue) -> Seq<char> {
    route + " "@ + stage_name(stage) + " on "@ + queue_name(queue)
}

/// Where reconciling the two routes stands: the address chosen for each stage, in stage order,
/// and what the report has gained - agreements, disagreements, and notes of stages the queue does
/// not permit.
pub struct Reconciled {
    pub chosen: Seq<Option<u64>>,
    pub agreed: nat,
    pub disagreed: Seq<Disagreement>,
    pub impossible: Seq<Seq<char>>,
}

/// Nothing chosen, nothing gained.
pub open spec fn nothing_reconciled() -> Reconciled {
    Reconciled { chosen: seq![None, None, None], agreed: 0, disagreed: Seq::empty(), impossible: Seq::empty() }
}

/// One registered shader taken: chosen for its stage, over any registered before it, when the
/// queue permits the stage; otherwise noted.
pub open spec fn registered_step(queue: Queue, st: Reconciled, entry: RegisteredShader) -> Reconciled {
    if queue.spec_permits(entry.stage) {
        Reconciled { chosen: st.chosen.update(stage_index(entry.stage), Some(entry.address)), ..st }
    } else {
        Reconciled { impossible: st.impossible.push(impossible_note("registered"@, entry.stage, queue)), ..st }
    }
}

/// Registered shaders taken in order.
pub open spec fn registered_taken(queue: Queue, st: Reconciled, entries: Seq<RegisteredShader>) -> Reconciled
    decreases entries.len(),
{
    if entries.len() == 0 {
        st
    } else {
        registered_step(queue, registered_taken(queue, st, entries.drop_last()), entries.last())
    }
}

/// One inferred address taken: a stage name that is none is passed over; a stage the queue does
/// not permit is noted; where the stage has an address already, the two agree or disagree, and
/// the address already chosen stands; otherwise the inferred one is chosen.
pub open spec fn inferred_step(queue: Queue, st: Reconciled, candidate: ShaderCandidate) -> Reconciled {
    match spec_stage_of(candidate.stage@) {
        None => st,
        Some(stage) => if !queue.spec_permits(stage) {
            Reconciled { impossible: st.impossible.push(impossible_note("inferred"@, stage, queue)), ..st }
        } else {
            match st.chosen[stage_index(stage)] {
                Some(existing) => if existing == candidate.address {
                    Reconciled { agreed: st.agreed + 1, ..st }
                } else {
                    Reconciled {
                        disagreed: st.disagreed.push(
                            Disagreement { stage, registered: existing, inferred: candidate.address },
                        ),
                        ..st
                    }
                },
                None => Reconciled { chosen: st.chosen.update(stage_index(stage), Some(candidate.address)), ..st },
            }
        },
    }
}

/// Inferred addresses taken in order.
pub open spec fn inferred_taken(queue: Queue, st: Reconciled, candidates: Seq<ShaderCandidate>) -> Reconciled
    decreases candidates.len(),
{
    if candidates.len() == 0 {
        st
    } else {
        inferred_step(queue, inferred_taken(queue, st, candidates.drop_last()), candidates.last())
    }
}

/// Both routes reconciled: the registered shaders first, then the inferred addresses.
pub open spec fn reconciled(queue: Queue, registered: Seq<RegisteredShader>, inferred: Seq<ShaderCandidate>) -> Reconciled {
    inferred_taken(queue, registered_taken(queue, nothing_reconciled(), registered), inferred)
}

/// The candidates chosen, in stage order, from the places `from` on.
pub open spec fn chosen_from(chosen: Seq<Option<u64>>, from: int) -> Seq<Candidate>
    decreases 3 - from,
{
    if from >= 3 {
        Seq::empty()
    } else {
        match chosen[from] {
            Some(address) => seq![Candidate { address, stage: stage_at(from) }] + chosen_from(chosen, from + 1),
            None => chosen_from(chosen, from + 1),
        }
    }
}

/// A stage's name in a report.
fn stage_text(stage: ShaderStage) -> (r: &'static str)
    ensures
        r@ == stage_name(stage),
{
    match stage {
        ShaderStage::Vertex => "Vertex",
        ShaderStage::Fragment => "Fragment",
        ShaderStage::Compute => "Compute",
    }
}

/// The note a stage the queue does not permit leaves in a report.
fn impossible_text(route: &str, stage: ShaderStage, queue: Queue) -> (r: String)
    ensures
        r@ == impossible_note(route@, stage, queue),
{
    let mut text = String::from_str(route);
    text.append(" ");
    text.append(stage_text(stage));
    text.append(" on ");
    text.append(
        match queue {
            Queue::Draw => "Draw",
            Queue::Compute => "Compute",
        },
    );
    text
}

/// Where a stage sorts among the stages.
fn stage_slot(stage: ShaderStage) -> (r: usize)
    ensures
        r == stage_index(stage),
{
    match stage {
        ShaderStage::Vertex => 0,
        ShaderStage::Fragment => 1,
        ShaderStage::Compute => 2,
    }
}

/// A report's notes, as text.
pub open spec fn notes(texts: Seq<String>) -> Seq<Seq<char>> {
    texts.map_values(|t: String| t@)
}

/// Decides which shader addresses to prepare, from both routes: registration wins where the two
/// overlap, and every overlap is counted either way - agreement is the only evidence that the
/// register vocabulary is right, disagreement the only evidence that it is wrong. A stage the
/// queue does not permit is noted rather than dropped in silence. The addresses come back one per
/// stage, in stage order, and the report gains the routes' counts and what they found.
pub fn reconcile(
    queue: Queue,
    registered: &[RegisteredShader],
    inferred: &[ShaderCandidate],
    report: &mut SubmissionReport,
) -> (r: Vec<Candidate>)
    requires
        old(report).agreed + inferred@.len() <= usize::MAX,
    ensures
        ({
            let done = reconciled(queue, registered@, inferred@);
            &&& r@ == chosen_from(done.chosen, 0)
            &&& *final(report) == (SubmissionReport {
                registered: registered@.len() as usize,
                inferred: inferred@.len() as usize,
                agreed: final(report).agreed,
                disagreed: final(report).disagreed,
                impossible_stages: final(report).impossible_stages,
                ..*old(report)
            })
            &&& final(report).agreed == old(report).agreed + done.agreed
            &&& final(report).disagreed@ == old(report).disagreed@ + done.disagreed
            &&& notes(final(report).impossible_stages@) == notes(old(report).impossible_stages@) + done.impossible
        }),
{
    let ghost start = *report;
    report.registered = registered.len();
    report.inferred = inferred.len();
    let mut chosen: [Option<u64>; 3] = [None, None, None];
    let ghost mut st = nothing_reconciled();
    proof {
        assert(chosen@ =~= st.chosen);
        assert(report.disagreed@ =~= start.disagreed@ + st.disagreed);
        assert(notes(report.impossible_stages@) =~= notes(start.impossible_stages@) + st.impossible);
    }
    let mut i: usize = 0;
    while i < registered.len()
        invariant
            i <= registered@.len(),
            st == registered_taken(queue, nothing_reconciled(), registered@.take(i as int)),
            chosen@ == st.chosen,
            st.agreed == 0,
            *report == (SubmissionReport {
                registered: registered@.len() as usize,
                inferred: inferred@.len() as usize,
                disagreed: report.disagreed,
                impossible_stages: report.impossible_stages,
                ..start
            }),
            report.disagreed@ == start.disagreed@ + st.disagreed,
            notes(report.impossible_stages@) == notes(start.impossible_stages@) + st.impossible,
        decreases registered@.len() - i,
    {
        let entry = registered[i];
        proof {
            assert(registered@.take(i as int + 1).drop_last() =~= registered@.take(i as int));
            assert(registered@.take(i as int + 1).last() == entry);
        }
        if queue.permits(entry.stage) {
            chosen[stage_slot(entry.stage)] = Some(entry.address);
            proof {
                st = registered_step(queue, st, entry);
                assert(chosen@ =~= st.chosen);
            }
        } else {
            let ghost before = report.impossible_stages@;
            let text = impossible_text("registered", entry.stage, queue);
            report.impossible_stages.push(text);
            proof {
                st = registered_step(queue, st, entry);
                assert(notes(before.push(text)) =~= notes(before).push(text@));
                assert(notes(report.impossible_stages@) =~= notes(start.impossible_stages@) + st.impossible);
            }
        }
        i = i + 1;
    }
    proof {
        assert(registered@.take(i as int) =~= registered@);
    }
    let ghost after_registered = st;
    let mut j: usize = 0;
    while j < inferred.len()
        invariant
            i == registered@.len(),
            j <= inferred@.len(),
            st == inferred_taken(queue, after_registered, inferred@.take(j as int)),
            after_registered.agreed == 0,
            st.agreed <= j,
            chosen@ == st.chosen,
            start.agreed + inferred@.len() <= usize::MAX,
            *report == (SubmissionReport {
                registered: registered@.len() as usize,
                inferred: inferred@.len() as usize,
                agreed: report.agreed,
                disagreed: report.disagreed,
                impossible_stages: report.impossible_stages,
                ..start
            }),
            report.agreed == start.agreed + st.agreed,
            report.disagreed@ == start.disagreed@ + st.disagreed,
            notes(report.impossible_stages@) == notes(start.impossible_stages@) + st.impossible,
        decreases inferred@.len() - j,
    {
        let candidate = &inferred[j];
        proof {
            assert(inferred@.take(j as int + 1).drop_last() =~= inferred@.take(j as int));
            assert(inferred@.take(j as int + 1).last() == *candidate);
        }
        match stage_of(candidate.stage.as_str()) {
            None => {
                proof {
                    st = inferred_step(queue, st, *candidate);
                }
            },
            Some(stage) => {
                if !queue.permits(stage) {
                    let ghost before = report.impossible_stages@;
                    let text = impossible_text("inferred", stage, queue);
                    report.impossible_stages.push(text);
                    proof {
                        st = inferred_step(queue, st, *candidate);
                        assert(notes(before.push(text)) =~= notes(before).push(text@));
                        assert(notes(report.impossible_stages@) =~= notes(start.impossible_stages@) + st.impossible);
                    }
                } else {
                    let slot = stage_slot(stage);
                    match chosen[slot] {
                        Some(existing) => {
                            if existing == candidate.address {
                                report.agreed = report.agreed + 1;
                                proof {
                                    st = inferred_step(queue, st, *candidate);
                                }
                            } else {
                                report.disagreed.push(
                                    Disagreement { stage, registered: existing, inferred: candidate.address },
                                );
                                proof {
                                    st = inferred_step(queue, st, *candidate);
                                    assert(report.disagreed@ =~= start.disagreed@ + st.disagreed);
                                }
                            }
                        },
                        None => {
                            chosen[slot] = Some(candidate.address);
                            proof {
                                st = inferred_step(queue, st, *candidate);
                                assert(chosen@ =~= st.chosen);
                            }
                        },
                    }
                }
            },
        }
        j = j + 1;
    }
    proof {
        assert(inferred@.take(j as int) =~= inferred@);
    }
    let mut out: Vec<Candidate> = Vec::new();
    let mut k: usize = 0;
    while k < 3
        invariant
            k <= 3,
            chosen@.len() == 3,
            out@ + chosen_from(chosen@, k as int) == chosen_from(chosen@, 0),
        decreases 3 - k,
    {
        match chosen[k] {
            Some(address) => {
                let stage = if k == 0 {
                    ShaderStage::Vertex
                } else if k == 1 {
                    ShaderStage::Fragment
                } else {
                    ShaderStage::Compute
                };
                proof {
                    assert(stage == stage_at(k as int));
                }
                let ghost earlier = out@;
                out.push(Candidate { address, stage });
                proof {
                    assert(earlier + chosen_from(chosen@, k as int) =~= out@ + chosen_from(chosen@, k as int + 1));
                }
            },
            None => {},
        }
        k = k + 1;
    }
    proof {
        assert(out@ + chosen_from(chosen@, 3) =~= out@);
    }
    out
}

/// The top bit, which tags a colour target's id apart from the small sequential shader ids.
pub const TARGET_NAMESPACE: u64 = 0x8000_0000_0000_0000;

/// The id a colour target of an extent is keyed by: the namespace bit, the width above bit 16
/// and the height below it.
pub open spec fn spec_colour_target_id(extent: ColourTargetExtent) -> ResourceId {
    ResourceId(TARGET_NAMESPACE | ((extent.width as u64) << 16u64) | (extent.height as u64))
}

/// A content-addressed id for a colour target of a given extent: keyed on the extent, which the
/// captures corroborate, and tagged into the top of the id space so it never collides with a
/// shader's.
pub fn colour_target_id(extent: ColourTargetExtent) -> (r: ResourceId)
    ensures
        r == spec_colour_target_id(extent),
{
    ResourceId(TARGET_NAMESPACE | ((extent.width as u64) << 16u64) | (extent.height as u64))
}

/// `SQ_IMG_RSRC_WORD3.TYPE` for a 2D image.
pub const IMAGE_TYPE_2D: u32 = 9;

/// `GFX10_FORMAT_8_8_8_8_UNORM`.
pub const FORMAT_8_8_8_8_UNORM: u32 = 56;

/// How many textures a texel cache holds before it starts again: enough for a frame's set, and a
/// bound on what a guest streaming new textures every frame can make it keep.
pub const TEXEL_CACHE_ENTRIES: usize = 64;

/// Where the texels of a texture read exactly lie, and their shape: `height` rows of `width`
/// texels, each row `pitch` texels after the one before, `span` bytes in all.
#[derive(Debug, Clone, Copy, PartialEq, Eq, Structural)]
pub struct TextureLayout {
    /// Byte address of the first texel.
    pub base: u64,
    /// Width in texels.
    pub width: u32,
    /// Height in texels.
    pub height: u32,
    /// Texels from one row's start to the next's.
    pub pitch: u32,
    /// Bytes from the first texel to the end of the last.
    pub span: usize,
}

/// The layout of the texture eight descriptor words name, when it is one read exactly - a 2D,
/// linear, `8_8_8_8_UNORM` image. The row pitch is the descriptor's: `SQ_IMG_RSRC_WORD4` bits 0-13
/// carry `pitch - 1` when the pitch exceeds the width and zero when it does not.
pub open spec fn spec_texture_layout(words: [u32; 8]) -> Option<TextureLayout> {
    let d = spec_decode_image_descriptor(words);
    if (words[3] >> 28u32) != IMAGE_TYPE_2D || !(d.tiling is Linear) || d.format != FORMAT_8_8_8_8_UNORM {
        None
    } else {
        let field = words[4] & 0x3FFFu32;
        let pitch: u32 = if field == 0 {
            d.width
        } else {
            (field + 1) as u32
        };
        Some(
            TextureLayout {
                base: d.base,
                width: d.width,
                height: d.height,
                pitch,
                span: (pitch * 4 * (d.height - 1) + d.width * 4) as usize,
            },
        )
    }
}

/// Whether a layout is one a descriptor can name: at least one texel, each dimension and the
/// pitch at most 16384 texels, and the span its rows reach.
pub open spec fn layout_ok(layout: TextureLayout) -> bool {
    &&& 1 <= layout.width <= 16384
    &&& 1 <= layout.height <= 16384
    &&& layout.pitch <= 16384
    &&& layout.span == layout.pitch * 4 * (layout.height - 1) + layout.width * 4
}

/// The layout of the texture eight descriptor words name, or `None` for one not read exactly.
pub fn texture_layout(words: [u32; 8]) -> (r: Option<TextureLayout>)
    ensures
        r == spec_texture_layout(words),
        r matches Some(layout) ==> layout_ok(layout),
{
    let d = decode_image_descriptor(words);
    let kind = words[3] >> 28u32;
    let linear = match d.tiling {
        SwizzleMode::Linear => true,
        _ => false,
    };
    if kind != IMAGE_TYPE_2D || !linear || d.format != FORMAT_8_8_8_8_UNORM {
        return None;
    }
    let w1 = words[1];
    let w2 = words[2];
    proof {
        assert((w1 >> 30u32) & 0x3u32 <= 3 && w2 & 0xFFFu32 <= 0xFFF && (w2 >> 14u32) & 0x3FFFu32 <= 0x3FFF)
            by (bit_vector);
    }
    let w4 = words[4];
    let field = w4 & 0x3FFFu32;
    proof {
        assert(field <= 0x3FFF) by (bit_vector)
            requires
                field == w4 & 0x3FFFu32,
        ;
    }
    let pitch: u32 = if field == 0 {
        d.width
    } else {
        field + 1
    };
    proof {
        assert(1 <= d.width <= 16384 && 1 <= d.height <= 16384);
        assert(pitch <= 16384);
    }
    let row_bytes = pitch as usize * 4;
    proof {
        assert(row_bytes * (d.height - 1) <= 65536 * 16383) by (nonlinear_arith)
            requires
                row_bytes <= 65536,
                d.height - 1 <= 16383,
        ;
    }
    let span = row_bytes * (d.height - 1) as usize + d.width as usize * 4;
    Some(TextureLayout { base: d.base, width: d.width, height: d.height, pitch, span })
}

/// The texel at column `x` of row `y` of a texture laid out as `layout` in `bytes`.
pub open spec fn texel_at(bytes: Seq<u8>, layout: TextureLayout, x: int, y: int) -> u32 {
    le_word(bytes, y * layout.pitch * 4 + x * 4)
}

/// A texture's texels, row-major and tightly packed, gathered from the rows `layout` places in
/// `bytes` - read from its base - each the guest's four bytes in memory order.
pub fn gather_texels(bytes: &[u8], layout: TextureLayout) -> (r: Vec<u32>)
    requires
        layout_ok(layout),
        bytes@.len() >= layout.span,
    ensures
        r@.len() == layout.width * layout.height,
        forall|x: int, y: int|
            0 <= x < layout.width && 0 <= y < layout.height ==> r@[y * layout.width + x] == #[trigger] texel_at(
                bytes@,
                layout,
                x,
                y,
            ),
{
    let width = layout.width as usize;
    let height = layout.height as usize;
    let row_bytes = layout.pitch as usize * 4;
    let mut texels: Vec<u32> = Vec::new();
    let mut y: usize = 0;
    while y < height
        invariant
            width == layout.width,
            height == layout.height,
            row_bytes == layout.pitch * 4,
            layout_ok(layout),
            bytes@.len() >= layout.span,
            y <= height,
            texels@.len() == y * width,
            forall|xx: int, yy: int|
                0 <= xx < width && 0 <= yy < y ==> texels@[yy * width + xx] == #[trigger] texel_at(
                    bytes@,
                    layout,
                    xx,
                    yy,
                ),
        decreases height - y,
    {
        proof {
            assert(y * row_bytes <= (height - 1) * row_bytes) by (nonlinear_arith)
                requires
                    y <= height - 1,
            ;
            assert((y + 1) * width == y * width + width) by (nonlinear_arith);
        }
        let start = y * row_bytes;
        let mut x: usize = 0;
        while x < width
            invariant
                width == layout.width,
                height == layout.height,
                row_bytes == layout.pitch * 4,
                layout_ok(layout),
                bytes@.len() >= layout.span,
                y < height,
                start == y * row_bytes,
                start <= (height - 1) * row_bytes,
                x <= width,
                texels@.len() == y * width + x,
                forall|xx: int, yy: int|
                    0 <= xx < width && 0 <= yy < y ==> texels@[yy * width + xx] == #[trigger] texel_at(
                        bytes@,
                        layout,
                        xx,
                        yy,
                    ),
                forall|xx: int| 0 <= xx < x ==> texels@[y * width + xx] == #[trigger] texel_at(bytes@, layout, xx, y as int),
            decreases width - x,
        {
            let at = start + x * 4;
            proof {
                assert(at + 4 <= layout.span);
                assert(y * layout.pitch * 4 == y * row_bytes) by (nonlinear_arith)
                    requires
                        row_bytes == layout.pitch * 4,
                ;
            }
            let ghost before = texels@;
            texels.push(read_le_word(bytes, at));
            proof {
                assert forall|xx: int, yy: int|
                    0 <= xx < width && 0 <= yy < y implies texels@[yy * width + xx] == #[trigger] texel_at(
                        bytes@,
                        layout,
                        xx,
                        yy,
                    ) by {
                    assert(yy * width + xx < y * width) by (nonlinear_arith)
                        requires
                            0 <= xx < width,
                            0 <= yy < y,
                    ;
                    assert(texels@[yy * width + xx] == before[yy * width + xx]);
                }
            }
            x = x + 1;
        }
        proof {
            assert forall|xx: int, yy: int|
                0 <= xx < width && 0 <= yy < y + 1 implies texels@[yy * width + xx] == #[trigger] texel_at(
                    bytes@,
                    layout,
                    xx,
                    yy,
                ) by {
                if yy == y {
                    assert(texel_at(bytes@, layout, xx, y as int) == texels@[y * width + xx]);
                }
            }
        }
        y = y + 1;
    }
    proof {
        assert(height * width == width * height) by (nonlinear_arith);
    }
    texels
}

/// The eight descriptor words at the start of a descriptor table's bytes, little-endian; a word
/// past the bytes read is zero.
pub fn descriptor_words(bytes: &[u8]) -> (r: [u32; 8])
    ensures
        forall|k: int|
            0 <= k < 8 ==> r[k] == if 4 * k + 4 <= bytes@.len() {
                le_word(bytes@, 4 * k)
            } else {
                0u32
            },
{
    let mut words = [0u32; 8];
    let mut k: usize = 0;
    while k < 8
        invariant
            k <= 8,
            forall|j: int|
                0 <= j < 8 ==> words[j] == if j < k && 4 * j + 4 <= bytes@.len() {
                    le_word(bytes@, 4 * j)
                } else {
                    0u32
                },
        decreases 8 - k,
    {
        if bytes.len() >= 4 && k <= (bytes.len() - 4) / 4 {
            words.set(k, read_le_word(bytes, 4 * k));
        }
        k = k + 1;
    }
    words
}

/// Where and in what shape a texture lies, which a cache entry is kept under.
#[derive(Debug, Clone, Copy, PartialEq, Eq, Structural)]
pub struct TextureKey {
    /// Byte address of the first texel.
    pub base: u64,
    /// Width in texels.
    pub width: u32,
    /// Height in texels.
    pub height: u32,
    /// Texels from one row's start to the next's.
    pub pitch: u32,
}

/// A texture's texels as last read, with their content hash and the host's mark of when.
#[derive(Debug)]
pub struct CachedTexels {
    /// The host's mark of when the texels were read, when it keeps one.
    pub since: Option<u64>,
    /// [`crate::content_hash`] of the texels.
    pub hash: u64,
    /// The texels.
    pub texels: Vec<u32>,
}

/// Texels read from guest memory, by where they lie and their shape, so a texture bound for many
/// draws is read and held once.
#[derive(Debug)]
pub struct TexelCache {
    entries: Vec<(TextureKey, CachedTexels)>,
}

/// Whether `entries` hold at most [`TEXEL_CACHE_ENTRIES`] entries, each under its own key, each
/// hash the content hash of its texels, each as many texels as its key's shape holds.
pub open spec fn cache_entries_ok(entries: Seq<(TextureKey, CachedTexels)>) -> bool {
    &&& entries.len() <= TEXEL_CACHE_ENTRIES
    &&& forall|i: int| 0 <= i < entries.len() ==> #[trigger] entries[i].1.hash == crate::spec_content_hash(
        entries[i].1.texels@,
    ) && entries[i].1.texels@.len() == entries[i].0.width * entries[i].0.height
    &&& forall|i: int, j: int| 0 <= i < j < entries.len() ==> #[trigger] entries[i].0 != #[trigger] entries[j].0
}

/// Where in `entries` the entry under `key` is, if there is one.
pub open spec fn cache_index(entries: Seq<(TextureKey, CachedTexels)>, key: TextureKey) -> Option<int> {
    if exists|i: int| 0 <= i < entries.len() && #[trigger] entries[i].0 == key {
        Some(choose|i: int| 0 <= i < entries.len() && #[trigger] entries[i].0 == key)
    } else {
        None
    }
}

impl TexelCache {
    /// The entries, oldest first.
    pub closed spec fn spec_entries(&self) -> Seq<(TextureKey, CachedTexels)> {
        self.entries@
    }

    /// Whether the cache is consistent: few enough entries, one per key, each hash its texels'.
    pub open spec fn wf(&self) -> bool {
        cache_entries_ok(self.spec_entries())
    }

    /// An empty cache.
    pub fn new() -> (r: Self)
        ensures
            r.wf(),
            r.spec_entries().len() == 0,
    {
        TexelCache { entries: Vec::new() }
    }

    /// How many textures are held.
    pub fn len(&self) -> (r: usize)
        ensures
            r == self.spec_entries().len(),
    {
        self.entries.len()
    }

    fn position(&self, key: TextureKey) -> (r: Option<usize>)
        requires
            self.wf(),
        ensures
            r matches Some(i) ==> i < self.spec_entries().len() && self.spec_entries()[i as int].0 == key,
            r is None ==> forall|i: int| 0 <= i < self.spec_entries().len() ==> #[trigger] self.spec_entries()[i].0 != key,
    {
        let mut i: usize = 0;
        while i < self.entries.len()
            invariant
                i <= self.entries@.len(),
                forall|j: int| 0 <= j < i ==> #[trigger] self.entries@[j].0 != key,
            decreases self.entries@.len() - i,
        {
            if self.entries[i].0 == key {
                return Some(i);
            }
            i = i + 1;
        }
        None
    }

    /// The entry kept under `key`, if any.
    pub fn get(&self, key: TextureKey) -> (r: Option<&CachedTexels>)
        requires
            self.wf(),
        ensures
            r matches Some(c) ==> exists|i: int|
                0 <= i < self.spec_entries().len() && #[trigger] self.spec_entries()[i].0 == key && self.spec_entries()[i].1 == *c,
            r is None ==> forall|i: int| 0 <= i < self.spec_entries().len() ==> #[trigger] self.spec_entries()[i].0 != key,
    {
        match self.position(key) {
            Some(i) => Some(&self.entries[i].1),
            None => None,
        }
    }

    /// Keeps `texels` under `key`, in place of what was kept there; a cache already full of other
    /// textures starts again first.
    pub fn insert(&mut self, key: TextureKey, texels: CachedTexels)
        requires
            old(self).wf(),
            texels.hash == crate::spec_content_hash(texels.texels@),
            texels.texels@.len() == key.width * key.height,
        ensures
            final(self).wf(),
            exists|i: int| 0 <= i < final(self).spec_entries().len() && #[trigger] final(self).spec_entries()[i].0 == key
                && final(self).spec_entries()[i].1 == texels,
            forall|i: int|
                0 <= i < old(self).spec_entries().len() && #[trigger] old(self).spec_entries()[i].0 == key
                    ==> final(self).spec_entries() == old(self).spec_entries().update(i, (key, texels)),
            (forall|i: int| 0 <= i < old(self).spec_entries().len() ==> #[trigger] old(self).spec_entries()[i].0 != key)
                && old(self).spec_entries().len() < TEXEL_CACHE_ENTRIES ==> final(self).spec_entries()
                == old(self).spec_entries().push((key, texels)),
            (forall|i: int| 0 <= i < old(self).spec_entries().len() ==> #[trigger] old(self).spec_entries()[i].0 != key)
                && old(self).spec_entries().len() >= TEXEL_CACHE_ENTRIES ==> final(self).spec_entries() == seq![
                (key, texels),
            ],
    {
        match self.position(key) {
            Some(i) => {
                let ghost before = self.entries@;
                self.entries.set(i, (key, texels));
                proof {
                    assert forall|a: int, b: int| 0 <= a < b < self.entries@.len() implies #[trigger] self.entries@[a].0
                        != #[trigger] self.entries@[b].0 by {
                        assert(self.entries@[a].0 == before[a].0);
                        assert(self.entries@[b].0 == before[b].0);
                    }
                    assert(self.entries@[i as int].0 == key);
                    assert forall|j: int| 0 <= j < before.len() && #[trigger] before[j].0 == key implies j == i by {
                        if j != i {
                            if j < i {
                                assert(before[j].0 != before[i as int].0);
                            } else {
                                assert(before[i as int].0 != before[j].0);
                            }
                        }
                    }
                }
            },
            None => {
                let ghost before = self.entries@;
                if self.entries.len() >= TEXEL_CACHE_ENTRIES {
                    self.entries.clear();
                }
                self.entries.push((key, texels));
                proof {
                    let n = self.entries@.len() - 1;
                    assert(self.entries@[n].0 == key);
                    if before.len() >= TEXEL_CACHE_ENTRIES {
                        assert(self.entries@ =~= seq![(key, texels)]);
                    }
                }
            },
        }
    }
}

/// What the host knows of writes to guest memory since a moment it marked: where it can say that
/// nothing wrote a range since it was last read, nothing needs reading again. Implemented by the
/// embedder; nothing is assumed of what it answers. A watch may state its answers, through
/// [`WriteWatch::spec_written_since`], and then says so through [`WriteWatch::states_answers`]; that
/// is how the texture reader's contract says which answer let it serve texels it held.
pub trait WriteWatch {
    /// Whether this watch states its answers through `spec_written_since`. One that does not is
    /// promised nothing through it.
    closed spec fn states_answers() -> bool {
        false
    }

    /// What `written_since` answers for the range and the mark, of a watch that states it.
    closed spec fn spec_written_since(&self, base: u64, length: u64, mark: u64) -> Option<bool> {
        None
    }

    /// Marks `[base, base + length)` as read now: a mark to ask about it later, when the host keeps
    /// one.
    fn mark(&mut self, base: u64, length: u64) -> Option<u64>;

    /// Whether anything wrote `[base, base + length)` since `mark`, when the host can say.
    fn written_since(&self, base: u64, length: u64, mark: u64) -> (r: Option<bool>)
        ensures
            Self::states_answers() ==> r == self.spec_written_since(base, length, mark),
    ;
}

/// A host that keeps no marks: it vouches for nothing, so every texture is read again.
#[derive(Debug, Clone, Copy, PartialEq, Eq, Structural)]
pub struct NoWatch;

impl WriteWatch for NoWatch {
    open spec fn states_answers() -> bool {
        true
    }

    open spec fn spec_written_since(&self, base: u64, length: u64, mark: u64) -> Option<bool> {
        None
    }

    fn mark(&mut self, base: u64, length: u64) -> Option<u64> {
        None
    }

    fn written_since(&self, base: u64, length: u64, mark: u64) -> (r: Option<bool>) {
        None
    }
}

/// Whether texels held since the mark `since` are still what guest memory holds, by the watch's
/// answer `written` to whether anything wrote them since: only a mark the watch answered "nothing
/// wrote it" for.
pub open spec fn spec_still_current(since: Option<u64>, written: Option<bool>) -> bool {
    since is Some && written == Some(false)
}

/// Whether texels held since the mark `since` can be served again, given the watch's answer.
pub fn still_current(since: Option<u64>, written: Option<bool>) -> (r: bool)
    ensures
        r == spec_still_current(since, written),
{
    match (since, written) {
        (Some(_), Some(false)) => true,
        _ => false,
    }
}

/// Whether `watch` vouches that nothing wrote `[base, base + length)` since the mark `since` - as
/// far as it states its answers.
pub open spec fn vouched_unwritten<W: WriteWatch>(watch: W, base: u64, length: u64, since: Option<u64>) -> bool {
    W::states_answers() ==> match since {
        Some(m) => spec_still_current(since, watch.spec_written_since(base, length, m)),
        None => false,
    }
}

/// A texture's texels as `layout` places them in `bytes`, row-major and tightly packed.
pub open spec fn texels_of(bytes: Seq<u8>, layout: TextureLayout) -> Seq<u32> {
    Seq::new(
        (layout.width * layout.height) as nat,
        |i: int| texel_at(bytes, layout, i % layout.width as int, i / layout.width as int),
    )
}

/// Whether `words` are the descriptor words the table bytes `bytes` hold: each whole little-endian
/// word, zero past the end.
pub open spec fn descriptor_of(words: [u32; 8], bytes: Seq<u8>) -> bool {
    forall|k: int|
        0 <= k < 8 ==> #[trigger] words[k] == if 4 * k + 4 <= bytes.len() {
            le_word(bytes, 4 * k)
        } else {
            0u32
        }
}

/// The layout of the texture the descriptor table at `table` names in `memory`, when the table is
/// readable and its layout is one read exactly.
pub open spec fn table_layout<M: GuestMemory>(memory: &M, table: u64) -> Option<TextureLayout> {
    match memory.spec_read(table, 32) {
        Some(bytes) => if exists|words: [u32; 8]| #[trigger] descriptor_of(words, bytes) {
            spec_texture_layout(choose|words: [u32; 8]| #[trigger] descriptor_of(words, bytes))
        } else {
            None
        },
        None => None,
    }
}

/// The descriptor words read from a table fix its layout.
proof fn lemma_table_layout_is<M: GuestMemory>(memory: &M, table: u64, words: [u32; 8])
    requires
        memory.spec_read(table, 32) matches Some(bytes) && descriptor_of(words, bytes),
    ensures
        table_layout(memory, table) == spec_texture_layout(words),
{
    let bytes = memory.spec_read(table, 32)->0;
    let chosen = choose|w: [u32; 8]| #[trigger] descriptor_of(w, bytes);
    assert(descriptor_of(chosen, bytes));
    assert(chosen =~= words) by {
        assert forall|k: int| 0 <= k < 8 implies chosen[k] == words[k] by {
            assert(descriptor_of(chosen, bytes));
            assert(descriptor_of(words, bytes));
        }
    }
}

/// Gathered texels are the texels `layout` places in the bytes.
proof fn lemma_gathered_texels(r: Seq<u32>, bytes: Seq<u8>, layout: TextureLayout)
    requires
        layout_ok(layout),
        r.len() == layout.width * layout.height,
        forall|x: int, y: int|
            0 <= x < layout.width && 0 <= y < layout.height ==> r[y * layout.width + x] == #[trigger] texel_at(
                bytes,
                layout,
                x,
                y,
            ),
    ensures
        r == texels_of(bytes, layout),
{
    let w = layout.width as int;
    let h = layout.height as int;
    assert forall|i: int| 0 <= i < r.len() implies r[i] == texels_of(bytes, layout)[i] by {
        let x = i % w;
        let y = i / w;
        vstd::arithmetic::div_mod::lemma_fundamental_div_mod(i, w);
        assert(0 <= x < w);
        vstd::arithmetic::div_mod::lemma_div_pos_is_pos(i, w);
        assert(y * w + x == i) by (nonlinear_arith)
            requires
                i == w * (i / w) + i % w,
                y == i / w,
                x == i % w,
        ;
        assert(y < h) by (nonlinear_arith)
            requires
                i == y * w + x,
                0 <= x < w,
                i < w * h,
                w > 0,
        ;
        assert(r[y * w + x] == texel_at(bytes, layout, x, y));
    }
    assert(r =~= texels_of(bytes, layout));
}

/// The texture a descriptor table's first eight words name, as a
/// [`RenderCommand::BindTexture`] in `slot` - or `None` for a table that is not readable, or a
/// texture whose layout is not one read exactly. A texture the cache holds at the same place and
/// shape is served from it where the host vouches nothing wrote it since; otherwise it is read
/// again, and texels whose hash the cache holds there already are shared rather than kept twice.
/// Whatever it answers, its hash is the content hash of its texels.
pub fn read_texture<M: GuestMemory, W: WriteWatch>(
    table: u64,
    slot: u32,
    memory: &M,
    texels: &mut TexelCache,
    watch: &mut W,
) -> (r: Option<RenderCommand>)
    requires
        old(texels).wf(),
    ensures
        final(texels).wf(),
        r matches Some(command) ==> command matches RenderCommand::BindTexture { slot: s, texels: t, hash, width, height }
            && s == slot && hash == crate::spec_content_hash(t@) && t@.len() == width * height,
        table_layout(memory, table) is None ==> r is None,
        r matches Some(RenderCommand::BindTexture { texels: t, width, height, .. }) ==> {
            let layout = table_layout(memory, table)->0;
            let key = TextureKey { base: layout.base, width: layout.width, height: layout.height, pitch: layout.pitch };
            &&& table_layout(memory, table) is Some
            &&& width == layout.width
            &&& height == layout.height
            &&& {
                ||| memory.spec_read(layout.base, layout.span as usize) matches Some(bytes) && bytes.len()
                    >= layout.span && (t@ == texels_of(bytes, layout) || exists|i: int|
                    0 <= i < old(texels).spec_entries().len() && #[trigger] old(texels).spec_entries()[i].0 == key
                        && old(texels).spec_entries()[i].1.hash == crate::spec_content_hash(texels_of(bytes, layout))
                        && t@ == old(texels).spec_entries()[i].1.texels@)
                ||| exists|i: int|
                    0 <= i < old(texels).spec_entries().len() && #[trigger] old(texels).spec_entries()[i].0 == key
                        && t@ == old(texels).spec_entries()[i].1.texels@ && vouched_unwritten(
                        *old(watch),
                        layout.base,
                        layout.span as u64,
                        old(texels).spec_entries()[i].1.since,
                    )
            }
        },
        table_layout(memory, table) matches Some(layout) && memory.spec_read(layout.base, layout.span as usize)
            matches Some(bytes) && bytes.len() >= layout.span ==> r is Some,
{
    let table_bytes = match memory.read(table, 32) {
        Some(bytes) => bytes,
        None => {
            return None;
        },
    };
    let words = descriptor_words(table_bytes);
    proof {
        lemma_table_layout_is(memory, table, words);
    }
    let layout = match texture_layout(words) {
        Some(layout) => layout,
        None => {
            return None;
        },
    };
    let key = TextureKey { base: layout.base, width: layout.width, height: layout.height, pitch: layout.pitch };
    proof {
        assert(layout.width * layout.height <= 16384 * 16384) by (nonlinear_arith)
            requires
                layout.width <= 16384,
                layout.height <= 16384,
        ;
    }
    let span = layout.span as u64;
    match texels.get(key) {
        Some(cached) => {
            let written = match cached.since {
                Some(since) => watch.written_since(layout.base, span, since),
                None => None,
            };
            if still_current(cached.since, written) {
                return Some(
                    RenderCommand::BindTexture {
                        slot,
                        texels: vstd::slice::slice_to_vec(cached.texels.as_slice()),
                        hash: cached.hash,
                        width: layout.width,
                        height: layout.height,
                    },
                );
            }
        },
        None => {},
    }
    let since = watch.mark(layout.base, span);
    let bytes = match memory.read(layout.base, layout.span) {
        Some(bytes) => bytes,
        None => {
            return None;
        },
    };
    if bytes.len() < layout.span {
        return None;
    }
    let gathered = gather_texels(bytes, layout);
    proof {
        lemma_gathered_texels(gathered@, bytes@, layout);
    }
    let hash = crate::content_hash(gathered.as_slice());
    let shared = match texels.get(key) {
        Some(cached) => {
            if cached.hash == hash {
                vstd::slice::slice_to_vec(cached.texels.as_slice())
            } else {
                gathered
            }
        },
        None => gathered,
    };
    texels.insert(key, CachedTexels { since, hash, texels: vstd::slice::slice_to_vec(shared.as_slice()) });
    Some(RenderCommand::BindTexture { slot, texels: shared, hash, width: layout.width, height: layout.height })
}

/// Where a fragment module's texture comes from: its slot among the textures the module samples,
/// and the byte offset into the stage's descriptor table its image descriptor sits at, when it
/// came from the table.
#[derive(Debug, Clone, Copy, PartialEq, Eq, Structural)]
pub struct TextureSource {
    /// Which of the module's textures this is: 0 for the first it samples.
    pub slot: u32,
    /// Byte offset of its descriptor in the table; `None` when it did not come from the table.
    pub table_offset: Option<u32>,
}

/// The descriptor table a fragment `SetUserData` names: its words 0 and 1, low then high.
pub open spec fn fragment_table(command: RenderCommand) -> Option<u64> {
    match command {
        RenderCommand::SetUserData { stage: ShaderStage::Fragment, words } => Some(
            (words[0] as u64) | ((words[1] as u64) << 32u64),
        ),
        _ => None,
    }
}

/// How many fragment `SetUserData` commands there are among `commands`.
pub open spec fn fragment_tables(commands: Seq<RenderCommand>) -> nat
    decreases commands.len(),
{
    if commands.len() == 0 {
        0
    } else {
        fragment_tables(commands.drop_last()) + if fragment_table(commands.last()) is Some {
            1nat
        } else {
            0nat
        }
    }
}

/// Whether no two entries of `s` are the same.
pub open spec fn distinct<T>(s: Seq<T>) -> bool {
    forall|i: int, j: int| 0 <= i < j < s.len() ==> #[trigger] s[i] != #[trigger] s[j]
}

fn table_of(words: &[u32; 32]) -> (r: u64)
    ensures
        r == (words[0] as u64) | ((words[1] as u64) << 32u64),
{
    (words[0] as u64) | ((words[1] as u64) << 32u64)
}

/// The image descriptor the table at `table` holds in `memory`, when the table is readable.
pub open spec fn table_descriptor<M: GuestMemory>(memory: &M, table: u64) -> Option<ImageDescriptor> {
    match memory.spec_read(table, 32) {
        Some(bytes) => if exists|words: [u32; 8]| #[trigger] descriptor_of(words, bytes) {
            Some(spec_decode_image_descriptor(choose|words: [u32; 8]| #[trigger] descriptor_of(words, bytes)))
        } else {
            None
        },
        None => None,
    }
}

/// The distinct image descriptors the fragment tables among `commands` name in `memory`, in
/// first-use order, a table that is not readable naming none.
pub open spec fn census<M: GuestMemory>(memory: &M, commands: Seq<RenderCommand>) -> Seq<ImageDescriptor>
    decreases commands.len(),
{
    if commands.len() == 0 {
        Seq::empty()
    } else {
        let before = census(memory, commands.drop_last());
        match fragment_table(commands.last()) {
            Some(t) => match table_descriptor(memory, t) {
                Some(d) => if before.contains(d) {
                    before
                } else {
                    before.push(d)
                },
                None => before,
            },
            None => before,
        }
    }
}

/// The descriptor words read from a table fix the descriptor it holds.
proof fn lemma_table_descriptor_is<M: GuestMemory>(memory: &M, table: u64, words: [u32; 8])
    requires
        memory.spec_read(table, 32) matches Some(bytes) && descriptor_of(words, bytes),
    ensures
        table_descriptor(memory, table) == Some(spec_decode_image_descriptor(words)),
{
    let bytes = memory.spec_read(table, 32)->0;
    let chosen = choose|w: [u32; 8]| #[trigger] descriptor_of(w, bytes);
    assert(descriptor_of(chosen, bytes));
    assert(chosen =~= words) by {
        assert forall|k: int| 0 <= k < 8 implies chosen[k] == words[k] by {
            assert(descriptor_of(chosen, bytes));
            assert(descriptor_of(words, bytes));
        }
    }
}

/// The distinct image descriptors the draws' pixel shaders name, in first-use order: each
/// fragment `SetUserData`'s words 0 and 1 are a descriptor table's address, whose first eight
/// words are the image descriptor. A table that is not readable guest memory names nothing.
pub fn texture_census<M: GuestMemory>(commands: &[RenderCommand], memory: &M) -> (r: Vec<ImageDescriptor>)
    ensures
        distinct(r@),
        r@.len() <= fragment_tables(commands@),
        r@ == census(memory, commands@),
{
    let mut textures: Vec<ImageDescriptor> = Vec::new();
    let mut i: usize = 0;
    while i < commands.len()
        invariant
            i <= commands@.len(),
            distinct(textures@),
            textures@.len() <= fragment_tables(commands@.take(i as int)),
            textures@ == census(memory, commands@.take(i as int)),
        decreases commands@.len() - i,
    {
        proof {
            assert(commands@.take(i as int + 1).drop_last() =~= commands@.take(i as int));
            assert(commands@.take(i as int + 1).last() == commands@[i as int]);
        }
        match &commands[i] {
            RenderCommand::SetUserData { stage: ShaderStage::Fragment, words } => {
                let table = table_of(words);
                match memory.read(table, 32) {
                    Some(bytes) => {
                        let dwords = descriptor_words(bytes);
                        proof {
                            lemma_table_descriptor_is(memory, table, dwords);
                        }
                        let texture = decode_image_descriptor(dwords);
                        let mut seen = false;
                        let mut k: usize = 0;
                        while k < textures.len()
                            invariant
                                k <= textures@.len(),
                                seen == exists|j: int| 0 <= j < k && textures@[j] == texture,
                            decreases textures@.len() - k,
                        {
                            if textures[k] == texture {
                                seen = true;
                            }
                            k = k + 1;
                        }
                        if !seen {
                            let ghost before = textures@;
                            textures.push(texture);
                            proof {
                                assert forall|a: int, b: int| 0 <= a < b < textures@.len() implies #[trigger] textures@[a]
                                    != #[trigger] textures@[b] by {
                                    if b == textures@.len() - 1 {
                                        assert(textures@[a] == before[a]);
                                    } else {
                                        assert(textures@[a] == before[a] && textures@[b] == before[b]);
                                    }
                                }
                            }
                        }
                    },
                    None => {},
                }
            },
            _ => {},
        }
        i = i + 1;
    }
    proof {
        assert(commands@.take(i as int) =~= commands@);
    }
    textures
}

/// `commands`, each preceded by the commands inserted before it.
pub open spec fn with_inserted(inserted: Seq<Seq<RenderCommand>>, commands: Seq<RenderCommand>) -> Seq<RenderCommand>
    decreases commands.len(),
{
    if commands.len() == 0 || inserted.len() == 0 {
        Seq::empty()
    } else {
        with_inserted(inserted.drop_last(), commands.drop_last()) + inserted.last() + seq![commands.last()]
    }
}

/// Whether every command inserted is a texture bind, and commands are inserted only before a draw.
pub open spec fn binds_before_draws(inserted: Seq<Seq<RenderCommand>>, commands: Seq<RenderCommand>) -> bool {
    &&& inserted.len() == commands.len()
    &&& forall|i: int, j: int|
        0 <= i < inserted.len() && 0 <= j < inserted[i].len() ==> #[trigger] inserted[i][j] is BindTexture
    &&& forall|i: int|
        0 <= i < inserted.len() && #[trigger] inserted[i].len() > 0 ==> commands[i] is Draw
            || commands[i] is DrawIndexed
}

/// Texels read for one descriptor and slot, kept for the rest of a submission.
struct TextureRead {
    at: u64,
    slot: u32,
    bound: Option<(Vec<u32>, u64, u32, u32)>,
}

/// Whether the texture whose descriptor table is at `at` is owed a bind: the table is readable, its
/// layout one read exactly, and its texels readable in full.
pub open spec fn texture_owed<M: GuestMemory>(memory: &M, at: u64) -> bool {
    table_layout(memory, at) matches Some(layout) && memory.spec_read(layout.base, layout.span as usize)
        matches Some(bytes) && bytes.len() >= layout.span
}

/// Whether texels `t` with `hash`, `width` and `height` are what [`read_texture`] answers for the
/// texture whose descriptor table is at `at`: the extent its layout gives, the content hash of
/// the texels, as many texels as the extent holds, and texels that are the ones memory holds now
/// - read fresh, or shared from a held copy with the same content hash - or, with a watch that
/// states its answers, texels held since a mark that some state of the watch vouched nothing wrote
/// since.
pub open spec fn texture_bound<M: GuestMemory, W: WriteWatch>(
    memory: &M,
    at: u64,
    t: Seq<u32>,
    hash: u64,
    width: u32,
    height: u32,
) -> bool {
    &&& hash == crate::spec_content_hash(t)
    &&& table_layout(memory, at) matches Some(layout)
    &&& width == layout.width
    &&& height == layout.height
    &&& t.len() == width * height
    &&& {
        ||| memory.spec_read(layout.base, layout.span as usize) matches Some(bytes) && bytes.len() >= layout.span
            && (t == texels_of(bytes, layout) || crate::spec_content_hash(t) == crate::spec_content_hash(
            texels_of(bytes, layout),
        ))
        ||| W::states_answers() ==> exists|w: W, m: u64|
            #[trigger] w.spec_written_since(layout.base, layout.span as u64, m) == Some(false)
    }
}

/// Every read kept that found nothing was of a texture not owed a bind, and every one that found
/// texels found what [`read_texture`] answers.
spec fn reads_ok<M: GuestMemory, W: WriteWatch>(memory: &M, reads: Seq<TextureRead>) -> bool {
    forall|i: int|
        0 <= i < reads.len() ==> match (#[trigger] reads[i]).bound {
            None => !texture_owed(memory, reads[i].at),
            Some((t, hash, width, height)) => texture_bound::<M, W>(memory, reads[i].at, t@, hash, width, height),
        }
}

/// The fragment stage's descriptor table, its module, and whether either changed since the last
/// draw, once `commands` have run.
pub open spec fn fragment_state(commands: Seq<RenderCommand>) -> (Option<u64>, Option<ResourceId>, bool)
    decreases commands.len(),
{
    if commands.len() == 0 {
        (None, None, false)
    } else {
        let before = fragment_state(commands.drop_last());
        match commands.last() {
            RenderCommand::SetUserData { stage: ShaderStage::Fragment, words } => (
                Some((words[0] as u64) | ((words[1] as u64) << 32u64)),
                before.1,
                true,
            ),
            RenderCommand::BindShader { stage: ShaderStage::Fragment, shader } => (before.0, Some(shader), true),
            RenderCommand::Draw { .. } => (before.0, before.1, false),
            RenderCommand::DrawIndexed { .. } => (before.0, before.1, false),
            _ => before,
        }
    }
}

/// The textures a fragment module samples: its sources, keyed by the module's id; the one texture
/// at the table itself for a module with none listed; nothing without a module.
pub open spec fn sampled(sources: Map<u64, Vec<TextureSource>>, fragment: Option<ResourceId>) -> Seq<TextureSource> {
    match fragment {
        None => Seq::empty(),
        Some(module) => if sources.contains_key(module.0) {
            sources[module.0]@
        } else {
            seq![TextureSource { slot: 0, table_offset: None }]
        },
    }
}

/// Where a texture source's descriptor sits, given the stage's table.
pub open spec fn source_at(table: u64, source: TextureSource) -> u64 {
    table.wrapping_add(
        match source.table_offset {
            Some(offset) => offset as u64,
            None => 0u64,
        },
    )
}

/// Whether the draw at `k` binds, in `binds`, every texture its fragment module samples that is
/// owed a bind, each in its own slot - when its table or module changed since the last draw.
pub open spec fn draw_binds_owed<M: GuestMemory>(
    memory: &M,
    sources: Map<u64, Vec<TextureSource>>,
    commands: Seq<RenderCommand>,
    k: int,
    binds: Seq<RenderCommand>,
) -> bool {
    let state = fragment_state(commands.take(k));
    (commands[k] is Draw || commands[k] is DrawIndexed) && state.2 && state.0 is Some ==> forall|j: int|
        0 <= j < sampled(sources, state.1).len() && texture_owed(
            memory,
            source_at(state.0->0, #[trigger] sampled(sources, state.1)[j]),
        ) ==> binds_slot(binds, sampled(sources, state.1)[j].slot)
}

/// Whether `bind`, inserted before the draw at `k`, carries what [`read_texture`] answers for one
/// of the slots the draw's fragment module samples: that slot, and the texels, hash and extent
/// read for the descriptor at the slot's offset into the fragment stage's table.
pub open spec fn bind_carries<M: GuestMemory, W: WriteWatch>(
    memory: &M,
    sources: Map<u64, Vec<TextureSource>>,
    commands: Seq<RenderCommand>,
    k: int,
    bind: RenderCommand,
) -> bool {
    let state = fragment_state(commands.take(k));
    &&& state.0 is Some
    &&& bind matches RenderCommand::BindTexture { slot, texels, hash, width, height }
    &&& exists|j: int|
        0 <= j < sampled(sources, state.1).len() && #[trigger] sampled(sources, state.1)[j].slot == slot
            && texture_bound::<M, W>(
            memory,
            source_at(state.0->0, sampled(sources, state.1)[j]),
            texels@,
            hash,
            width,
            height,
        )
}

/// Whether `command` binds a texture in `slot`.
pub open spec fn binds_in(command: RenderCommand, slot: u32) -> bool {
    command matches RenderCommand::BindTexture { slot: s, .. } && s == slot
}

/// Whether one of `binds` binds a texture in `slot`.
pub open spec fn binds_slot(binds: Seq<RenderCommand>, slot: u32) -> bool {
    exists|b: int| 0 <= b < binds.len() && #[trigger] binds_in(binds[b], slot)
}

/// Inserts a [`RenderCommand::BindTexture`] before each draw whose fragment module samples a
/// texture read exactly, so the draws sample the guest's own texels rather than the backend's
/// default. Each draw's textures are where its pixel shader says: for every slot the bound
/// fragment module samples, the descriptor at that slot's offset into the fragment stage's table -
/// zero for one not from the table; a module not among `sources` gets the one texture it always
/// did, slot 0 at the table itself. They are bound again before a draw only when the table or the
/// module changed, and each descriptor is read once per call.
pub fn bind_textures<M: GuestMemory, W: WriteWatch>(
    commands: &mut Vec<RenderCommand>,
    sources: &std::collections::BTreeMap<u64, Vec<TextureSource>>,
    texels: &mut TexelCache,
    memory: &M,
    watch: &mut W,
)
    requires
        old(texels).wf(),
    ensures
        final(texels).wf(),
        exists|inserted: Seq<Seq<RenderCommand>>|
            {
                &&& binds_before_draws(inserted, old(commands)@)
                &&& final(commands)@ == with_inserted(inserted, old(commands)@)
                &&& forall|k: int|
                    0 <= k < old(commands)@.len() ==> #[trigger] draw_binds_owed(
                        memory,
                        sources@,
                        old(commands)@,
                        k,
                        inserted[k],
                    )
                &&& forall|k: int, b: int|
                    0 <= k < old(commands)@.len() && 0 <= b < inserted[k].len() ==> bind_carries::<M, W>(
                        memory,
                        sources@,
                        old(commands)@,
                        k,
                        #[trigger] inserted[k][b],
                    )
            },
{
    broadcast use vstd::std_specs::btree::group_btree_axioms;

    let ghost input = commands@;
    let n = commands.len();
    let mut reversed: Vec<RenderCommand> = Vec::new();
    while commands.len() > 0
        invariant
            commands@ == input.take(commands@.len() as int),
            commands@.len() + reversed@.len() == n,
            n == input.len(),
            forall|j: int| 0 <= j < reversed@.len() ==> #[trigger] reversed@[j] == input[n - 1 - j],
        decreases commands@.len(),
    {
        let ghost before = commands@;
        let command = commands.pop().unwrap();
        proof {
            assert(commands@ =~= input.take(commands@.len() as int));
        }
        reversed.push(command);
    }
    let mut out: Vec<RenderCommand> = Vec::new();
    let mut table: Option<u64> = None;
    let mut fragment: Option<ResourceId> = None;
    let mut stale = false;
    let mut reads: Vec<TextureRead> = Vec::new();
    let ghost mut inserted: Seq<Seq<RenderCommand>> = Seq::empty();
    let mut k: usize = 0;
    while reversed.len() > 0
        invariant
            n == input.len(),
            k + reversed@.len() == n,
            forall|j: int| 0 <= j < reversed@.len() ==> #[trigger] reversed@[j] == input[n - 1 - j],
            inserted.len() == k,
            binds_before_draws(inserted, input.take(k as int)),
            out@ == with_inserted(inserted, input.take(k as int)),
            texels.wf(),
            reads_ok::<M, W>(memory, reads@),
            fragment_state(input.take(k as int)) == (table, fragment, stale),
            forall|kk: int| 0 <= kk < k ==> #[trigger] draw_binds_owed(memory, sources@, input, kk, inserted[kk]),
            forall|kk: int, b: int|
                0 <= kk < k && 0 <= b < inserted[kk].len() ==> bind_carries::<M, W>(
                    memory,
                    sources@,
                    input,
                    kk,
                    #[trigger] inserted[kk][b],
                ),
        decreases reversed@.len(),
    {
        let command = reversed.pop().unwrap();
        proof {
            assert(command == input[k as int]);
        }
        let ghost before = out@;
        let ghost state = (table, fragment, stale);
        let mut draws = false;
        match &command {
            RenderCommand::SetUserData { stage: ShaderStage::Fragment, words } => {
                table = Some(table_of(words));
                stale = true;
            },
            RenderCommand::BindShader { stage: ShaderStage::Fragment, shader } => {
                fragment = Some(*shader);
                stale = true;
            },
            RenderCommand::Draw { .. } => {
                draws = true;
            },
            RenderCommand::DrawIndexed { .. } => {
                draws = true;
            },
            _ => {},
        }
        if draws && stale {
            stale = false;
            let mut default: Vec<TextureSource> = Vec::new();
            default.push(TextureSource { slot: 0, table_offset: None });
            let empty: Vec<TextureSource> = Vec::new();
            let slots: &[TextureSource] = match fragment {
                Some(module) => match sources.get(&module.0) {
                    Some(found) => found.as_slice(),
                    None => default.as_slice(),
                },
                None => empty.as_slice(),
            };
            proof {
                assert(slots@ =~= sampled(sources@, fragment));
            }
            let mut s: usize = 0;
            while s < slots.len()
                invariant
                    out@.len() >= before.len(),
                    out@.subrange(0, before.len() as int) == before,
                    forall|j: int| before.len() <= j < out@.len() ==> #[trigger] out@[j] is BindTexture,
                    texels.wf(),
                    reads_ok::<M, W>(memory, reads@),
                    s <= slots@.len(),
                    forall|j: int|
                        0 <= j < s && table is Some && texture_owed(memory, source_at(table->0, #[trigger] slots@[j]))
                            ==> binds_slot(out@.subrange(before.len() as int, out@.len() as int), slots@[j].slot),
                    table == fragment_state(input.take(k as int)).0,
                    slots@ == sampled(sources@, fragment_state(input.take(k as int)).1),
                    forall|j: int|
                        before.len() <= j < out@.len() ==> bind_carries::<M, W>(
                            memory,
                            sources@,
                            input,
                            k as int,
                            #[trigger] out@[j],
                        ),
                decreases slots@.len() - s,
            {
                let ghost grown = out@;
                let source = slots[s];
                match table {
                    Some(t) => {
                        let offset = match source.table_offset {
                            Some(offset) => offset,
                            None => 0,
                        };
                        let at = t.wrapping_add(offset as u64);
                        proof {
                            assert(at == source_at(t, source));
                        }
                        let bound = read_once(&mut reads, at, source.slot, memory, texels, watch);
                        match bound {
                            Some((texels_read, hash, width, height)) => {
                                out.push(
                                    RenderCommand::BindTexture {
                                        slot: source.slot,
                                        texels: texels_read,
                                        hash,
                                        width,
                                        height,
                                    },
                                );
                                proof {
                                    assert(sampled(sources@, fragment_state(input.take(k as int)).1)[s as int].slot
                                        == source.slot);
                                    assert(bind_carries::<M, W>(memory, sources@, input, k as int, out@[out@.len() - 1]));
                                    assert forall|j: int|
                                        before.len() <= j < out@.len() implies bind_carries::<M, W>(
                                        memory,
                                        sources@,
                                        input,
                                        k as int,
                                        #[trigger] out@[j],
                                    ) by {
                                        if j < out@.len() - 1 {
                                            assert(out@[j] == grown[j]);
                                        }
                                    }
                                    let old_extra = grown.subrange(before.len() as int, grown.len() as int);
                                    let new_extra = out@.subrange(before.len() as int, out@.len() as int);
                                    assert forall|j: int|
                                        0 <= j < s + 1 && table is Some && texture_owed(
                                            memory,
                                            source_at(table->0, #[trigger] slots@[j]),
                                        ) implies binds_slot(new_extra, slots@[j].slot) by {
                                        if j < s {
                                            let b = choose|b: int|
                                                0 <= b < old_extra.len() && #[trigger] binds_in(old_extra[b], slots@[j].slot);
                                            assert(new_extra[b] == old_extra[b]);
                                        } else {
                                            let last = new_extra.len() - 1;
                                            assert(binds_in(new_extra[last], slots@[j].slot));
                                        }
                                    }
                                }
                            },
                            None => {},
                        }
                    },
                    None => {},
                }
                s = s + 1;
            }
        }
        let ghost extra = out@.subrange(before.len() as int, out@.len() as int);
        out.push(command);
        proof {
            let taken = input.take(k as int + 1);
            assert(taken.drop_last() =~= input.take(k as int));
            assert(taken.last() == input[k as int]);
            assert(fragment_state(taken) == (table, fragment, stale));
            assert(input.take(k as int) == input.take(k as int));
            assert(draw_binds_owed(memory, sources@, input, k as int, extra));
            let next = inserted.push(extra);
            assert(next.drop_last() =~= inserted);
            assert(out@ =~= with_inserted(inserted, input.take(k as int)) + extra + seq![input[k as int]]);
            assert(extra.len() > 0 ==> draws);
            assert forall|i: int, j: int| 0 <= i < next.len() && 0 <= j < next[i].len() implies #[trigger] next[i][j] is BindTexture by {
                if i == k {
                    assert(next[i] == extra);
                    assert(extra[j] == out@[before.len() + j]);
                } else {
                    assert(next[i] == inserted[i]);
                }
            }
            assert forall|i: int| 0 <= i < next.len() && #[trigger] next[i].len() > 0 implies taken[i] is Draw
                || taken[i] is DrawIndexed by {
                if i < k {
                    assert(taken[i] == input.take(k as int)[i]);
                    assert(next[i] == inserted[i]);
                }
            }
            assert forall|kk: int| 0 <= kk < k + 1 implies #[trigger] draw_binds_owed(
                memory,
                sources@,
                input,
                kk,
                next[kk],
            ) by {
                if kk < k {
                    assert(next[kk] == inserted[kk]);
                }
            }
            assert forall|kk: int, b: int| 0 <= kk < k + 1 && 0 <= b < next[kk].len() implies bind_carries::<M, W>(
                memory,
                sources@,
                input,
                kk,
                #[trigger] next[kk][b],
            ) by {
                if kk < k {
                    assert(next[kk] == inserted[kk]);
                } else {
                    assert(next[kk][b] == out@[before.len() + b]);
                }
            }
            inserted = next;
        }
        k = k + 1;
    }
    proof {
        assert(input.take(k as int) =~= input);
    }
    *commands = out;
}

/// Whether the texture at `at` in `slot` was read already in this call.
spec fn read_before(reads: Seq<TextureRead>, at: u64, slot: u32) -> bool {
    exists|i: int| 0 <= i < reads.len() && reads[i].at == at && reads[i].slot == slot
}

/// The texture at `at` in `slot`, read once per call: the texels, hash and extent of a texture
/// read exactly, or `None`.
fn read_once<M: GuestMemory, W: WriteWatch>(
    reads: &mut Vec<TextureRead>,
    at: u64,
    slot: u32,
    memory: &M,
    texels: &mut TexelCache,
    watch: &mut W,
) -> (r: Option<(Vec<u32>, u64, u32, u32)>)
    requires
        old(texels).wf(),
        reads_ok::<M, W>(memory, old(reads)@),
    ensures
        final(texels).wf(),
        reads_ok::<M, W>(memory, final(reads)@),
        texture_owed(memory, at) ==> r is Some,
        r matches Some((t, hash, width, height)) ==> texture_bound::<M, W>(memory, at, t@, hash, width, height),
        read_before(old(reads)@, at, slot) ==> final(reads)@ == old(reads)@,
        !read_before(old(reads)@, at, slot) ==> final(reads)@.len() == old(reads)@.len() + 1
            && final(reads)@.drop_last() == old(reads)@ && final(reads)@.last().at == at
            && final(reads)@.last().slot == slot,
{
    let mut i: usize = 0;
    while i < reads.len()
        invariant
            i <= reads@.len(),
            reads@ == old(reads)@,
            reads_ok::<M, W>(memory, reads@),
            forall|j: int| 0 <= j < i ==> !(#[trigger] reads@[j].at == at && reads@[j].slot == slot),
            texels.wf(),
        decreases reads@.len() - i,
    {
        if reads[i].at == at && reads[i].slot == slot {
            return match &reads[i].bound {
                Some((t, hash, width, height)) => Some((vstd::slice::slice_to_vec(t.as_slice()), *hash, *width, *height)),
                None => None,
            };
        }
        i = i + 1;
    }
    let ghost watched = *watch;
    let ghost held = texels.spec_entries();
    let answer = read_texture(at, slot, memory, texels, watch);
    proof {
        if let Some(RenderCommand::BindTexture { texels: t, hash, width, height, .. }) = &answer {
            let layout = table_layout(memory, at)->0;
            let key = TextureKey { base: layout.base, width: layout.width, height: layout.height, pitch: layout.pitch };
            if exists|i: int|
                0 <= i < held.len() && #[trigger] held[i].0 == key && t@ == held[i].1.texels@ && vouched_unwritten(
                    watched,
                    layout.base,
                    layout.span as u64,
                    held[i].1.since,
                ) {
                let i = choose|i: int|
                    0 <= i < held.len() && #[trigger] held[i].0 == key && t@ == held[i].1.texels@ && vouched_unwritten(
                        watched,
                        layout.base,
                        layout.span as u64,
                        held[i].1.since,
                    );
                if W::states_answers() {
                    let m = held[i].1.since->0;
                    assert(watched.spec_written_since(layout.base, layout.span as u64, m) == Some(false));
                }
            }
            if let Some(bytes) = memory.spec_read(layout.base, layout.span as usize) {
                if exists|i: int|
                    0 <= i < held.len() && #[trigger] held[i].0 == key && held[i].1.hash == crate::spec_content_hash(
                        texels_of(bytes, layout),
                    ) && t@ == held[i].1.texels@ {
                    let i = choose|i: int|
                        0 <= i < held.len() && #[trigger] held[i].0 == key && held[i].1.hash
                            == crate::spec_content_hash(texels_of(bytes, layout)) && t@ == held[i].1.texels@;
                    assert(held[i].1.hash == crate::spec_content_hash(held[i].1.texels@));
                }
            }
        }
    }
    let bound = match answer {
        Some(RenderCommand::BindTexture { texels: t, hash, width, height, .. }) => Some((t, hash, width, height)),
        _ => None,
    };
    let kept = match &bound {
        Some((t, hash, width, height)) => Some((vstd::slice::slice_to_vec(t.as_slice()), *hash, *width, *height)),
        None => None,
    };
    reads.push(TextureRead { at, slot, bound: kept });
    bound
}

/// `SPI_SHADER_USER_DATA_GS_0`: the vertex stage's first user-data register - on this generation
/// the vertex program runs as the NGG geometry stage.
pub const VERTEX_USER_DATA_0: u32 = 0x2C8C;

/// `SPI_SHADER_USER_DATA_PS_0`: the fragment stage's first user-data register.
pub const FRAGMENT_USER_DATA_0: u32 = 0x2C0C;

/// The value `register` holds for a draw in packet `at`, as a sweep of `writes` finds it: the
/// latest of the writes taken in before that packet. Over writes in packet order that is the
/// latest write in an earlier packet (`lemma_sweep_sees_the_earlier_writes`).
pub open spec fn live_at(writes: Seq<RegisterWrite>, at: u32, register: u32) -> Option<u32> {
    latest_value(swept_writes(writes, at), register)
}

/// User-data word `k` of the stage whose first register is `first`: zero where the stream wrote
/// none.
pub open spec fn user_word(writes: Seq<RegisterWrite>, at: u32, first: u32, k: int) -> u32 {
    match live_at(writes, at, (first + k) as u32) {
        Some(value) => value,
        None => 0,
    }
}

/// The first `n` user-data words of a stage, the rest zero.
pub open spec fn user_words_upto(writes: Seq<RegisterWrite>, at: u32, first: u32, n: nat) -> [u32; 32]
    decreases n,
{
    if n == 0 {
        vstd::array::spec_array_fill_for_copy_type::<u32, 32>(0u32)
    } else {
        vstd::array::spec_array_update(
            user_words_upto(writes, at, first, (n - 1) as nat),
            n - 1,
            user_word(writes, at, first, n - 1),
        )
    }
}

/// Every user-data word of the stage whose first register is `first`, as they stand at a draw in
/// packet `at`.
pub open spec fn user_words(writes: Seq<RegisterWrite>, at: u32, first: u32) -> [u32; 32] {
    user_words_upto(writes, at, first, 32)
}

/// The viewport transform in force at a draw in packet `at`, when the stream set one.
pub open spec fn terms_at(writes: Seq<RegisterWrite>, at: u32) -> Option<ViewportTerms> {
    match spec_viewport_terms(
        live_at(writes, at, PA_CL_VTE_CNTL),
        live_at(writes, at, PA_CL_VPORT_XSCALE),
        live_at(writes, at, (PA_CL_VPORT_XSCALE + 1) as u32),
        live_at(writes, at, (PA_CL_VPORT_XSCALE + 2) as u32),
        live_at(writes, at, (PA_CL_VPORT_XSCALE + 3) as u32),
    ) {
        Some((x_scale, x_offset, y_scale, y_offset)) => Some(ViewportTerms { x_scale, x_offset, y_scale, y_offset }),
        None => None,
    }
}

/// The shaders bound, and the binds a draw needs to run `wanted`: each (stage, shader) not bound
/// already replaces what its stage had, and is bound.
pub open spec fn bind_step(bound: Seq<(ShaderStage, ResourceId)>, wanted: Seq<(ShaderStage, ResourceId)>) -> (Seq<
    (ShaderStage, ResourceId),
>, Seq<RenderCommand>)
    decreases wanted.len(),
{
    if wanted.len() == 0 {
        (bound, Seq::empty())
    } else {
        let (now, binds) = bind_step(bound, wanted.drop_last());
        let (stage, shader) = wanted.last();
        if now.contains((stage, shader)) {
            (now, binds)
        } else {
            (
                now.filter(|b: (ShaderStage, ResourceId)| b.0 != stage).push((stage, shader)),
                binds.push(RenderCommand::BindShader { stage, shader }),
            )
        }
    }
}

/// The blend value sent, and what a draw emits for the blend in force at it: the state when the
/// stream set one and it changed.
pub open spec fn blend_step(sent: Option<u32>, writes: Seq<RegisterWrite>, at: u32) -> (Option<u32>, Seq<RenderCommand>) {
    match live_at(writes, at, CB_BLEND0_CONTROL) {
        Some(value) => if sent == Some(value) {
            (sent, Seq::empty())
        } else {
            (Some(value), seq![RenderCommand::SetBlend(spec_decode_blend_control(value))])
        },
        None => (sent, Seq::empty()),
    }
}

/// The transform sent, and what a draw emits for the transform in force at it: the transform
/// when the stream set one and it changed.
pub open spec fn transform_step(sent: Option<ViewportTerms>, writes: Seq<RegisterWrite>, at: u32) -> (Option<
    ViewportTerms,
>, Seq<RenderCommand>) {
    match terms_at(writes, at) {
        Some(terms) => if sent == Some(terms) {
            (sent, Seq::empty())
        } else {
            (Some(terms), seq![RenderCommand::SetViewportTransform(terms)])
        },
        None => (sent, Seq::empty()),
    }
}

/// The words sent for a stage, and what a draw emits for them: the stage's words as they stand at
/// it, when they changed.
pub open spec fn user_data_step(
    sent: Option<[u32; 32]>,
    writes: Seq<RegisterWrite>,
    at: u32,
    stage: ShaderStage,
    first: u32,
) -> (Option<[u32; 32]>, Seq<RenderCommand>) {
    let words = user_words(writes, at, first);
    if sent == Some(words) {
        (sent, Seq::empty())
    } else {
        (Some(words), seq![RenderCommand::SetUserData { stage, words }])
    }
}

/// The command a draw asks for.
pub open spec fn draw_command(draw: DrawCall) -> RenderCommand {
    match draw.kind {
        DrawKind::Auto { vertices } => RenderCommand::Draw { vertices, instances: draw.instances, first_vertex: 0 },
        DrawKind::Indexed { indices, .. } => RenderCommand::DrawIndexed {
            indices,
            instances: draw.instances,
            first_index: 0,
        },
    }
}

/// What has been sent as draws are walked: the shaders bound, the blend value, the viewport
/// transform, and the vertex and fragment stages' user-data words.
pub type GeometrySent = (
    Seq<(ShaderStage, ResourceId)>,
    Option<u32>,
    Option<ViewportTerms>,
    Option<[u32; 32]>,
    Option<[u32; 32]>,
);

/// What one draw emits, and what has been sent after it: the binds its shaders need, then the
/// blend, transform and each stage's user data where they changed, then the draw.
pub open spec fn geometry_step(
    sent: GeometrySent,
    draw: DrawCall,
    wanted: Seq<(ShaderStage, ResourceId)>,
    writes: Seq<RegisterWrite>,
) -> (GeometrySent, Seq<RenderCommand>) {
    let at = draw.packet_offset;
    let (bound, binds) = bind_step(sent.0, wanted);
    let (blend, blends) = blend_step(sent.1, writes, at);
    let (transform, transforms) = transform_step(sent.2, writes, at);
    let (vertex, vertex_data) = user_data_step(sent.3, writes, at, ShaderStage::Vertex, VERTEX_USER_DATA_0);
    let (fragment, fragment_data) = user_data_step(sent.4, writes, at, ShaderStage::Fragment, FRAGMENT_USER_DATA_0);
    (
        (bound, blend, transform, vertex, fragment),
        binds + blends + transforms + vertex_data + fragment_data + seq![draw_command(draw)],
    )
}

/// The shaders draw `i` runs, or none when `shaders` does not say.
pub open spec fn wanted_at(shaders: Seq<Seq<(ShaderStage, ResourceId)>>, i: int) -> Seq<(ShaderStage, ResourceId)> {
    if 0 <= i < shaders.len() {
        shaders[i]
    } else {
        Seq::empty()
    }
}

/// What the first `n` draws emit, and what has been sent after them.
pub open spec fn geometry_upto(
    start: GeometrySent,
    draws: Seq<DrawCall>,
    shaders: Seq<Seq<(ShaderStage, ResourceId)>>,
    writes: Seq<RegisterWrite>,
    n: nat,
) -> (GeometrySent, Seq<RenderCommand>)
    decreases n,
{
    if n == 0 {
        (start, Seq::empty())
    } else {
        let (sent, commands) = geometry_upto(start, draws, shaders, writes, (n - 1) as nat);
        let (after, emitted) = geometry_step(sent, draws[n - 1], wanted_at(shaders, n - 1), writes);
        (after, commands + emitted)
    }
}

/// The shaders `commands` bind, in order.
pub open spec fn bound_in(commands: Seq<RenderCommand>) -> Seq<(ShaderStage, ResourceId)>
    decreases commands.len(),
{
    if commands.len() == 0 {
        Seq::empty()
    } else {
        match commands.last() {
            RenderCommand::BindShader { stage, shader } => bound_in(commands.drop_last()).push((stage, shader)),
            _ => bound_in(commands.drop_last()),
        }
    }
}

/// The commands a submission's compute dispatches ask for.
pub open spec fn dispatch_commands(dispatches: Seq<DispatchCall>) -> Seq<RenderCommand> {
    Seq::new(
        dispatches.len(),
        |i: int| RenderCommand::Dispatch { x: dispatches[i].groups[0], y: dispatches[i].groups[1], z: dispatches[i].groups[2] },
    )
}

/// Every user-data word the first `n` steps filled is the stage's, the rest zero.
proof fn lemma_user_words_upto(writes: Seq<RegisterWrite>, at: u32, first: u32, n: nat)
    requires
        n <= 32,
    ensures
        forall|k: int| 0 <= k < 32 ==> #[trigger] user_words_upto(writes, at, first, n)@[k] == if k < n {
            user_word(writes, at, first, k)
        } else {
            0u32
        },
    decreases n,
{
    broadcast use vstd::array::group_array_axioms;

    if n > 0 {
        lemma_user_words_upto(writes, at, first, (n - 1) as nat);
        let prior = user_words_upto(writes, at, first, (n - 1) as nat);
        let value = user_word(writes, at, first, n - 1);
        assert(user_words_upto(writes, at, first, n) == vstd::array::spec_array_update(prior, n - 1, value));
        assert(vstd::array::spec_array_update(prior, n - 1, value)@ == prior@.update(n - 1, value));
        assert forall|k: int| 0 <= k < 32 implies #[trigger] user_words_upto(writes, at, first, n)@[k] == if k < n {
            user_word(writes, at, first, k)
        } else {
            0u32
        } by {
            assert(prior@[k] == if k < n - 1 {
                user_word(writes, at, first, k)
            } else {
                0u32
            });
        }
    } else {
        let zero = vstd::array::spec_array_fill_for_copy_type::<u32, 32>(0u32);
        assert(user_words_upto(writes, at, first, 0) == zero);
        assert forall|k: int| 0 <= k < 32 implies #[trigger] user_words_upto(writes, at, first, n)@[k] == 0u32 by {
            assert(zero.view()[k] == 0u32);
        }
    }
}

fn bound_of(commands: &Vec<RenderCommand>) -> (r: Vec<(ShaderStage, ResourceId)>)
    ensures
        r@ == bound_in(commands@),
{
    let mut bound: Vec<(ShaderStage, ResourceId)> = Vec::new();
    let mut i: usize = 0;
    while i < commands.len()
        invariant
            i <= commands@.len(),
            bound@ == bound_in(commands@.take(i as int)),
        decreases commands@.len() - i,
    {
        proof {
            assert(commands@.take(i as int + 1).drop_last() =~= commands@.take(i as int));
            assert(commands@.take(i as int + 1).last() == commands@[i as int]);
        }
        match &commands[i] {
            RenderCommand::BindShader { stage, shader } => {
                bound.push((*stage, *shader));
            },
            _ => {},
        }
        i = i + 1;
    }
    proof {
        assert(commands@.take(i as int) =~= commands@);
    }
    bound
}

/// Binds what a draw's shaders need that is not bound already, each replacing what its stage had.
fn bind_wanted(
    bound: &mut Vec<(ShaderStage, ResourceId)>,
    commands: &mut Vec<RenderCommand>,
    wanted: &[(ShaderStage, ResourceId)],
)
    ensures
        final(bound)@ == bind_step(old(bound)@, wanted@).0,
        final(commands)@ == old(commands)@ + bind_step(old(bound)@, wanted@).1,
{
    let ghost start = bound@;
    let ghost before = commands@;
    let mut i: usize = 0;
    while i < wanted.len()
        invariant
            i <= wanted@.len(),
            bound@ == bind_step(start, wanted@.take(i as int)).0,
            commands@ == before + bind_step(start, wanted@.take(i as int)).1,
        decreases wanted@.len() - i,
    {
        proof {
            assert(wanted@.take(i as int + 1).drop_last() =~= wanted@.take(i as int));
            assert(wanted@.take(i as int + 1).last() == wanted@[i as int]);
        }
        let (stage, shader) = wanted[i];
        let mut present = false;
        let mut k: usize = 0;
        while k < bound.len()
            invariant
                k <= bound@.len(),
                present == exists|j: int| 0 <= j < k && #[trigger] bound@[j] == (stage, shader),
            decreases bound@.len() - k,
        {
            if bound[k].0 == stage && bound[k].1 == shader {
                present = true;
            }
            k = k + 1;
        }
        proof {
            if present {
                let j = choose|j: int| 0 <= j < k && #[trigger] bound@[j] == (stage, shader);
                assert(bound@.contains((stage, shader)));
            } else {
                assert(!bound@.contains((stage, shader)));
            }
        }
        if !present {
            let ghost old_bound = bound@;
            let mut kept: Vec<(ShaderStage, ResourceId)> = Vec::new();
            let mut m: usize = 0;
            while m < bound.len()
                invariant
                    bound@ == old_bound,
                    m <= old_bound.len(),
                    kept@ == old_bound.take(m as int).filter(|b: (ShaderStage, ResourceId)| b.0 != stage),
                decreases old_bound.len() - m,
            {
                proof {
                    assert(old_bound.take(m as int + 1) =~= old_bound.take(m as int).push(old_bound[m as int]));
                    old_bound.take(m as int).lemma_filter_push(old_bound[m as int], |b: (ShaderStage, ResourceId)| b.0 != stage);
                }
                let entry = bound[m];
                if entry.0 != stage {
                    kept.push(entry);
                }
                m = m + 1;
            }
            proof {
                assert(old_bound.take(m as int) =~= old_bound);
            }
            kept.push((stage, shader));
            *bound = kept;
            commands.push(RenderCommand::BindShader { stage, shader });
        }
        i = i + 1;
    }
    proof {
        assert(wanted@.take(i as int) =~= wanted@);
    }
}

/// The user-data words of the stage whose first register is `first`, as they stand at `at`.
fn user_words_at(sweep: &mut RegisterSweep, at: u32, first: u32) -> (r: [u32; 32])
    requires
        old(sweep).wf(),
        first <= 0xFFFF_0000,
    ensures
        final(sweep).wf(),
        final(sweep).spec_writes() == old(sweep).spec_writes(),
        r == user_words(old(sweep).spec_writes(), at, first),
{
    let ghost writes = sweep.spec_writes();
    let mut words = [0u32; 32];
    let mut k: usize = 0;
    while k < 32
        invariant
            sweep.wf(),
            sweep.spec_writes() == writes,
            first <= 0xFFFF_0000,
            k <= 32,
            forall|j: int| 0 <= j < 32 ==> #[trigger] words@[j] == if j < k {
                user_word(writes, at, first, j)
            } else {
                0u32
            },
        decreases 32 - k,
    {
        let value = match sweep.latest(at, first + k as u32) {
            Some(value) => value,
            None => 0,
        };
        words.set(k, value);
        k = k + 1;
    }
    proof {
        lemma_user_words_upto(writes, at, first, 32);
        assert(words =~= user_words(writes, at, first));
    }
    words
}

/// Whether two stages' words are the same.
fn same_words(a: &[u32; 32], b: &[u32; 32]) -> (r: bool)
    ensures
        r == (*a == *b),
{
    let mut k: usize = 0;
    while k < 32
        invariant
            k <= 32,
            forall|j: int| 0 <= j < k ==> a@[j] == b@[j],
        decreases 32 - k,
    {
        if a[k] != b[k] {
            return false;
        }
        k = k + 1;
    }
    proof {
        assert(*a =~= *b);
    }
    true
}

/// Emits a stage's words as they stand at `at`, when they changed.
fn send_user_data(
    sweep: &mut RegisterSweep,
    at: u32,
    stage: ShaderStage,
    first: u32,
    sent: &mut Option<[u32; 32]>,
    commands: &mut Vec<RenderCommand>,
)
    requires
        old(sweep).wf(),
        first <= 0xFFFF_0000,
    ensures
        final(sweep).wf(),
        final(sweep).spec_writes() == old(sweep).spec_writes(),
        *final(sent) == user_data_step(*old(sent), old(sweep).spec_writes(), at, stage, first).0,
        final(commands)@ == old(commands)@ + user_data_step(*old(sent), old(sweep).spec_writes(), at, stage, first).1,
{
    let words = user_words_at(sweep, at, first);
    let unchanged = match sent {
        Some(previous) => same_words(previous, &words),
        None => false,
    };
    if !unchanged {
        commands.push(RenderCommand::SetUserData { stage, words });
        *sent = Some(words);
    }
}

/// Emits each draw's state where it changed, then the draw - the shaders it runs bound where they
/// are not already, colour target zero's blend state, the clip-to-pixel transform and each stage's
/// user data, read a register at a time from one sweep of the stream's writes - and after every
/// draw the stream's compute dispatches, in order. `shaders` holds each draw's shaders, in draw
/// order; what the commands already bind counts as bound.
#[verifier::spinoff_prover]
#[verifier::rlimit(40)]
pub fn push_geometry_commands(
    commands: &mut Vec<RenderCommand>,
    walked: &PacketWalk,
    stream: &[u8],
    draws: &[DrawCall],
    writes: &[RegisterWrite],
    shaders: &[Vec<(ShaderStage, ResourceId)>],
)
    requires
        offsets_representable(walked),
    ensures
        final(commands)@ == old(commands)@ + geometry_upto(
            (bound_in(old(commands)@), None, None, None, None),
            draws@,
            shaders@.map_values(|v: Vec<(ShaderStage, ResourceId)>| v@),
            writes@,
            draws@.len(),
        ).1 + dispatch_commands(dispatches_of(walked.packets@, stream@)),
{
    let ghost start: GeometrySent = (bound_in(commands@), None, None, None, None);
    let ghost wanted = shaders@.map_values(|v: Vec<(ShaderStage, ResourceId)>| v@);
    let ghost before = commands@;
    let mut bound = bound_of(commands);
    let mut blend_sent: Option<u32> = None;
    let mut transform_sent: Option<ViewportTerms> = None;
    let mut vertex_sent: Option<[u32; 32]> = None;
    let mut fragment_sent: Option<[u32; 32]> = None;
    let mut sweep = RegisterSweep::new(writes);
    let mut index: usize = 0;
    while index < draws.len()
        invariant
            index <= draws@.len(),
            sweep.wf(),
            sweep.spec_writes() == writes@,
            wanted == shaders@.map_values(|v: Vec<(ShaderStage, ResourceId)>| v@),
            (bound@, blend_sent, transform_sent, vertex_sent, fragment_sent) == geometry_upto(
                start,
                draws@,
                wanted,
                writes@,
                index as nat,
            ).0,
            commands@ == before + geometry_upto(start, draws@, wanted, writes@, index as nat).1,
        decreases draws@.len() - index,
    {
        let draw = draws[index];
        let at = draw.packet_offset;
        let ghost sent_before = (bound@, blend_sent, transform_sent, vertex_sent, fragment_sent);
        let ghost emitted_before = commands@;
        if index < shaders.len() {
            bind_wanted(&mut bound, commands, shaders[index].as_slice());
        } else {
            bind_wanted(&mut bound, commands, &[]);
        }
        proof {
            assert(wanted_at(wanted, index as int) == (if index < shaders@.len() {
                shaders@[index as int]@
            } else {
                Seq::<(ShaderStage, ResourceId)>::empty()
            }));
        }
        match sweep.latest(at, CB_BLEND0_CONTROL) {
            Some(value) => {
                let unchanged = match blend_sent {
                    Some(previous) => previous == value,
                    None => false,
                };
                if !unchanged {
                    commands.push(RenderCommand::SetBlend(decode_blend_control(value)));
                    blend_sent = Some(value);
                }
            },
            None => {},
        }
        let vte = sweep.latest(at, PA_CL_VTE_CNTL);
        let x_scale = sweep.latest(at, PA_CL_VPORT_XSCALE);
        let x_offset = sweep.latest(at, PA_CL_VPORT_XSCALE + 1);
        let y_scale = sweep.latest(at, PA_CL_VPORT_XSCALE + 2);
        let y_offset = sweep.latest(at, PA_CL_VPORT_XSCALE + 3);
        match viewport_terms(vte, x_scale, x_offset, y_scale, y_offset) {
            Some((xs, xo, ys, yo)) => {
                let terms = ViewportTerms { x_scale: xs, x_offset: xo, y_scale: ys, y_offset: yo };
                let unchanged = match transform_sent {
                    Some(previous) => previous == terms,
                    None => false,
                };
                if !unchanged {
                    commands.push(RenderCommand::SetViewportTransform(terms));
                    transform_sent = Some(terms);
                }
            },
            None => {},
        }
        send_user_data(&mut sweep, at, ShaderStage::Vertex, VERTEX_USER_DATA_0, &mut vertex_sent, commands);
        send_user_data(&mut sweep, at, ShaderStage::Fragment, FRAGMENT_USER_DATA_0, &mut fragment_sent, commands);
        let command = match draw.kind {
            DrawKind::Auto { vertices } => RenderCommand::Draw { vertices, instances: draw.instances, first_vertex: 0 },
            DrawKind::Indexed { indices, .. } => RenderCommand::DrawIndexed {
                indices,
                instances: draw.instances,
                first_index: 0,
            },
        };
        commands.push(command);
        proof {
            let step = geometry_step(sent_before, draw, wanted_at(wanted, index as int), writes@);
            assert(draws@[index as int] == draw);
            assert(commands@ =~= emitted_before + step.1);
        }
        index = index + 1;
    }
    let dispatches = dispatch_calls(walked, stream);
    let ghost drawn = commands@;
    let mut d: usize = 0;
    while d < dispatches.len()
        invariant
            d <= dispatches@.len(),
            commands@ == drawn + dispatch_commands(dispatches@).take(d as int),
        decreases dispatches@.len() - d,
    {
        let dispatch = dispatches[d];
        commands.push(RenderCommand::Dispatch { x: dispatch.groups[0], y: dispatch.groups[1], z: dispatch.groups[2] });
        proof {
            assert(dispatch_commands(dispatches@).take(d as int + 1) =~= dispatch_commands(dispatches@).take(d as int).push(
                dispatch_commands(dispatches@)[d as int],
            ));
        }
        d = d + 1;
    }
    proof {
        assert(dispatch_commands(dispatches@).take(d as int) =~= dispatch_commands(dispatches@));
    }
}

/// An operand of a decoded shader instruction, as far as finding a constant base needs: a scalar
/// register, a literal dword, an inline integer, or anything else.
#[derive(Debug, Clone, Copy, PartialEq, Eq, Structural)]
pub enum ShaderOperand {
    /// A scalar register, by number.
    Scalar(u16),
    /// A literal dword following the instruction.
    Literal(u32),
    /// An inline integer constant.
    Integer(i64),
    /// A vector register or anything else.
    Other,
}

/// A decoded shader instruction: its mnemonic as the translator names it (ASCII), when it has
/// one, and its operands, destination first.
#[derive(Debug, Clone)]
pub struct ShaderInstruction {
    /// The mnemonic's ASCII bytes, or `None` for an instruction with no name.
    pub mnemonic: Option<Vec<u8>>,
    /// The operands, destination first.
    pub operands: Vec<ShaderOperand>,
}

/// Whether `text` starts with `prefix`.
pub open spec fn starts_with(text: Seq<u8>, prefix: Seq<u8>) -> bool {
    prefix.len() <= text.len() && text.take(prefix.len() as int) == prefix
}

/// Whether `text` ends with `suffix`.
pub open spec fn ends_with(text: Seq<u8>, suffix: Seq<u8>) -> bool {
    suffix.len() <= text.len() && text.skip(text.len() - suffix.len()) == suffix
}

/// `s_`.
pub open spec fn scalar_prefix() -> Seq<u8> {
    seq![0x73u8, 0x5Fu8]
}

/// `s_cmp`.
pub open spec fn compare_prefix() -> Seq<u8> {
    seq![0x73u8, 0x5Fu8, 0x63u8, 0x6Du8, 0x70u8]
}

/// `s_mov_b32`.
pub open spec fn move_mnemonic() -> Seq<u8> {
    seq![0x73u8, 0x5Fu8, 0x6Du8, 0x6Fu8, 0x76u8, 0x5Fu8, 0x62u8, 0x33u8, 0x32u8]
}

/// `v_add_co_u32`.
pub open spec fn add_prefix() -> Seq<u8> {
    seq![0x76u8, 0x5Fu8, 0x61u8, 0x64u8, 0x64u8, 0x5Fu8, 0x63u8, 0x6Fu8, 0x5Fu8, 0x75u8, 0x33u8, 0x32u8]
}

/// `v_add_co_ci_u32`.
pub open spec fn carry_add_prefix() -> Seq<u8> {
    seq![
        0x76u8,
        0x5Fu8,
        0x61u8,
        0x64u8,
        0x64u8,
        0x5Fu8,
        0x63u8,
        0x6Fu8,
        0x5Fu8,
        0x63u8,
        0x69u8,
        0x5Fu8,
        0x75u8,
        0x33u8,
        0x32u8,
    ]
}

/// `dwordx`.
pub open spec fn dwords_marker() -> Seq<u8> {
    seq![0x64u8, 0x77u8, 0x6Fu8, 0x72u8, 0x64u8, 0x78u8]
}

/// `text` without a leading `+`.
pub open spec fn unsigned_part(text: Seq<u8>) -> Seq<u8> {
    if text.len() > 0 && text[0] == 0x2Bu8 {
        text.skip(1)
    } else {
        text
    }
}

/// Whether `digits` are one or more ASCII digits.
pub open spec fn all_digits(digits: Seq<u8>) -> bool {
    digits.len() > 0 && forall|i: int| 0 <= i < digits.len() ==> 0x30u8 <= #[trigger] digits[i] <= 0x39u8
}

/// The decimal value of ASCII digits, when they are one or more digits, optionally after a `+`,
/// naming a value a `u16` holds.
pub open spec fn decimal_u16(text: Seq<u8>) -> Option<u16> {
    let digits = unsigned_part(text);
    if all_digits(digits) && decimal_value(digits) <= u16::MAX {
        Some(decimal_value(digits) as u16)
    } else {
        None
    }
}

/// The value of a run of ASCII digits.
pub open spec fn decimal_value(digits: Seq<u8>) -> nat
    decreases digits.len(),
{
    if digits.len() == 0 {
        0
    } else {
        decimal_value(digits.drop_last()) * 10 + (digits.last() - 0x30u8) as nat
    }
}

/// Where the last `dwordx` in `text` starts, if it holds one.
pub open spec fn last_marker(text: Seq<u8>) -> Option<int> {
    if exists|i: int| 0 <= i && i + 6 <= text.len() && #[trigger] text.subrange(i, i + 6) == dwords_marker() {
        Some(
            choose|i: int|
                0 <= i && i + 6 <= text.len() && #[trigger] text.subrange(i, i + 6) == dwords_marker() && forall|
                    j: int,
                | i < j && j + 6 <= text.len() ==> #[trigger] text.subrange(j, j + 6) != dwords_marker(),
        )
    } else {
        None
    }
}

/// How many consecutive scalar registers an instruction's destination spans: the count after the
/// last `dwordx` of a multi-dword load, two for a 64-bit operation, else one.
pub open spec fn spec_scalar_destination_span(mnemonic: Seq<u8>) -> u16 {
    let counted = match last_marker(mnemonic) {
        Some(i) => decimal_u16(mnemonic.skip(i + 6)),
        None => None,
    };
    match counted {
        Some(count) => count,
        None => if ends_with(mnemonic, seq![0x5Fu8, 0x62u8, 0x36u8, 0x34u8]) || ends_with(
            mnemonic,
            seq![0x5Fu8, 0x75u8, 0x36u8, 0x34u8],
        ) || ends_with(mnemonic, seq![0x5Fu8, 0x69u8, 0x36u8, 0x34u8]) {
            2
        } else {
            1
        },
    }
}

/// Whether an instruction writes the scalar register its first operand names: a scalar move, ALU
/// operation or load - one named `s_` but not a compare.
pub open spec fn writes_scalars(instruction: ShaderInstruction) -> bool {
    &&& instruction.operands@.len() > 0
    &&& instruction.operands@[0] is Scalar
    &&& named(instruction, scalar_prefix())
    &&& !named(instruction, compare_prefix())
}

/// Whether an instruction's destination touches scalar register `register`.
pub open spec fn writes_register(instruction: ShaderInstruction, register: u16) -> bool {
    writes_scalars(instruction) && {
        let first = instruction.operands@[0]->Scalar_0;
        let span = spec_scalar_destination_span(instruction.mnemonic->0@);
        first <= register && register < if first + span > u16::MAX {
            u16::MAX as int
        } else {
            first + span
        }
    }
}

/// How many of `instructions` write scalar register `register`.
pub open spec fn write_count(instructions: Seq<ShaderInstruction>, register: u16) -> nat
    decreases instructions.len(),
{
    if instructions.len() == 0 {
        0
    } else {
        write_count(instructions.drop_last(), register) + if writes_register(instructions.last(), register) {
            1nat
        } else {
            0nat
        }
    }
}

/// The value an `s_mov_b32` of a literal or of an inline integer a dword holds moves into its
/// destination, if the instruction is one.
pub open spec fn moved_constant(instruction: ShaderInstruction) -> Option<(u16, u32)> {
    if writes_scalars(instruction) && instruction.mnemonic->0@ == move_mnemonic() && instruction.operands@.len() > 1 {
        match instruction.operands@[1] {
            ShaderOperand::Literal(value) => Some((instruction.operands@[0]->Scalar_0, value)),
            ShaderOperand::Integer(value) => if 0 <= value <= u32::MAX {
                Some((instruction.operands@[0]->Scalar_0, value as u32))
            } else {
                None
            },
            _ => None,
        }
    } else {
        None
    }
}

/// The value the last `s_mov_b32` of a constant into `register` moved, if one did.
pub open spec fn moved_into(instructions: Seq<ShaderInstruction>, register: u16) -> Option<u32>
    decreases instructions.len(),
{
    if instructions.len() == 0 {
        None
    } else {
        match moved_constant(instructions.last()) {
            Some((r, value)) if r == register => Some(value),
            _ => moved_into(instructions.drop_last(), register),
        }
    }
}

/// The constant scalar register `register` holds: one the whole program writes exactly once,
/// with an `s_mov_b32` of a literal or an inline integer.
pub open spec fn constant_in(instructions: Seq<ShaderInstruction>, register: u16) -> Option<u32> {
    if write_count(instructions, register) == 1 {
        moved_into(instructions, register)
    } else {
        None
    }
}

/// An instruction's operands past its destination and first source.
pub open spec fn sources_after_first(operands: Seq<ShaderOperand>) -> Seq<ShaderOperand> {
    if operands.len() >= 2 {
        operands.skip(2)
    } else {
        Seq::empty()
    }
}

/// The first scalar register among an instruction's sources, past its destination and first
/// source.
pub open spec fn scalar_source(instruction: ShaderInstruction) -> Option<u16> {
    let rest = sources_after_first(instruction.operands@);
    if exists|i: int| 0 <= i < rest.len() && #[trigger] rest[i] is Scalar {
        let i = choose|i: int|
            0 <= i < rest.len() && #[trigger] rest[i] is Scalar && forall|j: int| 0 <= j < i ==> !(#[trigger] rest[j] is Scalar);
        Some(rest[i]->Scalar_0)
    } else {
        None
    }
}

/// Whether an instruction's mnemonic starts with `prefix`.
pub open spec fn named(instruction: ShaderInstruction, prefix: Seq<u8>) -> bool {
    instruction.mnemonic matches Some(m) && starts_with(m@, prefix)
}

/// Whether an instruction is a `v_add_co_ci_u32` taking `register` as its scalar source.
pub open spec fn carries_into(instruction: ShaderInstruction, register: u16) -> bool {
    named(instruction, carry_add_prefix()) && scalar_source(instruction) == Some(register)
}

/// Whether an instruction is a `v_add_co_u32` whose scalar source holds a constant.
pub open spec fn adds_constant(instructions: Seq<ShaderInstruction>, instruction: ShaderInstruction) -> bool {
    &&& named(instruction, add_prefix())
    &&& scalar_source(instruction) matches Some(r) && constant_in(instructions, r) is Some
}

/// The 64-bit address a shader forms from two constant scalar registers as the base of its memory
/// accesses, or `None`: the low half is the constant scalar source of the first `v_add_co_u32`
/// that takes one, the high half the register above it, which a `v_add_co_ci_u32` must take as
/// its scalar source and which must be constant too.
pub open spec fn spec_constant_address_base(instructions: Seq<ShaderInstruction>) -> Option<u64> {
    if exists|i: int| 0 <= i < instructions.len() && adds_constant(instructions, #[trigger] instructions[i]) {
        let i = choose|i: int|
            0 <= i < instructions.len() && adds_constant(instructions, #[trigger] instructions[i]) && forall|
                j: int,
            | 0 <= j < i ==> !adds_constant(instructions, #[trigger] instructions[j]);
        let low = scalar_source(instructions[i])->0;
        let carried = exists|k: int|
            0 <= k < instructions.len() && carries_into(#[trigger] instructions[k], (low + 1) as u16);
        if low < u16::MAX && carried && constant_in(instructions, (low + 1) as u16) is Some {
            Some(
                ((constant_in(instructions, (low + 1) as u16)->0 as u64) << 32u64) | (constant_in(
                    instructions,
                    low,
                )->0 as u64),
            )
        } else {
            None
        }
    } else {
        None
    }
}

/// Whether `text` starts with `prefix`.
fn has_prefix(text: &[u8], prefix: &[u8]) -> (r: bool)
    ensures
        r == starts_with(text@, prefix@),
{
    if prefix.len() > text.len() {
        return false;
    }
    let mut i: usize = 0;
    while i < prefix.len()
        invariant
            prefix@.len() <= text@.len(),
            i <= prefix@.len(),
            forall|j: int| 0 <= j < i ==> text@[j] == prefix@[j],
        decreases prefix@.len() - i,
    {
        if text[i] != prefix[i] {
            proof {
                assert(text@.take(prefix@.len() as int)[i as int] != prefix@[i as int]);
            }
            return false;
        }
        i = i + 1;
    }
    proof {
        assert(text@.take(prefix@.len() as int) =~= prefix@);
    }
    true
}

/// Whether `text` ends with `suffix`.
fn has_suffix(text: &[u8], suffix: &[u8]) -> (r: bool)
    ensures
        r == ends_with(text@, suffix@),
{
    if suffix.len() > text.len() {
        return false;
    }
    let start = text.len() - suffix.len();
    let mut i: usize = 0;
    while i < suffix.len()
        invariant
            suffix@.len() <= text@.len(),
            text@.len() <= usize::MAX,
            start + suffix@.len() == text@.len(),
            i <= suffix@.len(),
            forall|j: int| 0 <= j < i ==> text@[start + j] == suffix@[j],
        decreases suffix@.len() - i,
    {
        if text[start + i] != suffix[i] {
            proof {
                assert(text@.skip(start as int)[i as int] != suffix@[i as int]);
            }
            return false;
        }
        i = i + 1;
    }
    proof {
        assert(text@.skip(start as int) =~= suffix@);
    }
    true
}

/// A run of digits' value never falls as digits are added.
proof fn lemma_decimal_grows(digits: Seq<u8>, k: int)
    requires
        0 <= k <= digits.len(),
        forall|i: int| 0 <= i < digits.len() ==> 0x30u8 <= #[trigger] digits[i] <= 0x39u8,
    ensures
        decimal_value(digits.take(k)) <= decimal_value(digits),
    decreases digits.len() - k,
{
    if k < digits.len() {
        let next = digits.take(k + 1);
        assert(next.drop_last() =~= digits.take(k));
        lemma_decimal_grows(digits, k + 1);
    } else {
        assert(digits.take(k) =~= digits);
    }
}

/// The decimal value of ASCII digits, optionally after a `+`, when it fits a `u16`.
fn decimal_u16_of(text: &[u8]) -> (r: Option<u16>)
    ensures
        r == decimal_u16(text@),
{
    let skip: usize = if text.len() > 0 && text[0] == 0x2B {
        1
    } else {
        0
    };
    let ghost digits = text@.skip(skip as int);
    proof {
        if skip == 0 {
            assert(digits =~= text@);
        }
        assert(digits == unsigned_part(text@));
    }
    if text.len() <= skip {
        return None;
    }
    let mut value: u32 = 0;
    let mut big = false;
    let mut i: usize = skip;
    while i < text.len()
        invariant
            skip <= i <= text@.len(),
            digits == text@.skip(skip as int),
            digits == unsigned_part(text@),
            forall|j: int| 0 <= j < i - skip ==> 0x30u8 <= #[trigger] digits[j] <= 0x39u8,
            !big ==> value == decimal_value(digits.take(i - skip)) && value <= u16::MAX,
            big ==> decimal_value(digits.take(i - skip)) > u16::MAX,
        decreases text@.len() - i,
    {
        let c = text[i];
        if c < 0x30 || c > 0x39 {
            proof {
                assert(digits[i - skip] == c);
                assert(!(0x30u8 <= digits[i - skip] <= 0x39u8));
                assert(!all_digits(digits));
            }
            return None;
        }
        proof {
            let next = digits.take(i - skip + 1);
            assert(next.drop_last() =~= digits.take(i - skip));
            assert(next.last() == c);
        }
        if !big {
            let grown = value * 10 + (c - 0x30) as u32;
            if grown > 0xFFFF {
                big = true;
            } else {
                value = grown;
            }
        } else {
            proof {
                let next = digits.take(i - skip + 1);
                assert(decimal_value(next) >= decimal_value(digits.take(i - skip)));
            }
        }
        i = i + 1;
    }
    proof {
        assert(digits.take(i - skip) =~= digits);
    }
    if big {
        None
    } else {
        Some(value as u16)
    }
}

/// Where the last `dwordx` in `text` starts.
fn last_marker_of(text: &[u8]) -> (r: Option<usize>)
    ensures
        r matches Some(i) ==> last_marker(text@) == Some(i as int) && i + 6 <= text@.len(),
        r is None ==> last_marker(text@) is None,
{
    let marker: [u8; 6] = [0x64, 0x77, 0x6F, 0x72, 0x64, 0x78];
    proof {
        assert(marker@ =~= dwords_marker());
    }
    if text.len() < 6 {
        return None;
    }
    let mut i: usize = text.len() - 6 + 1;
    while i > 0
        invariant
            text@.len() >= 6,
            text@.len() <= usize::MAX,
            marker@ == dwords_marker(),
            i <= text@.len() - 6 + 1,
            forall|j: int| i <= j && j + 6 <= text@.len() ==> #[trigger] text@.subrange(j, j + 6) != dwords_marker(),
        decreases i,
    {
        i = i - 1;
        let mut same = true;
        let mut k: usize = 0;
        while k < 6
            invariant
                i + 6 <= text@.len(),
                text@.len() <= usize::MAX,
                marker@ == dwords_marker(),
                k <= 6,
                same == forall|m: int| 0 <= m < k ==> text@[i + m] == marker@[m],
            decreases 6 - k,
        {
            if text[i + k] != marker[k] {
                same = false;
            }
            k = k + 1;
        }
        if same {
            proof {
                assert(text@.subrange(i as int, i + 6) =~= dwords_marker());
                let w = choose|w: int|
                    0 <= w && w + 6 <= text@.len() && #[trigger] text@.subrange(w, w + 6) == dwords_marker() && forall|
                        j: int,
                    | w < j && j + 6 <= text@.len() ==> #[trigger] text@.subrange(j, j + 6) != dwords_marker();
                if w < i {
                    assert(text@.subrange(i as int, i + 6) != dwords_marker());
                } else if w > i {
                    assert(text@.subrange(w, w + 6) != dwords_marker());
                }
            }
            return Some(i);
        } else {
            proof {
                let m = choose|m: int| 0 <= m < 6 && text@[i + m] != marker@[m];
                assert(text@.subrange(i as int, i + 6)[m] != dwords_marker()[m]);
            }
        }
    }
    None
}

/// The count after the last `dwordx` in a mnemonic, when that is a count.
fn counted_span(mnemonic: &[u8]) -> (r: Option<u16>)
    ensures
        r == match last_marker(mnemonic@) {
            Some(i) => decimal_u16(mnemonic@.skip(i + 6)),
            None => None,
        },
{
    match last_marker_of(mnemonic) {
        Some(i) => {
            proof {
                assert(i + 6 <= mnemonic@.len());
                assert(mnemonic@.len() == mnemonic.len());
            }
            let rest = vstd::slice::slice_subrange(mnemonic, i + 6, mnemonic.len());
            proof {
                assert(rest@ =~= mnemonic@.skip(i + 6));
            }
            decimal_u16_of(rest)
        },
        None => None,
    }
}

/// Whether a mnemonic names a 64-bit operation: `_b64`, `_u64` or `_i64` at its end.
fn sixty_four_bit(mnemonic: &[u8]) -> (r: bool)
    ensures
        r == (ends_with(mnemonic@, seq![0x5Fu8, 0x62u8, 0x36u8, 0x34u8]) || ends_with(
            mnemonic@,
            seq![0x5Fu8, 0x75u8, 0x36u8, 0x34u8],
        ) || ends_with(mnemonic@, seq![0x5Fu8, 0x69u8, 0x36u8, 0x34u8])),
{
    let b64: [u8; 4] = [0x5F, 0x62, 0x36, 0x34];
    let u64_suffix: [u8; 4] = [0x5F, 0x75, 0x36, 0x34];
    let i64_suffix: [u8; 4] = [0x5F, 0x69, 0x36, 0x34];
    proof {
        assert(b64@ =~= seq![0x5Fu8, 0x62u8, 0x36u8, 0x34u8]);
        assert(u64_suffix@ =~= seq![0x5Fu8, 0x75u8, 0x36u8, 0x34u8]);
        assert(i64_suffix@ =~= seq![0x5Fu8, 0x69u8, 0x36u8, 0x34u8]);
    }
    has_suffix(mnemonic, b64.as_slice()) || has_suffix(mnemonic, u64_suffix.as_slice()) || has_suffix(
        mnemonic,
        i64_suffix.as_slice(),
    )
}

/// How many consecutive scalar registers an instruction's destination spans: a 64-bit move or a
/// multi-dword load writes several, and every one of them stops being a constant.
pub fn scalar_destination_span(mnemonic: &[u8]) -> (r: u16)
    ensures
        r == spec_scalar_destination_span(mnemonic@),
{
    match counted_span(mnemonic) {
        Some(count) => count,
        None => if sixty_four_bit(mnemonic) {
            2
        } else {
            1
        },
    }
}

/// Whether an instruction's mnemonic starts with `prefix`.
fn is_named(instruction: &ShaderInstruction, prefix: &[u8]) -> (r: bool)
    ensures
        r == named(*instruction, prefix@),
{
    match &instruction.mnemonic {
        Some(m) => has_prefix(m.as_slice(), prefix),
        None => false,
    }
}

/// Whether an instruction writes the scalar register its first operand names.
fn writes_scalars_exec(instruction: &ShaderInstruction) -> (r: bool)
    ensures
        r == writes_scalars(*instruction),
{
    let scalar: [u8; 2] = [0x73, 0x5F];
    let compare: [u8; 5] = [0x73, 0x5F, 0x63, 0x6D, 0x70];
    proof {
        assert(scalar@ =~= scalar_prefix());
        assert(compare@ =~= compare_prefix());
    }
    if instruction.operands.len() == 0 {
        return false;
    }
    match instruction.operands[0] {
        ShaderOperand::Scalar(_) => {},
        _ => {
            return false;
        },
    }
    is_named(instruction, scalar.as_slice()) && !is_named(instruction, compare.as_slice())
}

/// The value the last `s_mov_b32` of a constant into `register` moved, and whether exactly one
/// instruction writes it - so whether it holds that constant.
pub fn constant_of(instructions: &[ShaderInstruction], register: u16) -> (r: Option<u32>)
    ensures
        r == constant_in(instructions@, register),
{
    let moves: [u8; 9] = [0x73, 0x5F, 0x6D, 0x6F, 0x76, 0x5F, 0x62, 0x33, 0x32];
    proof {
        assert(moves@ =~= move_mnemonic());
    }
    let mut count: usize = 0;
    let mut moved: Option<u32> = None;
    let mut i: usize = 0;
    while i < instructions.len()
        invariant
            i <= instructions@.len(),
            moves@ == move_mnemonic(),
            count == write_count(instructions@.take(i as int), register),
            count <= i,
            moved == moved_into(instructions@.take(i as int), register),
        decreases instructions@.len() - i,
    {
        let instruction = &instructions[i];
        proof {
            let next = instructions@.take(i as int + 1);
            assert(next.drop_last() =~= instructions@.take(i as int));
            assert(next.last() == instructions@[i as int]);
        }
        if writes_scalars_exec(instruction) {
            let first = match instruction.operands[0] {
                ShaderOperand::Scalar(first) => first,
                _ => 0,
            };
            let m = match &instruction.mnemonic {
                Some(m) => m.as_slice(),
                None => &[],
            };
            let span = scalar_destination_span(m);
            if first <= register && register < first.saturating_add(span) {
                count = count + 1;
            }
            if m.len() == 9 && has_prefix(m, moves.as_slice()) && instruction.operands.len() > 1 && first == register {
                proof {
                    assert(m@ =~= move_mnemonic());
                }
                match instruction.operands[1] {
                    ShaderOperand::Literal(value) => {
                        moved = Some(value);
                    },
                    ShaderOperand::Integer(value) => {
                        if 0 <= value && value <= 0xFFFF_FFFF {
                            moved = Some(value as u32);
                        }
                    },
                    _ => {},
                }
            } else {
                proof {
                    if m@ == move_mnemonic() {
                        assert(m@.take(9) =~= m@);
                    }
                }
            }
        }
        i = i + 1;
    }
    proof {
        assert(instructions@.take(i as int) =~= instructions@);
    }
    if count == 1 {
        moved
    } else {
        None
    }
}

/// The first scalar register among an instruction's sources, past its destination and first
/// source.
fn scalar_source_of(instruction: &ShaderInstruction) -> (r: Option<u16>)
    ensures
        r == scalar_source(*instruction),
{
    let ghost rest = sources_after_first(instruction.operands@);
    if instruction.operands.len() < 2 {
        return None;
    }
    let mut i: usize = 2;
    while i < instruction.operands.len()
        invariant
            2 <= i <= instruction.operands@.len(),
            rest == instruction.operands@.skip(2),
            forall|j: int| 0 <= j < i - 2 && j < rest.len() ==> !(#[trigger] rest[j] is Scalar),
        decreases instruction.operands@.len() - i,
    {
        match instruction.operands[i] {
            ShaderOperand::Scalar(register) => {
                proof {
                    let k = (i - 2) as int;
                    assert(rest[k] == instruction.operands@[i as int]);
                    let w = choose|w: int|
                        0 <= w < rest.len() && #[trigger] rest[w] is Scalar && forall|j: int| 0 <= j < w ==> !(#[trigger] rest[j] is Scalar);
                    if w < k {
                        assert(!(rest[w] is Scalar));
                    } else if w > k {
                        assert(!(rest[k] is Scalar));
                    }
                }
                return Some(register);
            },
            _ => {},
        }
        i = i + 1;
    }
    proof {
        assert(forall|j: int| 0 <= j < rest.len() ==> !(#[trigger] rest[j] is Scalar));
    }
    None
}

/// Whether an instruction is a `v_add_co_u32` whose scalar source holds a constant.
fn adds_constant_exec(instructions: &[ShaderInstruction], instruction: &ShaderInstruction) -> (r: Option<u16>)
    ensures
        r is Some <==> adds_constant(instructions@, *instruction),
        r matches Some(register) ==> scalar_source(*instruction) == Some(register),
{
    let add: [u8; 12] = [0x76, 0x5F, 0x61, 0x64, 0x64, 0x5F, 0x63, 0x6F, 0x5F, 0x75, 0x33, 0x32];
    proof {
        assert(add@ =~= add_prefix());
    }
    if !is_named(instruction, add.as_slice()) {
        return None;
    }
    match scalar_source_of(instruction) {
        Some(register) => {
            if constant_of(instructions, register).is_some() {
                Some(register)
            } else {
                None
            }
        },
        None => None,
    }
}

/// The first `v_add_co_u32` taking a constant scalar source: where it is, and the register.
fn first_constant_add(instructions: &[ShaderInstruction]) -> (r: Option<(usize, u16)>)
    ensures
        r is None ==> !exists|k: int| 0 <= k < instructions@.len() && adds_constant(instructions@, #[trigger] instructions@[k]),
        r matches Some((i, register)) ==> i < instructions@.len() && adds_constant(instructions@, instructions@[i as int])
            && scalar_source(instructions@[i as int]) == Some(register) && forall|j: int|
            0 <= j < i ==> !adds_constant(instructions@, #[trigger] instructions@[j]),
{
    let mut i: usize = 0;
    while i < instructions.len()
        invariant
            i <= instructions@.len(),
            forall|j: int| 0 <= j < i ==> !adds_constant(instructions@, #[trigger] instructions@[j]),
        decreases instructions@.len() - i,
    {
        match adds_constant_exec(instructions, &instructions[i]) {
            Some(register) => {
                return Some((i, register));
            },
            None => {},
        }
        i = i + 1;
    }
    None
}

/// The 64-bit address a shader forms from two constant scalar registers as the base of its memory
/// accesses, or `None`.
///
/// A scalar register is a constant here only if the whole program writes it exactly once, with
/// `s_mov_b32` of a literal or an inline integer, and no other instruction's destination - a
/// scalar load's whole range included - touches it. The base is then the pair a `v_add_co_u32`
/// takes as its scalar source for the low half and a `v_add_co_ci_u32` takes, one register up,
/// for the high half: the carry-chained 64-bit add a global access forms its address with. A
/// register the program also computes, loads or moves from elsewhere is not a constant and names
/// no base - so a shader whose addresses are computed yields nothing rather than a guess.
#[verifier::spinoff_prover]
#[verifier::rlimit(30)]
pub fn constant_address_base(instructions: &[ShaderInstruction]) -> (r: Option<u64>)
    ensures
        r == spec_constant_address_base(instructions@),
{
    let (i, low) = match first_constant_add(instructions) {
        Some(found) => found,
        None => {
            return None;
        },
    };
    proof {
        let w = choose|w: int|
            0 <= w < instructions@.len() && adds_constant(instructions@, #[trigger] instructions@[w]) && forall|j: int|
                0 <= j < w ==> !adds_constant(instructions@, #[trigger] instructions@[j]);
        assert(adds_constant(instructions@, instructions@[i as int]));
        if w < i {
            assert(!adds_constant(instructions@, instructions@[w]));
        } else if w > i {
            assert(!adds_constant(instructions@, instructions@[i as int]));
        }
        assert(scalar_source(instructions@[i as int]) == Some(low));
    }
    if low == u16::MAX {
        return None;
    }
    let high = low + 1;
    let carry: [u8; 15] = [0x76, 0x5F, 0x61, 0x64, 0x64, 0x5F, 0x63, 0x6F, 0x5F, 0x63, 0x69, 0x5F, 0x75, 0x33, 0x32];
    proof {
        assert(carry@ =~= carry_add_prefix());
    }
    let mut carried = false;
    let mut k: usize = 0;
    while k < instructions.len()
        invariant
            k <= instructions@.len(),
            carry@ == carry_add_prefix(),
            carried == exists|j: int| 0 <= j < k && carries_into(#[trigger] instructions@[j], high),
        decreases instructions@.len() - k,
    {
        if is_named(&instructions[k], carry.as_slice()) {
            match scalar_source_of(&instructions[k]) {
                Some(register) => {
                    if register == high {
                        carried = true;
                    }
                },
                None => {},
            }
        }
        k = k + 1;
    }
    if !carried {
        return None;
    }
    let high_value = match constant_of(instructions, high) {
        Some(value) => value,
        None => {
            return None;
        },
    };
    let low_value = match constant_of(instructions, low) {
        Some(value) => value,
        None => {
            return None;
        },
    };
    Some(((high_value as u64) << 32u64) | (low_value as u64))
}

/// Each stage's `SPI_SHADER_PGM_RSRC2`, which carries `USER_SGPR` in bits 1-5: the vertex stage's
/// (the NGG geometry set's).
pub const VERTEX_RSRC2: u32 = 0x2C8B;

/// The fragment stage's `SPI_SHADER_PGM_RSRC2`.
pub const FRAGMENT_RSRC2: u32 = 0x2C0B;

/// The vertex stage's `SPI_SHADER_PGM_RSRC1`, with `DX10_CLAMP` in bit 21.
pub const VERTEX_RSRC1: u32 = 0x2C8A;

/// The fragment stage's `SPI_SHADER_PGM_RSRC1`.
pub const FRAGMENT_RSRC1: u32 = 0x2C0A;

/// `SPI_SHADER_PGM_RSRC1.DX10_CLAMP`, bit 21: what an output clamp does with a NaN.
pub const DX10_CLAMP_BIT: u32 = 0x20_0000;

/// Where a stage's user data lands, how much of it there is, and where it sits in the block a
/// backend fills per draw.
#[derive(Debug, Clone, Copy, PartialEq, Eq, Structural)]
pub struct UserDataLayout {
    /// The first scalar register the words are loaded into.
    pub first_register: u32,
    /// How many words the stage's shader takes.
    pub count: u32,
    /// Where the stage's words start in the block.
    pub block_offset: usize,
    /// Whether the stage clamps NaN outputs to zero (`DX10_CLAMP`); `None` when the stream set no
    /// `RSRC1`.
    pub dx10_clamp: Option<bool>,
}

/// The user-data count a stage's last `RSRC2` names, zero when it has none.
pub open spec fn user_sgprs(writes: Seq<RegisterWrite>, rsrc2: u32) -> u32 {
    match latest_value(writes, rsrc2) {
        Some(value) => (value >> 1u32) & 0x1Fu32,
        None => 0,
    }
}

/// Whether a stage's last `RSRC1` sets `DX10_CLAMP`, when it has one.
pub open spec fn clamps(writes: Seq<RegisterWrite>, rsrc1: u32) -> Option<bool> {
    match latest_value(writes, rsrc1) {
        Some(value) => Some(value & DX10_CLAMP_BIT != 0),
        None => None,
    }
}

/// Each stage's user-data layout, vertex then fragment: the count from the stage's last `RSRC2`
/// write, the first register `s8` for the geometry program - the eight before it are the wave's
/// own - and `s0` for the pixel shader, the vertex stage's words first in the block and the
/// fragment stage's after them; and whether each clamps NaN outputs, from its last `RSRC1`.
pub fn user_data_layouts(writes: &[RegisterWrite]) -> (r: [UserDataLayout; 2])
    ensures
        r[0] == (UserDataLayout {
            first_register: 8,
            count: user_sgprs(writes@, VERTEX_RSRC2),
            block_offset: 0,
            dx10_clamp: clamps(writes@, VERTEX_RSRC1),
        }),
        r[1] == (UserDataLayout {
            first_register: 0,
            count: user_sgprs(writes@, FRAGMENT_RSRC2),
            block_offset: crate::backend::USER_DATA_BLOCK_OFFSETS[1],
            dx10_clamp: clamps(writes@, FRAGMENT_RSRC1),
        }),
{
    let count = |register: u32| -> (c: u32)
        ensures
            c == user_sgprs(writes@, register),
        {
            match latest(writes, register) {
                Some(value) => (value >> 1u32) & 0x1Fu32,
                None => 0,
            }
        };
    let dx10_clamp = |register: u32| -> (c: Option<bool>)
        ensures
            c == clamps(writes@, register),
        {
            match latest(writes, register) {
                Some(value) => Some(value & DX10_CLAMP_BIT != 0),
                None => None,
            }
        };
    [
        UserDataLayout {
            first_register: 8,
            count: count(VERTEX_RSRC2),
            block_offset: 0,
            dx10_clamp: dx10_clamp(VERTEX_RSRC1),
        },
        UserDataLayout {
            first_register: 0,
            count: count(FRAGMENT_RSRC2),
            block_offset: crate::backend::USER_DATA_BLOCK_OFFSETS[1],
            dx10_clamp: dx10_clamp(FRAGMENT_RSRC1),
        },
    ]
}


/// A scissor edge as a signed coordinate: zero when it does not fit.
pub open spec fn spec_coordinate(v: u32) -> i32 {
    if v <= 0x7FFF_FFFF {
        v as i32
    } else {
        0
    }
}

fn coordinate(v: u32) -> (r: i32)
    ensures
        r == spec_coordinate(v),
{
    if v <= 0x7FFF_FFFF {
        v as i32
    } else {
        0
    }
}

/// The scissor a stream set, as the viewport a backend restricts a draw to.
pub open spec fn scissor_viewport(scissor: Scissor) -> RenderCommand {
    RenderCommand::SetViewport(
        Rect {
            x: spec_coordinate(scissor.x),
            y: spec_coordinate(scissor.y),
            width: scissor.width,
            height: scissor.height,
        },
    )
}

/// The colour target's extent a stream's writes set, when they set one.
pub open spec fn target_extent_of(writes: Seq<RegisterWrite>) -> Option<ColourTargetExtent> {
    match latest_value(writes, CB_COLOR0_ATTRIB2) {
        Some(v) => Some(spec_decode_colour_target_extent(v)),
        None => None,
    }
}

/// The scissor a stream's writes set, when they set both corners.
pub open spec fn scissor_of(writes: Seq<RegisterWrite>) -> Option<Scissor> {
    match (latest_value(writes, PA_SC_GENERIC_SCISSOR_TL), latest_value(writes, PA_SC_GENERIC_SCISSOR_BR)) {
        (Some(tl), Some(br)) => Some(spec_decode_scissor(tl, br)),
        _ => None,
    }
}

/// A submission's commands in the order a backend acts on them: the colour target a stream sizes,
/// before anything draws into it; the scissor it set, as a viewport; then each draw with the
/// state and shaders it runs under, and the dispatches, in the stream's own order.
pub fn submission_commands(
    walked: &PacketWalk,
    stream: &[u8],
    writes: &[RegisterWrite],
    draws: &[DrawCall],
    per_draw: &[Vec<(ShaderStage, ResourceId)>],
) -> (r: Vec<RenderCommand>)
    requires
        offsets_representable(walked),
    ensures
        ({
            let targeted: int = if target_extent_of(writes@) is Some { 1 } else { 0 };
            let lead: int = targeted + if scissor_of(writes@) is Some { 1int } else { 0int };
            &&& r@.len() >= lead
            &&& target_extent_of(writes@) matches Some(extent) ==> (r@[0] matches RenderCommand::SetRenderTargets {
                colour,
                depth,
            } && colour@ == seq![spec_colour_target_id(extent)] && depth is None)
            &&& scissor_of(writes@) matches Some(scissor) ==> r@[targeted] == scissor_viewport(scissor)
            &&& r@.subrange(lead, r@.len() as int) == geometry_upto(
                (bound_in(r@.take(lead)), None, None, None, None),
                draws@,
                per_draw@.map_values(|v: Vec<(ShaderStage, ResourceId)>| v@),
                writes@,
                draws@.len(),
            ).1 + dispatch_commands(dispatches_of(walked.packets@, stream@))
        }),
{
    let mut commands: Vec<RenderCommand> = Vec::new();
    match colour_target_extent_at(writes) {
        Some(extent) => {
            let mut colour: Vec<ResourceId> = Vec::new();
            colour.push(colour_target_id(extent));
            commands.push(RenderCommand::SetRenderTargets { colour, depth: None });
        },
        None => {},
    }
    match scissor_at(writes) {
        Some(scissor) => {
            commands.push(
                RenderCommand::SetViewport(
                    Rect {
                        x: coordinate(scissor.x),
                        y: coordinate(scissor.y),
                        width: scissor.width,
                        height: scissor.height,
                    },
                ),
            );
        },
        None => {},
    }
    let ghost lead = commands@;
    push_geometry_commands(&mut commands, walked, stream, draws, writes, per_draw);
    proof {
        assert(commands@.take(lead.len() as int) =~= lead);
        assert(commands@.subrange(lead.len() as int, commands@.len() as int) =~= commands@.subrange(
            lead.len() as int,
            commands@.len() as int,
        ));
    }
    commands
}


/// The shaders a draw binds from the candidates live at it: each candidate whose stage names a
/// shader stage the queue permits and the guest did not register, as that stage and its address.
pub open spec fn chosen(candidates: Seq<ShaderCandidate>, queue: Queue, registered: Seq<ShaderStage>) -> Seq<
    (ShaderStage, u64),
>
    decreases candidates.len(),
{
    if candidates.len() == 0 {
        Seq::empty()
    } else {
        let before = chosen(candidates.drop_last(), queue, registered);
        let c = candidates.last();
        match spec_stage_of(c.stage@) {
            Some(stage) => if queue.spec_permits(stage) && !registered.contains(stage) {
                before.push((stage, c.address))
            } else {
                before
            },
            None => before,
        }
    }
}

/// Whether `shaders` are those a draw at `offset` binds: chosen from the shader candidates the
/// writes in the packets before it reassemble.
pub open spec fn draw_bound(
    writes: Seq<RegisterWrite>,
    offset: u32,
    vocabulary: Vocabulary,
    queue: Queue,
    registered: Seq<ShaderStage>,
    shaders: Seq<(ShaderStage, u64)>,
) -> bool {
    exists|candidates: Seq<ShaderCandidate>|
        candidates_of(candidates, writes.filter(|w: RegisterWrite| w.packet_offset < offset), vocabulary)
            && shaders == #[trigger] chosen(candidates, queue, registered)
}

/// The shaders each draw ran: for every draw, the program addresses the shader registers held
/// in the packets before it, each under the stage it binds - a stage the queue does not permit,
/// or one the guest registered (which keeps its registration), is left out.
pub fn draw_binds(
    writes: &[RegisterWrite],
    draws: &[DrawCall],
    vocabulary: &Vocabulary,
    queue: Queue,
    registered: &[ShaderStage],
) -> (r: Vec<Vec<(ShaderStage, u64)>>)
    requires
        vocabulary.wf(),
    ensures
        r@.len() == draws@.len(),
        forall|d: int|
            0 <= d < draws@.len() ==> draw_bound(
                writes@,
                draws@[d].packet_offset,
                *vocabulary,
                queue,
                registered@,
                (#[trigger] r@[d])@,
            ),
{
    let mut out: Vec<Vec<(ShaderStage, u64)>> = Vec::new();
    let mut d: usize = 0;
    while d < draws.len()
        invariant
            vocabulary.wf(),
            d <= draws@.len(),
            out@.len() == d,
            forall|e: int|
                0 <= e < d ==> draw_bound(
                    writes@,
                    draws@[e].packet_offset,
                    *vocabulary,
                    queue,
                    registered@,
                    (#[trigger] out@[e])@,
                ),
        decreases draws@.len() - d,
    {
        let candidates = shader_candidates_before(writes, vocabulary, draws[d].packet_offset);
        let mut shaders: Vec<(ShaderStage, u64)> = Vec::new();
        let mut i: usize = 0;
        while i < candidates.len()
            invariant
                i <= candidates@.len(),
                shaders@ == chosen(candidates@.take(i as int), queue, registered@),
            decreases candidates@.len() - i,
        {
            proof {
                assert(candidates@.take(i as int + 1).drop_last() =~= candidates@.take(i as int));
                assert(candidates@.take(i as int + 1).last() == candidates@[i as int]);
            }
            match stage_of(candidates[i].stage.as_str()) {
                Some(stage) => {
                    let mut taken = false;
                    let mut j: usize = 0;
                    while j < registered.len()
                        invariant
                            j <= registered@.len(),
                            taken == exists|m: int| 0 <= m < j && registered@[m] == stage,
                        decreases registered@.len() - j,
                    {
                        if registered[j] == stage {
                            taken = true;
                        }
                        j = j + 1;
                    }
                    if queue.permits(stage) && !taken {
                        shaders.push((stage, candidates[i].address));
                    }
                },
                None => {},
            }
            i = i + 1;
        }
        proof {
            assert(candidates@.take(i as int) =~= candidates@);
        }
        let ghost before = out@;
        out.push(shaders);
        proof {
            assert forall|e: int|
                0 <= e < d + 1 implies draw_bound(
                    writes@,
                    draws@[e].packet_offset,
                    *vocabulary,
                    queue,
                    registered@,
                    (#[trigger] out@[e])@,
                ) by {
                if e < d {
                    assert(out@[e] == before[e]);
                } else {
                    assert(out@[e] == shaders);
                    assert(candidates_of(
                        candidates@,
                        writes@.filter(|w: RegisterWrite| w.packet_offset < draws@[e].packet_offset),
                        *vocabulary,
                    ));
                    assert(out@[e]@ == chosen(candidates@, queue, registered@));
                }
            }
        }
        d = d + 1;
    }
    out
}

} // verus!
