//! Where a running title's time goes.
//!
//! Cumulative nanoseconds per phase and counts of what happened, since the last [`take`]. Every
//! layer that does a part of presenting a frame adds to it, and the worker reads it once a second,
//! so the window can say what the frame rate is and which part of a frame to make faster. The
//! counters are a [`Tally`]; the embedder keeps one for the process and times the work.
use vstd::prelude::*;

verus! {

/// A part of presenting a frame.
#[derive(Debug, Clone, Copy, PartialEq, Eq, Structural)]
pub enum Phase {
    /// A submitted command buffer walked, and its shaders translated or taken from the cache.
    Prepare,
    /// The colour target read out of guest memory and detiled, before a submission's draws.
    ReadTarget,
    /// A resident draw's pipeline built (or taken from the cache).
    Build,
    /// Guest memory copied into a draw's window buffer.
    Seed,
    /// A draw recorded and submitted.
    Execute,
    /// Something a draw wrote read back to the host.
    ReadBack,
    /// Command pools and uncached pipelines released.
    Release,
    /// Everything else in carrying out a submission's draws.
    DrawOther,
    /// The finished frame tiled and written back where the guest reads it.
    WriteTarget,
    /// A flipped buffer detiled and handed to the window.
    Present,
    /// A whole graphics submit, from the guest's call to its return - containing the phases from
    /// `Prepare` to `WriteTarget`, so it is reported beside them rather than summed with them.
    Submit,
    /// The device's busy time, by its own clock - alongside the host's, not part of it.
    Gpu,
}

impl Phase {
    /// Every phase, in report order.
    pub const ALL: [Phase; 12] = [
        Phase::Prepare,
        Phase::ReadTarget,
        Phase::Build,
        Phase::Seed,
        Phase::Execute,
        Phase::ReadBack,
        Phase::Release,
        Phase::DrawOther,
        Phase::WriteTarget,
        Phase::Present,
        Phase::Submit,
        Phase::Gpu,
    ];

    /// Its place in [`Self::ALL`].
    pub open spec fn spec_index(self) -> int {
        match self {
            Phase::Prepare => 0,
            Phase::ReadTarget => 1,
            Phase::Build => 2,
            Phase::Seed => 3,
            Phase::Execute => 4,
            Phase::ReadBack => 5,
            Phase::Release => 6,
            Phase::DrawOther => 7,
            Phase::WriteTarget => 8,
            Phase::Present => 9,
            Phase::Submit => 10,
            Phase::Gpu => 11,
        }
    }

    /// Its place in [`Self::ALL`], which indexes a snapshot's counters.
    pub fn index(self) -> (r: usize)
        ensures
            r == self.spec_index(),
    {
        match self {
            Phase::Prepare => 0,
            Phase::ReadTarget => 1,
            Phase::Build => 2,
            Phase::Seed => 3,
            Phase::Execute => 4,
            Phase::ReadBack => 5,
            Phase::Release => 6,
            Phase::DrawOther => 7,
            Phase::WriteTarget => 8,
            Phase::Present => 9,
            Phase::Submit => 10,
            Phase::Gpu => 11,
        }
    }

    /// What to call it on screen.
    pub open spec fn spec_label(self) -> Seq<char> {
        match self {
            Phase::Prepare => "prepare"@,
            Phase::ReadTarget => "read target"@,
            Phase::Build => "build"@,
            Phase::Seed => "seed"@,
            Phase::Execute => "execute"@,
            Phase::ReadBack => "read back"@,
            Phase::Release => "release"@,
            Phase::DrawOther => "draw setup"@,
            Phase::WriteTarget => "write target"@,
            Phase::Present => "present"@,
            Phase::Submit => "submit (total)"@,
            Phase::Gpu => "gpu busy"@,
        }
    }

    /// What to call it on screen.
    pub fn label(self) -> (r: &'static str)
        ensures
            r@ == self.spec_label(),
    {
        match self {
            Phase::Prepare => "prepare",
            Phase::ReadTarget => "read target",
            Phase::Build => "build",
            Phase::Seed => "seed",
            Phase::Execute => "execute",
            Phase::ReadBack => "read back",
            Phase::Release => "release",
            Phase::DrawOther => "draw setup",
            Phase::WriteTarget => "write target",
            Phase::Present => "present",
            Phase::Submit => "submit (total)",
            Phase::Gpu => "gpu busy",
        }
    }
}

/// Something counted.
#[derive(Debug, Clone, Copy, PartialEq, Eq, Structural)]
pub enum Count {
    /// Flips the guest submitted.
    Flips,
    /// Submissions whose draws were carried out.
    Submissions,
    /// Draws carried out.
    Draws,
}

impl Count {
    /// Every count, in report order.
    pub const ALL: [Count; 3] = [
        Count::Flips,
        Count::Submissions,
        Count::Draws,
    ];

    /// Its place in [`Self::ALL`].
    pub open spec fn spec_index(self) -> int {
        match self {
            Count::Flips => 0,
            Count::Submissions => 1,
            Count::Draws => 2,
        }
    }

    /// Its place in [`Self::ALL`], which indexes a snapshot's counters.
    pub fn index(self) -> (r: usize)
        ensures
            r == self.spec_index(),
    {
        match self {
            Count::Flips => 0,
            Count::Submissions => 1,
            Count::Draws => 2,
        }
    }
}

/// A finer span of presenting a frame, measured only when [`set_detail`] asked for it.
#[derive(Debug, Clone, Copy, PartialEq, Eq, Structural)]
pub enum Span {
    /// The guest's submit call, whole.
    SubmitCall,
    /// The command processor's walk of a submission, draws included.
    CommandProcessor,
    /// Carrying out a submission's draws into its target.
    RunDraws,
    /// Handing the draws to the device thread and getting its answer.
    ExecuteHandOff,
    /// The draws on the device thread.
    ExecuteOnDevice,
    /// A `DMA_DATA` copy, deferred or carried out.
    Copy,
    /// Keeping a frame snapshot for a deferred copy.
    KeepSnapshot,
    /// Releasing a superseded snapshot.
    DiscardSnapshot,
    /// Every other command-processor memory step: fills, fences, waits.
    OtherMemory,
    /// Writing the pending frame back at the flip.
    FlipWriteBack,
    /// Carrying out a deferred copy.
    CarryOut,
    /// Driving a submission's commands into the backend, on the device thread.
    Drive,
    /// Sending the recorded draws to the device.
    SubmitDraws,
    /// What the executor says about each submission on the error stream.
    ExecutorLog,
    /// Handing the backend a submission's guest-memory window.
    GuestWindow,
    /// A draw command, carried out by the backend.
    DrawCommand,
    /// Any other command, carried out by the backend.
    StateCommand,
    /// A draw that joined the open batch without being worked out again.
    DrawJoined,
    /// A draw that could not join the open batch, and took the whole path.
    DrawWhole,
    /// A whole-path draw's guest-memory window, uploaded when it changed.
    WholeWindow,
    /// A whole-path draw's pipeline, found in the cache or built.
    WholePipeline,
    /// A whole-path draw recorded into its attachment's open pass.
    WholeRecord,
    /// Preparing a submission: walking its packets.
    PrepareWalk,
    /// Preparing a submission: collecting its register writes.
    PrepareRegisters,
    /// Preparing a submission: what its shaders are translated against.
    PrepareEnvironment,
    /// Preparing a submission: its guest-memory window, read.
    PrepareWindow,
    /// Preparing a submission: its draws' shaders, found and translated or taken from the cache.
    PrepareShaders,
    /// Preparing a submission: its draws' state and geometry commands.
    PrepareGeometry,
    /// Preparing a submission: its textures, read and bound.
    PrepareTextures,
}

impl Span {
    /// Every span, in report order.
    pub const ALL: [Span; 29] = [
        Span::SubmitCall,
        Span::CommandProcessor,
        Span::RunDraws,
        Span::ExecuteHandOff,
        Span::ExecuteOnDevice,
        Span::Copy,
        Span::KeepSnapshot,
        Span::DiscardSnapshot,
        Span::OtherMemory,
        Span::FlipWriteBack,
        Span::CarryOut,
        Span::Drive,
        Span::SubmitDraws,
        Span::ExecutorLog,
        Span::GuestWindow,
        Span::DrawCommand,
        Span::StateCommand,
        Span::DrawJoined,
        Span::DrawWhole,
        Span::WholeWindow,
        Span::WholePipeline,
        Span::WholeRecord,
        Span::PrepareWalk,
        Span::PrepareRegisters,
        Span::PrepareEnvironment,
        Span::PrepareWindow,
        Span::PrepareShaders,
        Span::PrepareGeometry,
        Span::PrepareTextures,
    ];

    /// Its place in [`Self::ALL`].
    pub open spec fn spec_index(self) -> int {
        match self {
            Span::SubmitCall => 0,
            Span::CommandProcessor => 1,
            Span::RunDraws => 2,
            Span::ExecuteHandOff => 3,
            Span::ExecuteOnDevice => 4,
            Span::Copy => 5,
            Span::KeepSnapshot => 6,
            Span::DiscardSnapshot => 7,
            Span::OtherMemory => 8,
            Span::FlipWriteBack => 9,
            Span::CarryOut => 10,
            Span::Drive => 11,
            Span::SubmitDraws => 12,
            Span::ExecutorLog => 13,
            Span::GuestWindow => 14,
            Span::DrawCommand => 15,
            Span::StateCommand => 16,
            Span::DrawJoined => 17,
            Span::DrawWhole => 18,
            Span::WholeWindow => 19,
            Span::WholePipeline => 20,
            Span::WholeRecord => 21,
            Span::PrepareWalk => 22,
            Span::PrepareRegisters => 23,
            Span::PrepareEnvironment => 24,
            Span::PrepareWindow => 25,
            Span::PrepareShaders => 26,
            Span::PrepareGeometry => 27,
            Span::PrepareTextures => 28,
        }
    }

    /// Its place in [`Self::ALL`], which indexes a snapshot's counters.
    pub fn index(self) -> (r: usize)
        ensures
            r == self.spec_index(),
    {
        match self {
            Span::SubmitCall => 0,
            Span::CommandProcessor => 1,
            Span::RunDraws => 2,
            Span::ExecuteHandOff => 3,
            Span::ExecuteOnDevice => 4,
            Span::Copy => 5,
            Span::KeepSnapshot => 6,
            Span::DiscardSnapshot => 7,
            Span::OtherMemory => 8,
            Span::FlipWriteBack => 9,
            Span::CarryOut => 10,
            Span::Drive => 11,
            Span::SubmitDraws => 12,
            Span::ExecutorLog => 13,
            Span::GuestWindow => 14,
            Span::DrawCommand => 15,
            Span::StateCommand => 16,
            Span::DrawJoined => 17,
            Span::DrawWhole => 18,
            Span::WholeWindow => 19,
            Span::WholePipeline => 20,
            Span::WholeRecord => 21,
            Span::PrepareWalk => 22,
            Span::PrepareRegisters => 23,
            Span::PrepareEnvironment => 24,
            Span::PrepareWindow => 25,
            Span::PrepareShaders => 26,
            Span::PrepareGeometry => 27,
            Span::PrepareTextures => 28,
        }
    }

    /// What to call it on screen.
    pub open spec fn spec_label(self) -> Seq<char> {
        match self {
            Span::SubmitCall => "submit call"@,
            Span::CommandProcessor => "command processor"@,
            Span::RunDraws => "run draws"@,
            Span::ExecuteHandOff => "execute hand-off"@,
            Span::ExecuteOnDevice => "execute on device"@,
            Span::Copy => "dma copy"@,
            Span::KeepSnapshot => "keep snapshot"@,
            Span::DiscardSnapshot => "discard snapshot"@,
            Span::OtherMemory => "other memory work"@,
            Span::FlipWriteBack => "flip write-back"@,
            Span::CarryOut => "carry out"@,
            Span::Drive => "drive"@,
            Span::SubmitDraws => "submit draws"@,
            Span::ExecutorLog => "executor log"@,
            Span::GuestWindow => "guest window"@,
            Span::DrawCommand => "draw command"@,
            Span::StateCommand => "state command"@,
            Span::DrawJoined => "draw joined"@,
            Span::DrawWhole => "draw whole"@,
            Span::WholeWindow => "whole: window"@,
            Span::WholePipeline => "whole: pipeline"@,
            Span::WholeRecord => "whole: record"@,
            Span::PrepareWalk => "prepare: walk"@,
            Span::PrepareRegisters => "prepare: registers"@,
            Span::PrepareEnvironment => "prepare: environment"@,
            Span::PrepareWindow => "prepare: window"@,
            Span::PrepareShaders => "prepare: shaders"@,
            Span::PrepareGeometry => "prepare: geometry"@,
            Span::PrepareTextures => "prepare: textures"@,
        }
    }

    /// What to call it on screen.
    pub fn label(self) -> (r: &'static str)
        ensures
            r@ == self.spec_label(),
    {
        match self {
            Span::SubmitCall => "submit call",
            Span::CommandProcessor => "command processor",
            Span::RunDraws => "run draws",
            Span::ExecuteHandOff => "execute hand-off",
            Span::ExecuteOnDevice => "execute on device",
            Span::Copy => "dma copy",
            Span::KeepSnapshot => "keep snapshot",
            Span::DiscardSnapshot => "discard snapshot",
            Span::OtherMemory => "other memory work",
            Span::FlipWriteBack => "flip write-back",
            Span::CarryOut => "carry out",
            Span::Drive => "drive",
            Span::SubmitDraws => "submit draws",
            Span::ExecutorLog => "executor log",
            Span::GuestWindow => "guest window",
            Span::DrawCommand => "draw command",
            Span::StateCommand => "state command",
            Span::DrawJoined => "draw joined",
            Span::DrawWhole => "draw whole",
            Span::WholeWindow => "whole: window",
            Span::WholePipeline => "whole: pipeline",
            Span::WholeRecord => "whole: record",
            Span::PrepareWalk => "prepare: walk",
            Span::PrepareRegisters => "prepare: registers",
            Span::PrepareEnvironment => "prepare: environment",
            Span::PrepareWindow => "prepare: window",
            Span::PrepareShaders => "prepare: shaders",
            Span::PrepareGeometry => "prepare: geometry",
            Span::PrepareTextures => "prepare: textures",
        }
    }
}

/// Phases measured.
pub const PHASES: usize = 12;

/// Things counted.
pub const COUNTS: usize = 3;

/// Finer spans measured.
pub const SPANS: usize = 29;

/// What was measured since the last [`take`].
#[derive(Debug, Clone, PartialEq, Eq)]
pub struct Snapshot {
    /// Nanoseconds per phase, in [`Phase::ALL`] order.
    pub spent: [u64; 12],
    /// Flips, submissions and draws, in [`Count`] order.
    pub counted: [u64; 3],
}

impl Snapshot {
    /// Nanoseconds spent in `phase`.
    pub fn spent(&self, phase: Phase) -> (r: u64)
        ensures
            r == self.spent@[phase.spec_index()],
    {
        self.spent[phase.index()]
    }

    /// How many of `what`.
    pub fn counted(&self, what: Count) -> (r: u64)
        ensures
            r == self.counted@[what.spec_index()],
    {
        self.counted[what.index()]
    }
}

/// The counters: nanoseconds per phase, counts, and the finer spans with whether they are being
/// measured. Each counter wraps, as a hardware counter does, rather than stopping.
#[derive(Debug, Clone)]
pub struct Tally {
    spent: [u64; 12],
    counted: [u64; 3],
    detail: bool,
    span_spent: [u64; 29],
    span_counted: [u64; 29],
}

/// A run of counters all zero.
pub open spec fn zeroes(n: nat) -> Seq<u64> {
    Seq::new(n, |i: int| 0u64)
}

impl Tally {
    /// Nanoseconds per phase.
    pub closed spec fn spec_spent(&self) -> Seq<u64> {
        self.spent@
    }

    /// Counts, in [`Count`] order.
    pub closed spec fn spec_counted(&self) -> Seq<u64> {
        self.counted@
    }

    /// Whether spans are being measured.
    pub closed spec fn spec_detail(&self) -> bool {
        self.detail
    }

    /// Nanoseconds per span.
    pub closed spec fn spec_span_spent(&self) -> Seq<u64> {
        self.span_spent@
    }

    /// Occurrences per span.
    pub closed spec fn spec_span_counted(&self) -> Seq<u64> {
        self.span_counted@
    }

    /// Nothing measured, spans off.
    pub fn new() -> (r: Self)
        ensures
            r.spec_spent() == zeroes(PHASES as nat),
            r.spec_counted() == zeroes(COUNTS as nat),
            !r.spec_detail(),
            r.spec_span_spent() == zeroes(SPANS as nat),
            r.spec_span_counted() == zeroes(SPANS as nat),
    {
        let r = Tally {
            spent: [0u64; 12],
            counted: [0u64; 3],
            detail: false,
            span_spent: [0u64; 29],
            span_counted: [0u64; 29],
        };
        proof {
            assert(r.spent@ =~= zeroes(12));
            assert(r.counted@ =~= zeroes(3));
            assert(r.span_spent@ =~= zeroes(29));
            assert(r.span_counted@ =~= zeroes(29));
        }
        r
    }
}

/// Counters after `amount` is added to counter `i`, wrapping.
pub open spec fn after_adding(counters: Seq<u64>, i: int, amount: u64) -> Seq<u64> {
    counters.update(i, counters[i].wrapping_add(amount))
}

/// A duration in nanoseconds as a counter takes it: saturated at the largest a counter holds.
pub fn saturating_nanos(nanos: u128) -> (r: u64)
    ensures
        r == (if nanos > u64::MAX {
            u64::MAX as int
        } else {
            nanos as int
        }),
{
    if nanos > u64::MAX as u128 {
        u64::MAX
    } else {
        nanos as u64
    }
}

/// Adds `nanos` to `phase`.
pub fn add(tally: &mut Tally, phase: Phase, nanos: u64)
    ensures
        final(tally).spec_spent() == after_adding(old(tally).spec_spent(), phase.spec_index(), nanos),
        final(tally).spec_counted() == old(tally).spec_counted(),
        final(tally).spec_detail() == old(tally).spec_detail(),
        final(tally).spec_span_spent() == old(tally).spec_span_spent(),
        final(tally).spec_span_counted() == old(tally).spec_span_counted(),
{
    let i = phase.index();
    let now = tally.spent[i].wrapping_add(nanos);
    tally.spent.set(i, now);
}

/// Counts one of `what`.
pub fn count(tally: &mut Tally, what: Count)
    ensures
        final(tally).spec_counted() == after_adding(old(tally).spec_counted(), what.spec_index(), 1),
        final(tally).spec_spent() == old(tally).spec_spent(),
        final(tally).spec_detail() == old(tally).spec_detail(),
        final(tally).spec_span_spent() == old(tally).spec_span_spent(),
        final(tally).spec_span_counted() == old(tally).spec_span_counted(),
{
    let i = what.index();
    let now = tally.counted[i].wrapping_add(1);
    tally.counted.set(i, now);
}

/// Everything measured since the last call, and resets it.
pub fn take(tally: &mut Tally) -> (r: Snapshot)
    ensures
        r.spent@ == old(tally).spec_spent(),
        r.counted@ == old(tally).spec_counted(),
        final(tally).spec_spent() == zeroes(PHASES as nat),
        final(tally).spec_counted() == zeroes(COUNTS as nat),
        final(tally).spec_detail() == old(tally).spec_detail(),
        final(tally).spec_span_spent() == old(tally).spec_span_spent(),
        final(tally).spec_span_counted() == old(tally).spec_span_counted(),
{
    let r = Snapshot { spent: tally.spent, counted: tally.counted };
    tally.spent = [0u64; 12];
    tally.counted = [0u64; 3];
    proof {
        assert(tally.spent@ =~= zeroes(12));
        assert(tally.counted@ =~= zeroes(3));
    }
    r
}

/// Turns the finer [`Span`] measurement on or off.
pub fn set_detail(tally: &mut Tally, on: bool)
    ensures
        final(tally).spec_detail() == on,
        final(tally).spec_spent() == old(tally).spec_spent(),
        final(tally).spec_counted() == old(tally).spec_counted(),
        final(tally).spec_span_spent() == old(tally).spec_span_spent(),
        final(tally).spec_span_counted() == old(tally).spec_span_counted(),
{
    tally.detail = on;
}

/// Whether [`Span`]s are being measured.
pub fn detail(tally: &Tally) -> (r: bool)
    ensures
        r == tally.spec_detail(),
{
    tally.detail
}

/// Adds one occurrence of `span`, `nanos` long, when detail is on; nothing when it is off.
pub fn span(tally: &mut Tally, span: Span, nanos: u64)
    ensures
        final(tally).spec_span_spent() == (if old(tally).spec_detail() {
            old(tally).spec_span_spent().update(
                span.spec_index(),
                old(tally).spec_span_spent()[span.spec_index()].wrapping_add(nanos),
            )
        } else {
            old(tally).spec_span_spent()
        }),
        final(tally).spec_span_counted() == (if old(tally).spec_detail() {
            old(tally).spec_span_counted().update(
                span.spec_index(),
                old(tally).spec_span_counted()[span.spec_index()].wrapping_add(1),
            )
        } else {
            old(tally).spec_span_counted()
        }),
        final(tally).spec_spent() == old(tally).spec_spent(),
        final(tally).spec_counted() == old(tally).spec_counted(),
        final(tally).spec_detail() == old(tally).spec_detail(),
{
    if !tally.detail {
        return;
    }
    let i = span.index();
    let spent = tally.span_spent[i].wrapping_add(nanos);
    tally.span_spent.set(i, spent);
    let counted = tally.span_counted[i].wrapping_add(1);
    tally.span_counted.set(i, counted);
}

/// Each span's nanoseconds and occurrences since the last call, in [`Span::ALL`] order, and
/// resets them.
pub fn take_spans(tally: &mut Tally) -> (r: Vec<(u64, u64)>)
    ensures
        r@.len() == SPANS,
        forall|i: int|
            0 <= i < SPANS ==> #[trigger] r@[i] == (old(tally).spec_span_spent()[i], old(
                tally,
            ).spec_span_counted()[i]),
        final(tally).spec_span_spent() == zeroes(SPANS as nat),
        final(tally).spec_span_counted() == zeroes(SPANS as nat),
        final(tally).spec_spent() == old(tally).spec_spent(),
        final(tally).spec_counted() == old(tally).spec_counted(),
        final(tally).spec_detail() == old(tally).spec_detail(),
{
    let mut r: Vec<(u64, u64)> = Vec::new();
    let mut i: usize = 0;
    while i < SPANS
        invariant
            i <= SPANS,
            tally.span_spent@ == old(tally).spec_span_spent(),
            tally.span_counted@ == old(tally).spec_span_counted(),
            r@.len() == i,
            forall|k: int|
                0 <= k < i ==> #[trigger] r@[k] == (tally.span_spent@[k], tally.span_counted@[k]),
        decreases SPANS - i,
    {
        r.push((tally.span_spent[i], tally.span_counted[i]));
        i = i + 1;
    }
    tally.span_spent = [0u64; 29];
    tally.span_counted = [0u64; 29];
    proof {
        assert(tally.span_spent@ =~= zeroes(29));
        assert(tally.span_counted@ =~= zeroes(29));
    }
    r
}

/// What is added is what is taken, and taking resets it: from the zeroed counters a take leaves,
/// adding `nanos` to a phase and counting a thing twice leaves exactly those for the next take to
/// answer, and nothing else.
pub proof fn lemma_take_answers_what_was_added(nanos: u64, phase: Phase, what: Count)
    ensures
        after_adding(zeroes(PHASES as nat), phase.spec_index(), nanos)[phase.spec_index()] == nanos,
        forall|i: int|
            0 <= i < PHASES && i != phase.spec_index() ==> #[trigger] after_adding(
                zeroes(PHASES as nat),
                phase.spec_index(),
                nanos,
            )[i] == 0,
        after_adding(
            after_adding(zeroes(COUNTS as nat), what.spec_index(), 1),
            what.spec_index(),
            1,
        )[what.spec_index()] == 2,
        forall|i: int|
            0 <= i < COUNTS && i != what.spec_index() ==> #[trigger] after_adding(
                after_adding(zeroes(COUNTS as nat), what.spec_index(), 1),
                what.spec_index(),
                1,
            )[i] == 0,
{
    assert(0u64.wrapping_add(nanos) == nanos);
    assert(0u64.wrapping_add(1) == 1);
    assert(1u64.wrapping_add(1) == 2);
}

} // verus!
