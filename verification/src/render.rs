//! The thin driver's bookkeeping: what driving one submission through a backend did - resources
//! made resident, commands carried out, commands the backend refused as a named gap, and whether
//! the frame was presented.
use vstd::prelude::*;
use crate::backend::{BackendError, RenderBackend, RenderCommand, Resource, ResourceId};
use crate::pipeline::Submission;

verus! {

/// The result of driving one submission through a backend.
#[derive(Debug, Clone, Copy, PartialEq, Eq, Structural)]
pub struct FrameOutcome {
    /// Resources made resident for this frame.
    pub resident: usize,
    /// Commands the backend carried out.
    pub executed: usize,
    /// Commands the backend refused as unsupported - a named gap, not an error.
    pub refused: usize,
    /// Whether the frame was presented.
    pub presented: bool,
}

impl Default for FrameOutcome {
    /// Nothing driven yet.
    fn default() -> (r: Self)
        ensures
            r == (FrameOutcome { resident: 0, executed: 0, refused: 0, presented: false }),
    {
        FrameOutcome { resident: 0, executed: 0, refused: 0, presented: false }
    }
}

/// Counts one command's answer into the frame: carried out, or refused as unsupported - counted,
/// not fatal - or a real failure, which ends the frame with that error and counts nothing.
pub fn count_command(outcome: &mut FrameOutcome, answer: Result<(), BackendError>) -> (r: Result<
    (),
    BackendError,
>)
    requires
        old(outcome).executed < usize::MAX,
        old(outcome).refused < usize::MAX,
    ensures
        match answer {
            Ok(()) => r is Ok && *final(outcome) == (FrameOutcome {
                executed: (old(outcome).executed + 1) as usize,
                ..*old(outcome)
            }),
            Err(BackendError::Unsupported { .. }) => r is Ok && *final(outcome) == (FrameOutcome {
                refused: (old(outcome).refused + 1) as usize,
                ..*old(outcome)
            }),
            Err(e) => r == Err::<(), BackendError>(e) && *final(outcome) == *old(outcome),
        },
{
    match answer {
        Ok(()) => {
            outcome.executed = outcome.executed + 1;
            Ok(())
        },
        Err(BackendError::Unsupported { command }) => {
            outcome.refused = outcome.refused + 1;
            Ok(())
        },
        Err(e) => Err(e),
    }
}

/// Counts one resource made resident, or ends the frame with the error that kept it out: a
/// resource that could not be made resident is one the commands cannot reference.
pub fn count_resident(outcome: &mut FrameOutcome, answer: Result<(), BackendError>) -> (r: Result<
    (),
    BackendError,
>)
    requires
        old(outcome).resident < usize::MAX,
    ensures
        match answer {
            Ok(()) => r is Ok && *final(outcome) == (FrameOutcome {
                resident: (old(outcome).resident + 1) as usize,
                ..*old(outcome)
            }),
            Err(e) => r == Err::<(), BackendError>(e) && *final(outcome) == *old(outcome),
        },
{
    match answer {
        Ok(()) => {
            outcome.resident = outcome.resident + 1;
            Ok(())
        },
        Err(e) => Err(e),
    }
}

/// Whether a backend whose record of commands was `before` and is `after` was handed `commands` in
/// order: the record kept what it held, and gained the commands from the first on, one each - all of
/// them when `all`; otherwise the frame ended early, after the command it stopped at.
pub open spec fn handed_in_order(
    before: Seq<RenderCommand>,
    after: Seq<RenderCommand>,
    commands: Seq<RenderCommand>,
    all: bool,
) -> bool {
    let n = after.len() - before.len();
    &&& before.len() <= after.len()
    &&& after.take(before.len() as int) == before
    &&& n <= commands.len()
    &&& all ==> n == commands.len()
    &&& forall|j: int| 0 <= j < n ==> #[trigger] after[before.len() + j].same_as(commands[j])
}

/// Drives one submission through a backend: makes every module and colour target resident, hands
/// over the frame's guest-memory window, carries out every command in order, and presents. A
/// command the backend refuses as unsupported is counted and the frame goes on; a residency error,
/// or a real failure from a command, ends the frame with that error.
pub fn drive<B: RenderBackend>(backend: &mut B, submission: &Submission) -> (r: Result<FrameOutcome, BackendError>)
    ensures
        r matches Ok(outcome) ==> {
            &&& outcome.resident == vstd::math::min(
                (submission.modules@.len() + submission.targets@.len()) as int,
                usize::MAX as int,
            )
            &&& outcome.executed + outcome.refused == submission.commands@.len()
        },
        B::records_commands() ==> handed_in_order(old(backend).handed(), final(backend).handed(), submission.commands@, r is Ok),
{
    broadcast use vstd::std_specs::btree::group_btree_axioms;

    let mut outcome = FrameOutcome::default();
    let module_count = submission.modules.len();
    let mut resident: usize = 0;
    let ghost start = backend.handed();
    for entry in modules: submission.modules.iter()
        invariant
            B::records_commands() ==> backend.handed() == start,
            start == old(backend).handed(),
            resident == modules.index(),
            modules.index() <= submission.modules@.len(),
            module_count == submission.modules@.len(),
    {
        let (id, spirv) = entry;
        match backend.ensure_resident(ResourceId(*id), Resource::Shader(spirv.as_slice())) {
            Ok(()) => {},
            Err(e) => {
                proof {
                    assert(start.take(start.len() as int) =~= start);
                }
                return Err(e);
            },
        }
        resident = resident + 1;
    }
    let target_count = submission.targets.len();
    let mut targets_made: usize = 0;
    for entry in targets: submission.targets.iter()
        invariant
            B::records_commands() ==> backend.handed() == start,
            start == old(backend).handed(),
            targets_made == targets.index(),
            targets.index() <= submission.targets@.len(),
            target_count == submission.targets@.len(),
    {
        let (id, extent) = entry;
        match backend.ensure_resident(
            ResourceId(*id),
            Resource::RenderTarget { width: extent.width, height: extent.height },
        ) {
            Ok(()) => {},
            Err(e) => {
                proof {
                    assert(start.take(start.len() as int) =~= start);
                }
                return Err(e);
            },
        }
        targets_made = targets_made + 1;
    }
    outcome.resident = resident.saturating_add(targets_made);
    backend.set_guest_memory(submission.guest_memory.as_slice());
    proof {
        if B::records_commands() {
            assert(backend.handed().take(start.len() as int) =~= start);
        }
    }
    let mut i: usize = 0;
    while i < submission.commands.len()
        invariant
            i <= submission.commands@.len(),
            outcome.executed + outcome.refused == i,
            outcome.resident == vstd::math::min((submission.modules@.len() + submission.targets@.len()) as int, usize::MAX as int),
            B::records_commands() ==> backend.handed().len() == start.len() + i,
            B::records_commands() ==> handed_in_order(start, backend.handed(), submission.commands@, false),
            start == old(backend).handed(),
        decreases submission.commands@.len() - i,
    {
        let ghost earlier = backend.handed();
        let answer = backend.execute(&submission.commands[i]);
        proof {
            if B::records_commands() {
                let now = backend.handed();
                assert(now.drop_last() == earlier);
                assert(now.take(start.len() as int) =~= start) by {
                    assert forall|j: int| 0 <= j < start.len() implies now[j] == start[j] by {
                        assert(now[j] == now.drop_last()[j]);
                        assert(earlier.take(start.len() as int)[j] == start[j]);
                    }
                }
                assert forall|j: int| 0 <= j < i + 1 implies #[trigger] now[start.len() + j].same_as(
                    submission.commands@[j],
                ) by {
                    if j < i {
                        assert(now[start.len() + j] == earlier[start.len() + j]);
                    }
                }
            }
        }
        match count_command(&mut outcome, answer) {
            Ok(()) => {},
            Err(e) => {
                return Err(e);
            },
        }
        i = i + 1;
    }
    let ghost handed = backend.handed();
    outcome.presented = backend.present().is_ok();
    proof {
        if B::records_commands() {
            assert(backend.handed() == handed);
        }
    }
    Ok(outcome)
}

} // verus!
