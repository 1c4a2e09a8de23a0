//! The command processor's view of guest memory around a frame kept on the device: copies out of
//! a colour target whose frame has not been written back yet are deferred until something first
//! touches their destination, a target trusted unchanged is write-protected so a write to it is
//! seen, and a drawn frame is written back at the flip - or at the first read of it.
//!
//! Everything the embedder supplies comes through three traits: guest memory itself
//! ([`GuestAccess`]), the host's snapshots and page protection ([`LazyCopyHooks`]) and the device
//! that carries out draws ([`FrameDrawer`]). Nothing is promised of what they answer; every
//! function here states what holds whatever they answer, and the hooks and drawer may be absent,
//! as they are until an embedder installs them.
use vstd::prelude::*;
use crate::agc_driver::{
    bytes_of, overlaps_target, page_span, ranges_overlap, representable, spec_overlaps_target, spec_page_span,
    spec_ranges_overlap, target_bytes, target_contents, tile_over, Before, ShownFrame, TargetMemo, TargetRead,
};
use crate::cp::{
    answer_bytes, bytes_equal, lemma_one_made, pattern_bytes, words_of, CpMemory, MemoryRequest,
};
use crate::tiling::spec_surface_words;
use crate::registers::{ColourTarget, ComponentSwap};

verus! {

/// How many recently carried-out page ranges are remembered.
pub const RESOLVED_KEPT: usize = 32;

/// The host's part in a lazy copy: a snapshot of the frame on the device, and page protection on
/// the copy's destination, so its bytes are produced the first time anything touches them.
/// Implemented by the embedder; nothing is assumed of what any method answers.
pub trait LazyCopyHooks {
    /// Keeps the frame the drawer last drew, as it stands now; an id to take it by.
    fn snapshot(&mut self) -> Option<u64>;

    /// The kept frame's pixels as linear `Rgba8` words, releasing it.
    fn take(&mut self, snapshot: u64) -> Option<Vec<u32>>;

    /// Releases a kept frame unread.
    fn discard(&mut self, snapshot: u64);

    /// Releases kept frame `old` unread and keeps the frame as it stands now, as one step; the new
    /// id, or `None` with `old` released.
    fn replace(&mut self, old: u64) -> Option<u64>;

    /// Makes `[base, base + length)` (whole host pages) inaccessible; the protection to restore.
    fn guard(&mut self, base: u64, length: u64) -> Option<u32>;

    /// Makes `[base, base + length)` (whole host pages) read-only; the protection to restore.
    fn protect_writes(&mut self, base: u64, length: u64) -> Option<u32>;

    /// Restores a guarded range's protection.
    fn release(&mut self, base: u64, length: u64, protection: u32) -> bool;
}

/// Guest memory as the embedder maps it. Guest memory may state what it holds, through
/// [`GuestAccess::bytes_at`], and then says so through [`GuestAccess::states_contents`]: each read
/// answers what it holds, which is how the driver's contracts say what a read found.
pub trait GuestAccess {
    /// Whether this memory states what it holds through `bytes_at`. One that does not is promised
    /// nothing through it.
    closed spec fn states_contents() -> bool {
        false
    }

    /// The `length` bytes this memory holds at `address`, or `None` when the range is not
    /// readable guest memory.
    closed spec fn bytes_at(&self, address: u64, length: usize) -> Option<Seq<u8>> {
        None
    }

    /// `length` bytes at `address`, or `None` when the range is not readable guest memory.
    fn read(&self, address: u64, length: usize) -> (r: Option<Vec<u8>>)
        ensures
            Self::states_contents() ==> answer_bytes(r) == self.bytes_at(address, length),
    ;

    /// Whether `[address, address + length)` is writable guest memory.
    fn writable(&self, address: u64, length: u64) -> bool;

    /// Stores `bytes` at `address`, a range [`GuestAccess::writable`] vouched for.
    fn store(&mut self, address: u64, bytes: &[u8]);

    /// The GPU clock counter a fence stamps.
    fn timestamp(&mut self) -> u64;
}

/// The device a submission's draws are carried out on.
pub trait FrameDrawer {
    /// Carries out the draws over a target whose contents before them are `before`; whether every
    /// draw was carried out exactly. The frame they leave stays on the device.
    fn draw(&mut self, before: Before<'_>) -> bool;

    /// The frame the last draws left, as linear `Rgba8` words.
    fn read_frame(&mut self) -> Option<Vec<u32>>;
}

/// A copy of a colour target into guest memory that has not been carried out yet.
#[derive(Debug)]
pub struct Deferred {
    /// Where the copy writes.
    pub destination: u64,
    /// How many bytes it writes.
    pub length: u64,
    /// The first guarded host page covering it.
    pub page_base: u64,
    /// How many bytes of whole host pages are guarded.
    pub page_length: u64,
    /// The protection the guarded pages had.
    pub protection: u32,
    /// The frame as the copy saw it, kept on the device.
    pub snapshot: u64,
    /// The target the frame was drawn into.
    pub target: ColourTarget,
    /// The target's component order in memory.
    pub swap: ComponentSwap,
    /// The target's memory as the copy saw it: every word the frame does not cover comes from
    /// here.
    pub memory_then: Vec<u8>,
}

/// A target whose pages are read-only while it is trusted unchanged: its base, its whole host
/// pages, and the protection they get back.
#[derive(Debug, Clone, Copy)]
pub struct WriteProtected {
    /// The target's base.
    pub target_base: u64,
    /// The first host page protected.
    pub page_base: u64,
    /// How many bytes of whole host pages are protected.
    pub page_length: u64,
    /// The protection to restore.
    pub protection: u32,
}

/// `a + b`, saturating at the top of the address space.
pub open spec fn saturating_sum(a: u64, b: u64) -> int {
    if a + b > u64::MAX {
        u64::MAX as int
    } else {
        a + b
    }
}

/// Whether a deferred copy's guarded pages touch `range`.
pub open spec fn touches(copy: Deferred, range: (u64, u64)) -> bool {
    spec_ranges_overlap((copy.page_base, copy.page_length), range)
}

/// The copies whose guarded pages touch `range`, in order.
pub open spec fn touching(copies: Seq<Deferred>, range: (u64, u64)) -> Seq<Deferred> {
    copies.filter(|c: Deferred| touches(c, range))
}

/// The copies whose guarded pages stay clear of `range`, in order.
pub open spec fn clear_of(copies: Seq<Deferred>, range: (u64, u64)) -> Seq<Deferred> {
    copies.filter(|c: Deferred| !touches(c, range))
}

/// Whether `[address, address + length)` overwrites a deferred copy's whole destination.
pub open spec fn covers(copy: Deferred, address: u64, length: u64) -> bool {
    copy.destination >= address && saturating_sum(copy.destination, copy.length) <= saturating_sum(
        address,
        length,
    )
}

/// The copies `[address, address + length)` overwrites completely, in order.
pub open spec fn covered(copies: Seq<Deferred>, address: u64, length: u64) -> Seq<Deferred> {
    copies.filter(|c: Deferred| covers(c, address, length))
}

/// The copies `[address, address + length)` leaves some byte of, in order.
pub open spec fn uncovered(copies: Seq<Deferred>, address: u64, length: u64) -> Seq<Deferred> {
    copies.filter(|c: Deferred| !covers(c, address, length))
}

/// Whether a deferred copy writes exactly `[destination, destination + length)`.
pub open spec fn same_copy(copy: Deferred, destination: u64, length: u64) -> bool {
    copy.destination == destination && copy.length == length
}

/// The copies left once the first one writing exactly `[destination, destination + length)`, if
/// any, is taken out.
pub open spec fn without_superseded(copies: Seq<Deferred>, destination: u64, length: u64) -> Seq<
    Deferred,
> {
    if exists|i: int| 0 <= i < copies.len() && same_copy(#[trigger] copies[i], destination, length) {
        let i = choose|i: int|
            0 <= i < copies.len() && same_copy(#[trigger] copies[i], destination, length) && forall|
                j: int,
            | 0 <= j < i ==> !same_copy(#[trigger] copies[j], destination, length);
        copies.remove(i)
    } else {
        copies
    }
}

/// The resolved ranges after `range` is remembered: the oldest is let go once
/// [`RESOLVED_KEPT`] are held.
pub open spec fn resolved_after(resolved: Seq<(u64, u64)>, range: (u64, u64)) -> Seq<(u64, u64)> {
    if resolved.len() >= RESOLVED_KEPT {
        resolved.drop_first().push(range)
    } else {
        resolved.push(range)
    }
}

/// Everything the command processor keeps about guest memory between calls - the deferred copies,
/// the ranges recently carried out, the write-protected target, the frame still on the device and
/// what its target held - with the embedder's memory, hooks and drawer.
pub struct Driver<H, G, D> {
    /// The copies deferred, oldest first.
    pub deferred: Vec<Deferred>,
    /// The page ranges recently carried out, oldest first: a thread that faulted on one while
    /// another carried it out retries rather than reporting a fault.
    pub resolved: Vec<(u64, u64)>,
    /// The target write-protected while it is trusted unchanged.
    pub protected: Option<WriteProtected>,
    /// The target whose drawn frame is on the device and not yet in guest memory.
    pub pending: Option<(ColourTarget, ComponentSwap)>,
    /// What a colour target held when it was last written or read.
    pub memo: TargetMemo,
    /// The host's lazy-copy hooks, once installed.
    pub hooks: Option<H>,
    /// Guest memory.
    pub guest: G,
    /// The drawer and frame reader, once installed.
    pub drawer: Option<D>,
    /// The colour target the submission being executed draws into, when its draws can be carried
    /// out and written back exactly; `None` outside a submission, at a flip.
    pub drawing: Option<(ColourTarget, ComponentSwap)>,
    /// Whether a drawn frame is written back at the flip (the default) or after every submission.
    pub write_back_at_flip: bool,
    /// The requests made of it as the command processor's memory, oldest first.
    pub requests: Ghost<Seq<MemoryRequest>>,
}

impl<H, G, D> Driver<H, G, D> {
    /// The deferred copies, oldest first.
    pub open spec fn spec_deferred(&self) -> Seq<Deferred> {
        self.deferred@
    }

    /// The page ranges recently carried out, oldest first.
    pub open spec fn spec_resolved(&self) -> Seq<(u64, u64)> {
        self.resolved@
    }

    /// The target write-protected while trusted unchanged.
    pub open spec fn spec_protected(&self) -> Option<WriteProtected> {
        self.protected
    }

    /// The target whose drawn frame is on the device and not yet in guest memory.
    pub open spec fn spec_pending(&self) -> Option<(ColourTarget, ComponentSwap)> {
        self.pending
    }

    /// What a colour target held when it was last written or read.
    pub open spec fn spec_memo(&self) -> Option<(u64, Seq<u8>)> {
        self.memo.spec_last()
    }

    /// A driver with nothing deferred, protected, pending or remembered.
    pub fn new(hooks: Option<H>, guest: G, drawer: Option<D>) -> (r: Self)
        ensures
            r.spec_deferred() == Seq::<Deferred>::empty(),
            r.spec_resolved() == Seq::<(u64, u64)>::empty(),
            r.spec_protected() is None,
            r.spec_pending() is None,
            r.spec_memo() is None,
            r.hooks == hooks,
            r.guest == guest,
            r.drawer == drawer,
            r.drawing is None,
            r.write_back_at_flip,
    {
        Driver {
            deferred: Vec::new(),
            resolved: Vec::new(),
            protected: None,
            pending: None,
            memo: TargetMemo::new(),
            hooks,
            guest,
            drawer,
            drawing: None,
            write_back_at_flip: true,
            requests: Ghost(Seq::empty()),
        }
    }

    /// The target whose drawn frame is on the device and not yet in guest memory.
    pub fn pending_target(&self) -> (r: Option<(ColourTarget, ComponentSwap)>)
        ensures
            r == self.spec_pending(),
    {
        self.pending
    }

    /// Records the target whose drawn frame is on the device.
    pub fn set_pending(&mut self, target: Option<(ColourTarget, ComponentSwap)>)
        ensures
            final(self).spec_pending() == target,
            final(self).spec_deferred() == old(self).spec_deferred(),
            final(self).spec_resolved() == old(self).spec_resolved(),
            final(self).spec_protected() == old(self).spec_protected(),
            final(self).spec_memo() == old(self).spec_memo(),
    {
        self.pending = target;
    }

    /// Records that memory at `base` held `bytes` when it was last written or read.
    pub fn remember_written(&mut self, base: u64, bytes: Vec<u8>)
        ensures
            final(self).spec_memo() == Some((base, bytes@)),
            final(self).spec_pending() == old(self).spec_pending(),
            final(self).spec_deferred() == old(self).spec_deferred(),
            final(self).spec_resolved() == old(self).spec_resolved(),
            final(self).spec_protected() == old(self).spec_protected(),
    {
        self.memo.remember(base, bytes);
    }

    /// The base of the colour target whose bytes are remembered, if any.
    pub fn remembered_base(&self) -> (r: Option<u64>)
        ensures
            r == (match self.spec_memo() {
                Some((b, _)) => Some(b),
                None => None,
            }),
    {
        self.memo.base()
    }

    /// How many copies are deferred.
    pub fn deferred_count(&self) -> (r: usize)
        ensures
            r == self.spec_deferred().len(),
    {
        self.deferred.len()
    }
}

/// Remembers `range` as recently carried out, letting the oldest go once [`RESOLVED_KEPT`] are
/// held.
fn remember_resolved(resolved: &mut Vec<(u64, u64)>, range: (u64, u64))
    ensures
        final(resolved)@ == resolved_after(old(resolved)@, range),
{
    if resolved.len() >= RESOLVED_KEPT {
        resolved.remove(0);
    }
    resolved.push(range);
}

/// Whether some remembered range touches `range`.
fn any_resolved(resolved: &Vec<(u64, u64)>, range: (u64, u64)) -> (r: bool)
    ensures
        r == exists|i: int| 0 <= i < resolved@.len() && spec_ranges_overlap(#[trigger] resolved@[i], range),
{
    let mut i: usize = 0;
    while i < resolved.len()
        invariant
            i <= resolved@.len(),
            forall|j: int| 0 <= j < i ==> !spec_ranges_overlap(#[trigger] resolved@[j], range),
        decreases resolved@.len() - i,
    {
        if ranges_overlap(resolved[i], range) {
            return true;
        }
        i = i + 1;
    }
    false
}

/// Takes every copy whose guarded pages touch `range` out of `copies`, in order, leaving the rest
/// in order.
fn take_touching(copies: &mut Vec<Deferred>, range: (u64, u64)) -> (taken: Vec<Deferred>)
    ensures
        taken@ == touching(old(copies)@, range),
        final(copies)@ == clear_of(old(copies)@, range),
{
    let ghost all = copies@;
    let mut rest: Vec<Deferred> = Vec::new();
    std::mem::swap(&mut rest, copies);
    let mut taken: Vec<Deferred> = Vec::new();
    let mut kept: Vec<Deferred> = Vec::new();
    let ghost mut k: int = 0;
    while rest.len() > 0
        invariant
            0 <= k <= all.len(),
            rest@ == all.skip(k),
            taken@ == touching(all.take(k), range),
            kept@ == clear_of(all.take(k), range),
        decreases rest@.len(),
    {
        let copy = rest.remove(0);
        proof {
            assert(copy == all[k]);
            assert(all.take(k + 1) =~= all.take(k).push(all[k]));
            all.take(k).lemma_filter_push(all[k], |c: Deferred| touches(c, range));
            all.take(k).lemma_filter_push(all[k], |c: Deferred| !touches(c, range));
        }
        if ranges_overlap((copy.page_base, copy.page_length), range) {
            taken.push(copy);
        } else {
            kept.push(copy);
        }
        proof {
            k = k + 1;
            assert(rest@ =~= all.skip(k));
        }
    }
    proof {
        assert(all.take(k) =~= all);
    }
    *copies = kept;
    taken
}

/// Takes every copy `[address, address + length)` overwrites completely out of `copies`, in order,
/// leaving the rest in order.
fn take_covered(copies: &mut Vec<Deferred>, address: u64, length: u64) -> (taken: Vec<Deferred>)
    ensures
        taken@ == covered(old(copies)@, address, length),
        final(copies)@ == uncovered(old(copies)@, address, length),
{
    let ghost all = copies@;
    let end = address.saturating_add(length);
    let mut rest: Vec<Deferred> = Vec::new();
    std::mem::swap(&mut rest, copies);
    let mut taken: Vec<Deferred> = Vec::new();
    let mut kept: Vec<Deferred> = Vec::new();
    let ghost mut k: int = 0;
    while rest.len() > 0
        invariant
            0 <= k <= all.len(),
            end == saturating_sum(address, length),
            rest@ == all.skip(k),
            taken@ == covered(all.take(k), address, length),
            kept@ == uncovered(all.take(k), address, length),
        decreases rest@.len(),
    {
        let copy = rest.remove(0);
        proof {
            assert(copy == all[k]);
            assert(all.take(k + 1) =~= all.take(k).push(all[k]));
            all.take(k).lemma_filter_push(all[k], |c: Deferred| covers(c, address, length));
            all.take(k).lemma_filter_push(all[k], |c: Deferred| !covers(c, address, length));
        }
        if copy.destination >= address && copy.destination.saturating_add(copy.length) <= end {
            taken.push(copy);
        } else {
            kept.push(copy);
        }
        proof {
            k = k + 1;
            assert(rest@ =~= all.skip(k));
        }
    }
    proof {
        assert(all.take(k) =~= all);
    }
    *copies = kept;
    taken
}

/// The first copy writing exactly `[destination, destination + length)` is the one taken out.
proof fn lemma_first_superseded(copies: Seq<Deferred>, destination: u64, length: u64, i: int)
    requires
        0 <= i < copies.len(),
        same_copy(copies[i], destination, length),
        forall|j: int| 0 <= j < i ==> !same_copy(#[trigger] copies[j], destination, length),
    ensures
        without_superseded(copies, destination, length) == copies.remove(i),
        exists|k: int| 0 <= k < copies.len() && same_copy(#[trigger] copies[k], destination, length),
{
    assert(same_copy(copies[i], destination, length));
    let w = choose|w: int|
        0 <= w < copies.len() && same_copy(#[trigger] copies[w], destination, length) && forall|
            j: int,
        | 0 <= j < w ==> !same_copy(#[trigger] copies[j], destination, length);
    assert(0 <= w < copies.len() && same_copy(copies[w], destination, length) && forall|j: int|
        0 <= j < w ==> !same_copy(#[trigger] copies[j], destination, length));
    if w < i {
        assert(!same_copy(copies[w], destination, length));
    } else if w > i {
        assert(!same_copy(copies[i], destination, length));
    }
}

/// Takes the first copy writing exactly `[destination, destination + length)` out of `copies`.
fn take_superseded(copies: &mut Vec<Deferred>, destination: u64, length: u64) -> (r: Option<Deferred>)
    ensures
        final(copies)@ == without_superseded(old(copies)@, destination, length),
        r is Some <==> exists|i: int|
            0 <= i < old(copies)@.len() && same_copy(#[trigger] old(copies)@[i], destination, length),
        r matches Some(c) ==> same_copy(c, destination, length) && old(copies)@.contains(c),
{
    let ghost all = copies@;
    let mut i: usize = 0;
    while i < copies.len()
        invariant
            copies@ == all,
            all == old(copies)@,
            i <= all.len(),
            forall|j: int| 0 <= j < i ==> !same_copy(#[trigger] all[j], destination, length),
        decreases all.len() - i,
    {
        if copies[i].destination == destination && copies[i].length == length {
            proof {
                lemma_first_superseded(all, destination, length, i as int);
            }
            let c = copies.remove(i);
            return Some(c);
        }
        i = i + 1;
    }
    None
}

/// Whether a write-protected target's pages touch `range`.
pub open spec fn protection_touched(protected: Option<WriteProtected>, range: (u64, u64)) -> bool {
    protected matches Some(p) && spec_ranges_overlap((p.page_base, p.page_length), range)
}

/// The whole host pages a colour target's tiled surface occupies.
pub open spec fn target_pages(target: ColourTarget) -> (u64, u64) {
    spec_page_span(target.base, (4 * spec_surface_words(target.width, target.height)) as u64)
}

/// Gives a protected target's pages back their protection, and remembers them as resolved, so a
/// thread whose write faulted on them meanwhile retries rather than reporting a fault.
fn release_protection<H: LazyCopyHooks>(resolved: &mut Vec<(u64, u64)>, hooks: &mut H, p: WriteProtected)
    ensures
        final(resolved)@ == resolved_after(old(resolved)@, (p.page_base, p.page_length)),
{
    hooks.release(p.page_base, p.page_length, p.protection);
    remember_resolved(resolved, (p.page_base, p.page_length));
}

/// Whether some copy's guarded pages touch `range`.
fn any_touching(copies: &Vec<Deferred>, range: (u64, u64)) -> (r: bool)
    ensures
        r == exists|i: int| 0 <= i < copies@.len() && touches(#[trigger] copies@[i], range),
{
    let mut i: usize = 0;
    while i < copies.len()
        invariant
            i <= copies@.len(),
            forall|j: int| 0 <= j < i ==> !touches(#[trigger] copies@[j], range),
        decreases copies@.len() - i,
    {
        if ranges_overlap((copies[i].page_base, copies[i].page_length), range) {
            return true;
        }
        i = i + 1;
    }
    false
}

impl<H, G, D> Driver<H, G, D> {
    /// Whether `self` has the same hooks and drawer installed as `earlier`, and draws into the
    /// same target with the same write-back choice.
    pub open spec fn keeps_setup(&self, earlier: &Self) -> bool {
        &&& (self.hooks is Some) == (earlier.hooks is Some)
        &&& (self.drawer is Some) == (earlier.drawer is Some)
        &&& self.drawing == earlier.drawing
        &&& self.write_back_at_flip == earlier.write_back_at_flip
    }
}

impl<H: LazyCopyHooks, G: GuestAccess, D: FrameDrawer> Driver<H, G, D> {
    /// Gives a protected target's pages back their protection when `[address, address + length)`
    /// touches them - before this process writes there, or guards them another way. The target is
    /// then no longer vouched for, so the next check compares.
    pub fn unprotect_overlapping(&mut self, address: u64, length: u64)
        ensures
            final(self).keeps_setup(old(self)),
            final(self).deferred@ == old(self).deferred@,
            final(self).pending == old(self).pending,
            final(self).memo.spec_last() == old(self).memo.spec_last(),
            old(self).hooks is Some && protection_touched(old(self).protected, (address, length)) ==> {
                &&& final(self).protected is None
                &&& final(self).resolved@ == resolved_after(
                    old(self).resolved@,
                    (old(self).protected->0.page_base, old(self).protected->0.page_length),
                )
            },
            !(old(self).hooks is Some && protection_touched(old(self).protected, (address, length)))
                ==> final(self).protected == old(self).protected && final(self).resolved@ == old(self).resolved@,
    {
        match &mut self.hooks {
            Some(h) => {
                match self.protected {
                    Some(p) => {
                        if ranges_overlap((p.page_base, p.page_length), (address, length)) {
                            release_protection(&mut self.resolved, h, p);
                            self.protected = None;
                        }
                    },
                    None => {},
                }
            },
            None => {},
        }
    }

    /// Whether `target` has been read-only, unwritten, since it was last written or read.
    pub fn protected_unwritten(&self, target: ColourTarget) -> (r: bool)
        ensures
            r == (self.protected matches Some(p) && p.target_base == target.base),
    {
        match self.protected {
            Some(p) => p.target_base == target.base,
            None => false,
        }
    }

    /// Makes `target` read-only while it is trusted unchanged, so a write to it by anything is
    /// seen. Nothing changes without hooks, while a deferred copy guards any of the target's
    /// pages, or while the target is protected already; a target protected before is let go
    /// first, and where the host refuses, nothing stays protected.
    pub fn protect_target(&mut self, target: ColourTarget)
        ensures
            final(self).keeps_setup(old(self)),
            final(self).deferred@ == old(self).deferred@,
            final(self).pending == old(self).pending,
            final(self).memo.spec_last() == old(self).memo.spec_last(),
            old(self).hooks is None ==> final(self).protected == old(self).protected,
            old(self).protected matches Some(p) && p.target_base == target.base ==> final(self).protected
                == old(self).protected,
            (exists|i: int|
                0 <= i < old(self).deferred@.len() && touches(
                    #[trigger] old(self).deferred@[i],
                    target_pages(target),
                )) ==> final(self).protected == old(self).protected,
            final(self).protected == old(self).protected || final(self).protected is None || (final(self).protected matches Some(p) && p.target_base == target.base && (p.page_base, p.page_length)
                == target_pages(target)),
            old(self).hooks is Some && representable(target.width, target.height) && !(exists|i: int|
                0 <= i < old(self).deferred@.len() && touches(
                    #[trigger] old(self).deferred@[i],
                    target_pages(target),
                )) && old(self).protected is Some && old(self).protected->0.target_base != target.base
                ==> final(self).protected is None || (final(self).protected is Some
                && final(self).protected->0.target_base == target.base),
    {
        let h = match &mut self.hooks {
            Some(h) => h,
            None => {
                return;
            },
        };
        let span = match target_bytes(target.width, target.height) {
            Some(span) => span as u64,
            None => {
                return;
            },
        };
        let pages = page_span(target.base, span);
        if any_touching(&self.deferred, pages) {
            return;
        }
        match self.protected {
            Some(p) => {
                if p.target_base == target.base {
                    return;
                }
                release_protection(&mut self.resolved, h, p);
                self.protected = None;
            },
            None => {},
        }
        match h.protect_writes(pages.0, pages.1) {
            Some(protection) => {
                self.protected = Some(
                    WriteProtected { target_base: target.base, page_base: pages.0, page_length: pages.1, protection },
                );
            },
            None => {},
        }
    }

    /// A write to guest memory faulted: when `address` is in the protected target, its pages get
    /// their protection back and the write can be retried. Asked by the host's fault handler for a
    /// faulting write, before [`carry_out_at`].
    pub fn written_at(&mut self, address: u64) -> (r: bool)
        ensures
            final(self).keeps_setup(old(self)),
            final(self).deferred@ == old(self).deferred@,
            final(self).pending == old(self).pending,
            final(self).memo.spec_last() == old(self).memo.spec_last(),
            r == (old(self).hooks is Some && protection_touched(old(self).protected, (address, 1))),
            r ==> final(self).protected is None && final(self).resolved@ == resolved_after(
                old(self).resolved@,
                (old(self).protected->0.page_base, old(self).protected->0.page_length),
            ),
            !r ==> final(self).protected == old(self).protected && final(self).resolved@ == old(self).resolved@,
            final(self).hooks is Some ==> !protection_touched(final(self).protected, (address, 1)),
    {
        match &mut self.hooks {
            Some(h) => {
                match self.protected {
                    Some(p) => {
                        if ranges_overlap((p.page_base, p.page_length), (address, 1)) {
                            release_protection(&mut self.resolved, h, p);
                            self.protected = None;
                            true
                        } else {
                            false
                        }
                    },
                    None => false,
                }
            },
            None => false,
        }
    }
}


impl<H: LazyCopyHooks, G: GuestAccess, D: FrameDrawer> Driver<H, G, D> {
    /// Writes `bytes` into guest memory at `address` - `false`, writing nothing, when the range is
    /// not writable guest memory. A protected target's pages there get their protection back first.
    pub fn write_guest(&mut self, address: u64, bytes: &[u8]) -> (r: bool)
        ensures
            final(self).keeps_setup(old(self)),
            final(self).deferred@ == old(self).deferred@,
            final(self).pending == old(self).pending,
            final(self).memo.spec_last() == old(self).memo.spec_last(),
            !r ==> final(self).protected == old(self).protected && final(self).resolved@ == old(self).resolved@,
            r ==> !protection_touched(final(self).protected, (address, bytes@.len() as u64)) || old(self).hooks is None,
    {
        let length = bytes.len() as u64;
        if !self.guest.writable(address, length) {
            return false;
        }
        self.unprotect_overlapping(address, length);
        self.guest.store(address, bytes);
        true
    }

    /// Carries out one deferred copy: its pages get their protection back, then the target's
    /// memory as the copy saw it, with the frame as the copy saw it tiled over in the target's
    /// byte order ([`tile_over`]), is written to the destination. `false` when the pages cannot be
    /// released (the snapshot is let go), the frame cannot be read, or the bytes cannot be formed
    /// or written.
    fn carry_out_now(&mut self, copy: Deferred) -> (r: bool)
        ensures
            final(self).keeps_setup(old(self)),
            final(self).deferred@ == old(self).deferred@,
            final(self).pending == old(self).pending,
            final(self).memo.spec_last() == old(self).memo.spec_last(),
            r ==> old(self).hooks is Some,
    {
        let frame = match &mut self.hooks {
            Some(h) => {
                if !h.release(copy.page_base, copy.page_length, copy.protection) {
                    h.discard(copy.snapshot);
                    return false;
                }
                remember_resolved(&mut self.resolved, (copy.page_base, copy.page_length));
                match h.take(copy.snapshot) {
                    Some(frame) => frame,
                    None => {
                        return false;
                    },
                }
            },
            None => {
                return false;
            },
        };
        if target_bytes(copy.target.width, copy.target.height).is_none() {
            return false;
        }
        let current = words_of(copy.memory_then.as_slice());
        let tiled = match tile_over(
            frame.as_slice(),
            current.as_slice(),
            copy.target.width,
            copy.target.height,
            copy.swap,
        ) {
            Some(tiled) => tiled,
            None => {
                return false;
            },
        };
        let bytes = bytes_of(tiled.as_slice());
        if copy.length > bytes.len() as u64 {
            return false;
        }
        let part = vstd::slice::slice_subrange(bytes.as_slice(), 0, copy.length as usize);
        self.write_guest(copy.destination, part)
    }

    /// Carries out every copy in `copies` - all of them, even after one fails, since a copy left
    /// neither carried out nor deferred would be lost. `false` when one could not be.
    fn carry_out_all(&mut self, copies: Vec<Deferred>) -> (r: bool)
        ensures
            final(self).keeps_setup(old(self)),
            final(self).deferred@ == old(self).deferred@,
            final(self).pending == old(self).pending,
            final(self).memo.spec_last() == old(self).memo.spec_last(),
            copies@.len() == 0 ==> r && final(self).protected == old(self).protected
                && final(self).resolved@ == old(self).resolved@,
    {
        if copies.len() == 0 {
            return true;
        }
        let mut rest = copies;
        let mut ok = true;
        while rest.len() > 0
            invariant
                self.keeps_setup(old(self)),
                self.deferred@ == old(self).deferred@,
                self.pending == old(self).pending,
                self.memo.spec_last() == old(self).memo.spec_last(),
            decreases rest@.len(),
        {
            let copy = rest.remove(0);
            let carried = self.carry_out_now(copy);
            ok = ok && carried;
        }
        ok
    }

    /// Carries out every deferred copy whose guarded pages touch `[address, address + length)` -
    /// before anything else reads or writes there. Without hooks nothing is deferred and this is
    /// `true`; otherwise `false` when one could not be carried out.
    pub fn carry_out_overlapping(&mut self, address: u64, length: u64) -> (r: bool)
        ensures
            final(self).keeps_setup(old(self)),
            final(self).pending == old(self).pending,
            final(self).memo.spec_last() == old(self).memo.spec_last(),
            old(self).hooks is None ==> r && final(self).deferred@ == old(self).deferred@
                && final(self).protected == old(self).protected && final(self).resolved@ == old(self).resolved@,
            old(self).hooks is Some ==> final(self).deferred@ == clear_of(old(self).deferred@, (address, length)),
            touching(old(self).deferred@, (address, length)).len() == 0 ==> r && final(self).protected
                == old(self).protected && final(self).resolved@ == old(self).resolved@,
            guards_apart(old(self).deferred@) ==> guards_apart(final(self).deferred@),
    {
        proof {
            if guards_apart(old(self).deferred@) {
                lemma_carrying_out_keeps_guards_apart(old(self).deferred@, (address, length), address, length);
            }
        }
        if self.hooks.is_none() {
            return true;
        }
        let touched = take_touching(&mut self.deferred, (address, length));
        self.carry_out_all(touched)
    }

    /// Before host code reads `[address, address + length)` of guest memory directly: carries out
    /// every deferred copy into it, so the read sees what the hardware's memory holds. `false` when
    /// one could not be.
    pub fn carry_out_before_reading(&mut self, address: u64, length: u64) -> (r: bool)
        ensures
            final(self).keeps_setup(old(self)),
            final(self).pending == old(self).pending,
            final(self).memo.spec_last() == old(self).memo.spec_last(),
            old(self).hooks is None ==> r && final(self).deferred@ == old(self).deferred@,
            old(self).hooks is Some ==> final(self).deferred@ == clear_of(old(self).deferred@, (address, length)),
    {
        self.carry_out_overlapping(address, length)
    }

    /// An access to guest memory faulted: when `address` is in a deferred copy's guarded pages, the
    /// copies there are carried out now and the access can be retried. When none is, the answer is
    /// whether another thread carried one out there a moment ago. Without hooks nothing was
    /// deferred, and the fault is not this driver's.
    pub fn carry_out_at(&mut self, address: u64) -> (r: bool)
        ensures
            final(self).keeps_setup(old(self)),
            final(self).pending == old(self).pending,
            final(self).memo.spec_last() == old(self).memo.spec_last(),
            old(self).hooks is None ==> !r && final(self).deferred@ == old(self).deferred@,
            old(self).hooks is Some ==> final(self).deferred@ == clear_of(old(self).deferred@, (address, 1)),
            old(self).hooks is Some && touching(old(self).deferred@, (address, 1)).len() == 0 ==> {
                &&& r == exists|i: int|
                    0 <= i < old(self).resolved@.len() && spec_ranges_overlap(
                        #[trigger] old(self).resolved@[i],
                        (address, 1),
                    )
                &&& final(self).resolved@ == old(self).resolved@
            },
    {
        if self.hooks.is_none() {
            return false;
        }
        let touched = take_touching(&mut self.deferred, (address, 1));
        if touched.len() > 0 {
            return self.carry_out_all(touched);
        }
        any_resolved(&self.resolved, (address, 1))
    }

    /// Drops, unread, every deferred copy whose destination `[address, address + length)`
    /// overwrites completely: nothing has observed its bytes, and nothing will. Its pages get their
    /// protection back and its snapshot is let go - or, where the pages would not come back, it is
    /// carried out instead, never left guarded with nothing to answer the fault.
    pub fn drop_covered(&mut self, address: u64, length: u64)
        ensures
            final(self).keeps_setup(old(self)),
            final(self).pending == old(self).pending,
            final(self).memo.spec_last() == old(self).memo.spec_last(),
            old(self).hooks is None ==> final(self).deferred@ == old(self).deferred@,
            old(self).hooks is Some ==> final(self).deferred@ == uncovered(old(self).deferred@, address, length),
            guards_apart(old(self).deferred@) ==> guards_apart(final(self).deferred@),
    {
        proof {
            if guards_apart(old(self).deferred@) {
                lemma_carrying_out_keeps_guards_apart(old(self).deferred@, (address, length), address, length);
            }
        }
        if self.hooks.is_none() {
            return;
        }
        let mut rest = take_covered(&mut self.deferred, address, length);
        let ghost kept = self.deferred@;
        while rest.len() > 0
            invariant
                self.keeps_setup(old(self)),
                self.deferred@ == kept,
                self.pending == old(self).pending,
                self.memo.spec_last() == old(self).memo.spec_last(),
            decreases rest@.len(),
        {
            let copy = rest.remove(0);
            let released = match &mut self.hooks {
                Some(h) => h.release(copy.page_base, copy.page_length, copy.protection),
                None => false,
            };
            if !released {
                self.carry_out_now(copy);
            } else {
                remember_resolved(&mut self.resolved, (copy.page_base, copy.page_length));
                match &mut self.hooks {
                    Some(h) => h.discard(copy.snapshot),
                    None => {},
                }
            }
        }
    }
}


/// The base of the target a memo remembers, if any.
pub open spec fn memo_base(memo: Option<(u64, Seq<u8>)>) -> Option<u64> {
    match memo {
        Some((b, _)) => Some(b),
        None => None,
    }
}

/// The base of the target a frame is pending for, if any.
pub open spec fn pending_base(pending: Option<(ColourTarget, ComponentSwap)>) -> Option<u64> {
    match pending {
        Some((t, _)) => Some(t.base),
        None => None,
    }
}

/// Whether a memo remembers exactly `length` bytes of a target at `base`.
pub open spec fn memo_holds(memo: Option<(u64, Seq<u8>)>, base: u64, length: nat) -> bool {
    memo matches Some((b, bytes)) && b == base && bytes.len() == length
}

/// Whether a frame pending on the device for `pending` would be wholly overwritten by
/// `[address, address + length)`.
pub open spec fn pending_covered(pending: Option<(ColourTarget, ComponentSwap)>, address: u64, length: u64) -> bool {
    pending matches Some((t, _)) && representable(t.width, t.height) && t.base >= address
        && saturating_sum(t.base, (4 * spec_surface_words(t.width, t.height)) as u64) <= saturating_sum(
        address,
        length,
    )
}

/// Whether a copy of `count` bytes from `source` to `destination` can be deferred as things stand:
/// hooks are installed, a frame is pending for a target at `source`, the copy is of that target's
/// whole surface into a range clear of it, and what the target held is remembered, in full.
pub open spec fn copy_deferrable<H, G, D>(driver: &Driver<H, G, D>, source: u64, destination: u64, count: u64) -> bool {
    &&& driver.hooks is Some
    &&& driver.pending matches Some((t, _))
    &&& representable(t.width, t.height)
    &&& source == t.base
    &&& count == 4 * spec_surface_words(t.width, t.height)
    &&& !spec_overlaps_target(t, destination, count)
    &&& driver.memo.spec_last() matches Some((b, bytes))
    &&& b == t.base
    &&& bytes.len() == count
}

/// Whether a pending frame's write-back can be deferred as things stand: hooks are installed, a
/// frame is pending, and what its target held is remembered, in full.
pub open spec fn write_back_deferrable<H, G, D>(driver: &Driver<H, G, D>) -> bool {
    &&& driver.hooks is Some
    &&& driver.pending matches Some((t, _))
    &&& representable(t.width, t.height)
    &&& driver.memo.spec_last() matches Some((b, bytes))
    &&& b == t.base
    &&& bytes.len() == 4 * spec_surface_words(t.width, t.height)
}

/// The deferred copies once a new one guarding `pages` and writing exactly
/// `[destination, destination + length)` has taken over: the one it supersedes is taken out, and
/// the others guarding any of its pages have been carried out.
pub open spec fn making_way(copies: Seq<Deferred>, destination: u64, length: u64, pages: (u64, u64)) -> Seq<
    Deferred,
> {
    clear_of(without_superseded(copies, destination, length), pages)
}

/// Why a write-back cannot wait.
pub struct CannotWait;

impl<H: LazyCopyHooks, G: GuestAccess, D: FrameDrawer> Driver<H, G, D> {
    /// Forgets what a colour target held, so the next submission hands its drawer the target as it
    /// is; the target is no longer protected either.
    pub fn forget_written(&mut self)
        ensures
            final(self).keeps_setup(old(self)),
            final(self).memo.spec_last() is None,
            final(self).deferred@ == old(self).deferred@,
            final(self).pending == old(self).pending,
            old(self).hooks is Some && protection_touched(old(self).protected, (0, u64::MAX)) ==> final(self).protected is None,
    {
        self.memo.forget();
        self.unprotect_overlapping(0, u64::MAX);
    }

    /// `length` bytes at `address`, once every deferred copy into them is carried out; `None` when
    /// one could not be, or the range is not readable.
    pub fn read_now(&mut self, address: u64, length: usize) -> (r: Option<Vec<u8>>)
        ensures
            final(self).keeps_setup(old(self)),
            final(self).pending == old(self).pending,
            final(self).memo.spec_last() == old(self).memo.spec_last(),
            old(self).hooks is Some ==> final(self).deferred@ == clear_of(old(self).deferred@, (address, length as u64)),
            old(self).hooks is None ==> final(self).deferred@ == old(self).deferred@,
            G::states_contents() && r is Some ==> answer_bytes(r) == final(self).guest.bytes_at(address, length),
            G::states_contents() && old(self).hooks is None ==> answer_bytes(r) == final(self).guest.bytes_at(
                address,
                length,
            ),
    {
        if !self.carry_out_overlapping(address, length as u64) {
            return None;
        }
        self.guest.read(address, length)
    }

    /// Whether memory at `address` holds exactly `expected`, once every deferred copy into it is
    /// carried out.
    pub fn holds_now(&mut self, address: u64, expected: &[u8]) -> (r: bool)
        ensures
            final(self).keeps_setup(old(self)),
            final(self).pending == old(self).pending,
            final(self).memo.spec_last() == old(self).memo.spec_last(),
            old(self).hooks is Some ==> final(self).deferred@ == clear_of(
                old(self).deferred@,
                (address, expected@.len() as u64),
            ),
            old(self).hooks is None ==> final(self).deferred@ == old(self).deferred@,
            G::states_contents() && r ==> final(self).guest.bytes_at(address, expected@.len() as usize) == Some(
                expected@,
            ),
            G::states_contents() && old(self).hooks is None ==> r == (final(self).guest.bytes_at(
                address,
                expected@.len() as usize,
            ) == Some(expected@)),
    {
        if !self.carry_out_overlapping(address, expected.len() as u64) {
            return false;
        }
        match self.guest.read(address, expected.len()) {
            Some(bytes) => bytes_equal(bytes.as_slice(), expected),
            None => false,
        }
    }

    /// Drops the pending frame, unwritten, when `[address, address + length)` overwrites its whole
    /// target: every byte the write-back would produce is overwritten before anything can read it.
    /// What the target held is forgotten too, so the next submission reads it in full.
    pub fn drop_pending_covered(&mut self, address: u64, length: u64)
        ensures
            final(self).keeps_setup(old(self)),
            final(self).deferred@ == old(self).deferred@,
            pending_covered(old(self).pending, address, length) ==> final(self).pending is None
                && final(self).memo.spec_last() is None,
            !pending_covered(old(self).pending, address, length) ==> final(self).pending == old(self).pending
                && final(self).memo.spec_last() == old(self).memo.spec_last() && final(self).protected
                == old(self).protected,
    {
        let target = match self.pending {
            Some((target, _)) => target,
            None => {
                return;
            },
        };
        let span = match target_bytes(target.width, target.height) {
            Some(span) => span as u64,
            None => {
                return;
            },
        };
        if target.base >= address && target.base.saturating_add(span) <= address.saturating_add(length) {
            self.pending = None;
            self.forget_written();
        }
    }

    /// Reads `target` out of guest memory as linear `Rgba8` for a drawer to start from, or answers
    /// that it is unchanged since it was last written or read, so the drawer already holds it:
    /// trusted without comparing while it has stayed write-protected, compared otherwise. `None`
    /// when the target is not readable. The target is protected from here.
    pub fn read_target(&mut self, target: ColourTarget, swap: ComponentSwap) -> (r: Option<TargetRead>)
        ensures
            final(self).keeps_setup(old(self)),
            final(self).pending == old(self).pending,
            !representable(target.width, target.height) ==> r is None,
            r matches Some(TargetRead::Unchanged) ==> final(self).memo.spec_last() == old(self).memo.spec_last()
                && memo_holds(old(self).memo.spec_last(), target.base, 4 * spec_surface_words(target.width, target.height)),
            r is Some && !(r->0 is Unchanged) ==> memo_base(final(self).memo.spec_last()) == Some(target.base),
            r is Some && !(r->0 is Unchanged) ==> crate::agc_driver::read_as(
                r->0,
                memo_bytes(final(self).memo.spec_last()),
                target.width,
                target.height,
                swap,
            ),
            r is None ==> final(self).memo.spec_last() == old(self).memo.spec_last(),
            representable(target.width, target.height) && old(self).protected is Some
                && old(self).protected->0.target_base == target.base && memo_holds(
                old(self).memo.spec_last(),
                target.base,
                4 * spec_surface_words(target.width, target.height),
            ) ==> r matches Some(TargetRead::Unchanged),
    {
        let length = match target_bytes(target.width, target.height) {
            Some(length) => length,
            None => {
                return None;
            },
        };
        let was_protected = self.protected_unwritten(target);
        self.protect_target(target);
        let remembered = match self.memo.bytes_for(target.base, length as u64) {
            Some(bytes) => Some(bytes),
            None => None,
        };
        match remembered {
            Some(bytes) => {
                if was_protected || self.holds_now(target.base, bytes.as_slice()) {
                    return Some(TargetRead::Unchanged);
                }
            },
            None => {},
        }
        let bytes = match self.read_now(target.base, length) {
            Some(bytes) => bytes,
            None => {
                return None;
            },
        };
        if bytes.len() < length {
            return None;
        }
        let before = target_contents(bytes.as_slice(), target.width, target.height, swap);
        self.memo.remember(target.base, bytes);
        Some(before)
    }

    /// Tiles `after` over the target in its byte order and writes it where the guest reads it,
    /// remembering what was written and protecting the target from here; the surface's padding
    /// words are kept as memory holds them. `false`, with nothing remembered, when the target is
    /// unreadable, unaligned, not writable, or `after` is the wrong size.
    fn write_target_now(&mut self, target: ColourTarget, swap: ComponentSwap, after: &[u32]) -> (r: bool)
        ensures
            final(self).keeps_setup(old(self)),
            final(self).pending == old(self).pending,
            r ==> memo_base(final(self).memo.spec_last()) == Some(target.base),
            !r ==> final(self).memo.spec_last() is None,
            !representable(target.width, target.height) || after@.len() != target.width * target.height ==> !r,
    {
        let length = match target_bytes(target.width, target.height) {
            Some(length) => length,
            None => {
                self.memo.forget();
                return false;
            },
        };
        if !self.carry_out_overlapping(target.base, length as u64) {
            self.memo.forget();
            return false;
        }
        if !self.guest.writable(target.base, length as u64) || target.base % 4 != 0 {
            self.memo.forget();
            return false;
        }
        self.unprotect_overlapping(target.base, length as u64);
        let current = match self.guest.read(target.base, length) {
            Some(current) => current,
            None => {
                self.memo.forget();
                return false;
            },
        };
        if current.len() < length {
            self.memo.forget();
            return false;
        }
        let words = words_of(current.as_slice());
        let tiled = match tile_over(after, words.as_slice(), target.width, target.height, swap) {
            Some(tiled) => tiled,
            None => {
                self.memo.forget();
                return false;
            },
        };
        let written = bytes_of(tiled.as_slice());
        self.guest.store(target.base, written.as_slice());
        self.memo.remember(target.base, written);
        self.protect_target(target);
        true
    }

    /// Writes the pending frame, if there is one, into guest memory. `true` when there was none or
    /// it was written; `false` when it could not be, which drops it rather than leaving it pending
    /// forever.
    pub fn write_back_pending(&mut self) -> (r: bool)
        ensures
            final(self).keeps_setup(old(self)),
            final(self).pending is None,
            old(self).pending is None ==> r && final(self).deferred@ == old(self).deferred@
                && final(self).memo.spec_last() == old(self).memo.spec_last(),
            old(self).pending is Some && old(self).drawer is None ==> !r,
            r && old(self).pending is Some ==> memo_base(final(self).memo.spec_last()) == pending_base(
                old(self).pending,
            ),
    {
        let (target, swap) = match self.pending {
            Some(pending) => pending,
            None => {
                return true;
            },
        };
        self.pending = None;
        let after = match &mut self.drawer {
            Some(d) => d.read_frame(),
            None => {
                return false;
            },
        };
        match after {
            Some(after) => self.write_target_now(target, swap, after.as_slice()),
            None => {
                self.forget_written();
                false
            },
        }
    }

    /// Memory work that touches a target whose frame is still on the device writes that frame back
    /// first: deferring to the flip holds only while nothing else looks at the target. `false` when
    /// the frame could not be written back.
    pub fn settle_pending(&mut self, address: u64, length: u64) -> (r: bool)
        ensures
            final(self).keeps_setup(old(self)),
            old(self).pending matches Some((t, _)) && spec_overlaps_target(t, address, length)
                ==> final(self).pending is None,
            !(old(self).pending matches Some((t, _)) && spec_overlaps_target(t, address, length)) ==> r
                && final(self).pending == old(self).pending && final(self).deferred@ == old(self).deferred@
                && final(self).memo.spec_last() == old(self).memo.spec_last(),
    {
        match self.pending {
            Some((target, _)) => {
                if overlaps_target(target, address, length) {
                    self.write_back_pending()
                } else {
                    true
                }
            },
            None => true,
        }
    }
}


/// The frame pending on the device: its target and byte order.
pub open spec fn pending_frame(pending: Option<(ColourTarget, ComponentSwap)>) -> (ColourTarget, ComponentSwap) {
    match pending {
        Some(frame) => frame,
        None => arbitrary(),
    }
}

/// The bytes a memo remembers, if any.
pub open spec fn memo_bytes(memo: Option<(u64, Seq<u8>)>) -> Seq<u8> {
    match memo {
        Some((_, bytes)) => bytes,
        None => Seq::empty(),
    }
}

/// Whether `after` is `before` with a new deferred copy taken over: the copy writing exactly
/// `[destination, destination + length)` of `target`'s frame over `memory_then`, guarding the
/// whole host pages under it, last - the one it supersedes taken out, and the others guarding any
/// of its pages carried out.
pub open spec fn took_over(
    after: Seq<Deferred>,
    before: Seq<Deferred>,
    destination: u64,
    length: u64,
    frame: (ColourTarget, ComponentSwap),
    memory_then: Seq<u8>,
) -> bool {
    let pages = spec_page_span(destination, length);
    &&& after.len() > 0
    &&& after.drop_last() == making_way(before, destination, length, pages)
    &&& after.last().destination == destination
    &&& after.last().length == length
    &&& after.last().page_base == pages.0
    &&& after.last().page_length == pages.1
    &&& after.last().target == frame.0
    &&& after.last().swap == frame.1
    &&& after.last().memory_then@ == memory_then
}

impl<H: LazyCopyHooks, G: GuestAccess, D: FrameDrawer> Driver<H, G, D> {
    /// The pending frame, the bytes its target's surface spans, and what its target held, when
    /// hooks are installed and all of that is known.
    fn pending_source(&self) -> (r: Option<(ColourTarget, ComponentSwap, u64, Vec<u8>)>)
        ensures
            r is Some <==> write_back_deferrable(self),
            r matches Some((t, s, span, bytes)) ==> (t, s) == pending_frame(self.pending) && span == 4
                * spec_surface_words(t.width, t.height) && bytes@ == memo_bytes(self.memo.spec_last()),
    {
        let (target, swap) = match self.pending {
            Some(frame) => frame,
            None => {
                return None;
            },
        };
        if self.hooks.is_none() {
            return None;
        }
        let span = match target_bytes(target.width, target.height) {
            Some(span) => span as u64,
            None => {
                return None;
            },
        };
        match self.memo.bytes_for(target.base, span) {
            Some(bytes) => Some((target, swap, span, bytes)),
            None => None,
        }
    }

    /// Clears the way for a deferred copy writing exactly `[destination, destination + length)`
    /// and guarding `pages`: their protection is given back, the copy it supersedes is taken out,
    /// and the others guarding any of its pages are carried out. Answers the superseded copy's
    /// protection and snapshot - the snapshot let go already when `discard_superseded` - and
    /// whether anything was carried out.
    fn make_way(&mut self, destination: u64, length: u64, pages: (u64, u64), discard_superseded: bool) -> (r: (
        Option<u32>,
        Option<u64>,
        bool,
    ))
        requires
            old(self).hooks is Some,
        ensures
            final(self).keeps_setup(old(self)),
            final(self).pending == old(self).pending,
            final(self).memo.spec_last() == old(self).memo.spec_last(),
            final(self).deferred@ == making_way(old(self).deferred@, destination, length, pages),
    {
        self.unprotect_overlapping(pages.0, pages.1);
        let superseded = take_superseded(&mut self.deferred, destination, length);
        let (guard, superseded_snapshot) = match superseded {
            Some(old) => {
                if discard_superseded {
                    match &mut self.hooks {
                        Some(h) => h.discard(old.snapshot),
                        None => {},
                    }
                    (Some(old.protection), None)
                } else {
                    (Some(old.protection), Some(old.snapshot))
                }
            },
            None => (None, None),
        };
        let touched = take_touching(&mut self.deferred, pages);
        let ghost made_way = self.deferred@;
        let carried = touched.len() > 0;
        self.carry_out_all(touched);
        (guard, superseded_snapshot, carried)
    }

    /// Keeps the frame on the device for a deferred copy guarding `pages`, and guards them: the
    /// superseded copy's guard is kept - put back where carrying another copy out released it -
    /// and its snapshot replaced; otherwise a fresh snapshot and guard are taken. The snapshot and
    /// the protection to restore, or `None` when the host refuses either, with what was taken
    /// given back.
    fn keep_frame(&mut self, pages: (u64, u64), guard: Option<u32>, superseded_snapshot: Option<u64>, carried: bool) -> (r:
        Option<(u64, u32)>)
        ensures
            final(self).keeps_setup(old(self)),
            final(self).pending == old(self).pending,
            final(self).memo.spec_last() == old(self).memo.spec_last(),
            final(self).deferred@ == old(self).deferred@,
            final(self).protected == old(self).protected,
            final(self).resolved@ == old(self).resolved@,
            r matches Some((_, protection)) ==> guard matches Some(g) ==> protection == g,
    {
        let h = match &mut self.hooks {
            Some(h) => h,
            None => {
                return None;
            },
        };
        if carried && guard.is_some() && h.guard(pages.0, pages.1).is_none() {
            match superseded_snapshot {
                Some(old) => h.discard(old),
                None => {},
            }
            return None;
        }
        let kept = match superseded_snapshot {
            Some(old) => h.replace(old),
            None => h.snapshot(),
        };
        let snapshot = match kept {
            Some(snapshot) => snapshot,
            None => {
                match guard {
                    Some(protection) => {
                        h.release(pages.0, pages.1, protection);
                    },
                    None => {},
                }
                return None;
            },
        };
        let protection = match guard {
            Some(protection) => protection,
            None => match h.guard(pages.0, pages.1) {
                Some(protection) => protection,
                None => {
                    h.discard(snapshot);
                    return None;
                },
            },
        };
        Some((snapshot, protection))
    }

    /// A copy of the whole pending target, deferred: the hardware copies the target's memory with
    /// the frame drawn so far over it, and nothing observes the destination until something
    /// touches it. The frame is kept on the device, the destination's pages are guarded, and the
    /// bytes are produced on first touch. A copy to exactly this destination is superseded, and
    /// copies guarding any of its pages are carried out first. `false` when this copy cannot wait;
    /// the caller then carries it out now.
    pub fn defer_copy(&mut self, source: u64, destination: u64, count: usize) -> (r: bool)
        ensures
            final(self).keeps_setup(old(self)),
            final(self).pending == old(self).pending,
            final(self).memo.spec_last() == old(self).memo.spec_last(),
            !copy_deferrable(old(self), source, destination, count as u64) ==> !r && final(self).deferred@
                == old(self).deferred@ && final(self).protected == old(self).protected && final(self).resolved@
                == old(self).resolved@,
            r ==> copy_deferrable(old(self), source, destination, count as u64) && took_over(
                final(self).deferred@,
                old(self).deferred@,
                destination,
                count as u64,
                pending_frame(old(self).pending),
                memo_bytes(old(self).memo.spec_last()),
            ),
            !r ==> final(self).deferred@ == old(self).deferred@ || final(self).deferred@ == making_way(
                old(self).deferred@,
                destination,
                count as u64,
                spec_page_span(destination, count as u64),
            ),
            guards_apart(old(self).deferred@) ==> guards_apart(final(self).deferred@),
    {
        let (target, swap, span, memory_then) = match self.pending_source() {
            Some(source) => source,
            None => {
                return false;
            },
        };
        let length = count as u64;
        if source != target.base || length != span || overlaps_target(target, destination, length) {
            return false;
        }
        if !self.guest.writable(destination, length) {
            return false;
        }
        let pages = page_span(destination, length);
        let (guard, superseded_snapshot, carried) = self.make_way(destination, length, pages, false);
        let ghost made_way = self.deferred@;
        proof {
            if guards_apart(old(self).deferred@) {
                lemma_making_way_keeps_guards_apart(old(self).deferred@, destination, length, pages);
            }
        }
        let (snapshot, protection) = match self.keep_frame(pages, guard, superseded_snapshot, carried) {
            Some(kept) => kept,
            None => {
                return false;
            },
        };
        self.deferred.push(
            Deferred {
                destination,
                length,
                page_base: pages.0,
                page_length: pages.1,
                protection,
                snapshot,
                target,
                swap,
                memory_then,
            },
        );
        proof {
            assert(self.deferred@.drop_last() =~= made_way);
            if guards_apart(old(self).deferred@) {
                lemma_took_over_keeps_guards_apart(
                    self.deferred@,
                    old(self).deferred@,
                    destination,
                    length,
                    (target, swap),
                    memory_then@,
                );
            }
        }
        true
    }

    /// The pending frame's write-back, deferred: a copy of the frame onto its own target, from the
    /// target's memory as the draws started from it - which memory still holds, since anything
    /// that touched the target since would have written the frame back. With `show`, a second
    /// snapshot of the frame is kept for the display to read on its own time. `Err` when the
    /// write-back cannot wait; the caller then writes it back now.
    pub fn defer_write_back(&mut self, show: bool) -> (r: Result<Option<ShownFrame>, CannotWait>)
        ensures
            final(self).keeps_setup(old(self)),
            final(self).memo.spec_last() == old(self).memo.spec_last(),
            !write_back_deferrable(old(self)) ==> r is Err && final(self).deferred@ == old(self).deferred@
                && final(self).protected == old(self).protected && final(self).resolved@ == old(self).resolved@
                && final(self).pending == old(self).pending,
            r is Ok ==> write_back_deferrable(old(self)) && final(self).pending is None && took_over(
                final(self).deferred@,
                old(self).deferred@,
                pending_frame(old(self).pending).0.base,
                (4 * spec_surface_words(
                    pending_frame(old(self).pending).0.width,
                    pending_frame(old(self).pending).0.height,
                )) as u64,
                pending_frame(old(self).pending),
                memo_bytes(old(self).memo.spec_last()),
            ),
            r matches Ok(Some(shown)) ==> shown.target == pending_frame(old(self).pending).0 && shown.swap
                == pending_frame(old(self).pending).1,
            r is Err ==> final(self).pending == old(self).pending,
            !show ==> !(r matches Ok(Some(_))),
            guards_apart(old(self).deferred@) ==> guards_apart(final(self).deferred@),
    {
        let (target, swap, span, memory_then) = match self.pending_source() {
            Some(source) => source,
            None => {
                return Err(CannotWait);
            },
        };
        if !self.guest.writable(target.base, span) {
            return Err(CannotWait);
        }
        let pages = page_span(target.base, span);
        let (guard, superseded_snapshot, carried) = self.make_way(target.base, span, pages, true);
        let ghost made_way = self.deferred@;
        proof {
            if guards_apart(old(self).deferred@) {
                lemma_making_way_keeps_guards_apart(old(self).deferred@, target.base, span, pages);
            }
        }
        let (snapshot, protection) = match self.keep_frame(pages, guard, superseded_snapshot, carried) {
            Some(kept) => kept,
            None => {
                return Err(CannotWait);
            },
        };
        self.deferred.push(
            Deferred {
                destination: target.base,
                length: span,
                page_base: pages.0,
                page_length: pages.1,
                protection,
                snapshot,
                target,
                swap,
                memory_then,
            },
        );
        proof {
            assert(self.deferred@.drop_last() =~= made_way);
            if guards_apart(old(self).deferred@) {
                lemma_took_over_keeps_guards_apart(
                    self.deferred@,
                    old(self).deferred@,
                    target.base,
                    span,
                    (target, swap),
                    memory_then@,
                );
            }
        }
        self.pending = None;
        if !show {
            return Ok(None);
        }
        let shown = match &mut self.hooks {
            Some(h) => h.snapshot(),
            None => None,
        };
        match shown {
            Some(snapshot) => Ok(Some(ShownFrame { snapshot, target, swap })),
            None => Ok(None),
        }
    }
}

impl<H: LazyCopyHooks, G: GuestAccess, D: FrameDrawer> Driver<H, G, D> {
    /// Reads the target the submission draws into, has the drawer draw over it, and writes the
    /// result back where the guest reads it - after every submission, or, by default, at the flip:
    /// then the frame is left on the device and pending. A frame still pending for another target
    /// is written back first, since the drawer holds one frame. `false` at the first thing that is
    /// not exact: no drawer, no target the draws can be written back to, or a read, draw or write
    /// that fails.
    pub fn draw_into_target(&mut self) -> (r: bool)
        ensures
            final(self).keeps_setup(old(self)),
            old(self).drawer is None || old(self).drawing is None ==> !r,
            r && old(self).write_back_at_flip ==> final(self).pending == old(self).drawing,
            r && !old(self).write_back_at_flip ==> memo_base(final(self).memo.spec_last()) == Some(
                pending_frame(old(self).drawing).0.base,
            ),
    {
        if self.drawer.is_none() {
            return false;
        }
        let (target, swap) = match self.drawing {
            Some(drawing) => drawing,
            None => {
                return false;
            },
        };
        let other_pending = match self.pending {
            Some((pending, _)) => pending.base != target.base,
            None => false,
        };
        if other_pending && !self.write_back_pending() {
            return false;
        }
        let before = match self.read_target(target, swap) {
            Some(before) => before,
            None => {
                return false;
            },
        };
        if !self.write_back_at_flip {
            let after = match &mut self.drawer {
                Some(d) => {
                    if d.draw(before.before()) {
                        d.read_frame()
                    } else {
                        None
                    }
                },
                None => None,
            };
            let after = match after {
                Some(after) => after,
                None => {
                    self.forget_written();
                    return false;
                },
            };
            let span = match target_bytes(target.width, target.height) {
                Some(span) => span as u64,
                None => {
                    return false;
                },
            };
            if !self.settle_pending(target.base, span) {
                return false;
            }
            return self.write_target_now(target, swap, after.as_slice());
        }
        let drawn = match &mut self.drawer {
            Some(d) => d.draw(before.before()),
            None => false,
        };
        if !drawn {
            self.forget_written();
            self.pending = None;
            return false;
        }
        self.pending = Some((target, swap));
        true
    }

    /// Writes a pending drawn frame back where the guest scans it out, as the guest flips. The
    /// write-back is deferred where it can be - carried out by the first touch of the target's
    /// pages - and written now where it cannot wait; with `show`, a deferred write-back also keeps
    /// a snapshot for the display. `true` when nothing was pending, or it was deferred or written.
    pub fn write_back_at_this_flip_showing(&mut self, show: bool) -> (r: (bool, Option<ShownFrame>))
        ensures
            final(self).keeps_setup(old(self)),
            final(self).pending is None,
            old(self).pending is None ==> r.0 && r.1 is None && final(self).deferred@ == old(self).deferred@
                && final(self).memo.spec_last() == old(self).memo.spec_last(),
            r.1 matches Some(shown) ==> old(self).pending == Some((shown.target, shown.swap)),
            !show ==> r.1 is None,
    {
        match self.defer_write_back(show) {
            Ok(shown) => (true, shown),
            Err(_) => (self.write_back_pending(), None),
        }
    }

    /// [`Driver::write_back_at_this_flip_showing`] without a snapshot for the display.
    pub fn write_back_at_this_flip(&mut self) -> (r: bool)
        ensures
            final(self).keeps_setup(old(self)),
            final(self).pending is None,
            old(self).pending is None ==> r && final(self).deferred@ == old(self).deferred@,
    {
        self.write_back_at_this_flip_showing(false).0
    }
}

impl<H: LazyCopyHooks, G: GuestAccess, D: FrameDrawer> Driver<H, G, D> {
    /// Fills guest memory as the command processor asks, carrying out and settling what overlaps.
    fn fill_guest(&mut self, address: u64, pattern: u32, count: usize) -> (r: bool)
        ensures
            final(self).keeps_setup(old(self)),
            old(self).hooks is Some && !pending_overlaps(old(self).pending, address, count as u64) ==> forall|i: int|
                0 <= i < final(self).deferred@.len() ==> !touches(#[trigger] final(self).deferred@[i], (address, count as u64)),
            r ==> old(self).hooks is None || !protection_touched(final(self).protected, (address, count as u64)),
    {
        let length = count as u64;
        if self.guest.writable(address, length) {
            self.drop_covered(address, length);
            self.drop_pending_covered(address, length);
        }
        let ghost before = self.deferred@;
        let carried = self.carry_out_overlapping(address, length);
        proof {
            lemma_clear_of_touches_none(before, (address, length));
        }
        if !carried || !self.settle_pending(address, length) {
            return false;
        }
        if !self.guest.writable(address, length) {
            return false;
        }
        self.unprotect_overlapping(address, length);
        let bytes = pattern_bytes(pattern, count);
        self.guest.store(address, bytes.as_slice());
        true
    }

    /// Copies guest memory as the command processor asks, deferring the copy where it can.
    fn copy_guest(&mut self, source: u64, destination: u64, count: usize) -> (r: bool)
        ensures
            final(self).keeps_setup(old(self)),
            old(self).hooks is Some && old(self).pending is None ==> forall|i: int|
                0 <= i < final(self).deferred@.len() ==> !touches(#[trigger] final(self).deferred@[i], (source, count as u64)),
            r && !copy_deferrable(old(self), source, destination, count as u64) ==> old(self).hooks is None
                || !protection_touched(final(self).protected, (destination, count as u64)),
    {
        let length = count as u64;
        let ghost before = self.deferred@;
        if !self.carry_out_overlapping(source, length) {
            proof {
                lemma_clear_of_touches_none(before, (source, length));
            }
            return false;
        }
        proof {
            lemma_clear_of_touches_none(before, (source, length));
        }
        let ghost cleared = self.deferred@;
        if self.defer_copy(source, destination, count) {
            return true;
        }
        let ghost kept = self.deferred@;
        let carried = self.carry_out_overlapping(destination, length);
        proof {
            if old(self).hooks is Some && old(self).pending is None {
                lemma_clear_of_keeps_clear(kept, (destination, length), (source, length));
            }
        }
        if !carried || !self.settle_pending(source, length) || !self.settle_pending(destination, length) {
            return false;
        }
        let from = match self.guest.read(source, count) {
            Some(from) => from,
            None => {
                return false;
            },
        };
        if !self.guest.writable(destination, length) {
            return false;
        }
        self.unprotect_overlapping(destination, length);
        self.guest.store(destination, from.as_slice());
        true
    }

}

impl<H: LazyCopyHooks, G: GuestAccess, D: FrameDrawer> CpMemory for Driver<H, G, D> {
    open spec fn records_requests() -> bool {
        true
    }

    open spec fn requests(&self) -> Seq<MemoryRequest> {
        self.requests@
    }

    fn read(&mut self, address: u64, length: usize) -> (r: Option<Vec<u8>>)
        ensures
            final(self).keeps_setup(old(self)),
            final(self).pending == old(self).pending,
            final(self).memo.spec_last() == old(self).memo.spec_last(),
            old(self).hooks is Some ==> final(self).deferred@ == clear_of(old(self).deferred@, (address, length as u64)),
            old(self).hooks is None ==> final(self).deferred@ == old(self).deferred@,
            G::states_contents() && r is Some ==> answer_bytes(r) == final(self).guest.bytes_at(address, length),
            G::states_contents() && old(self).hooks is None ==> answer_bytes(r) == final(self).guest.bytes_at(
                address,
                length,
            ),
    {
        let ghost before = self.requests@;
        let r = self.read_now(address, length);
        self.requests = Ghost(
            before.push(MemoryRequest::Read { address, length: length as nat, answer: answer_bytes(r) }),
        );
        r
    }

    fn write(&mut self, address: u64, bytes: &[u8]) -> (r: bool)
        ensures
            final(self).keeps_setup(old(self)),
            !pending_overlaps(old(self).pending, address, bytes@.len() as u64) ==> final(self).pending
                == old(self).pending,
            !pending_overlaps(old(self).pending, address, bytes@.len() as u64) ==> final(self).memo.spec_last()
                == old(self).memo.spec_last(),
            !pending_overlaps(old(self).pending, address, bytes@.len() as u64) && old(self).hooks is Some
                ==> final(self).deferred@ == clear_of(old(self).deferred@, (address, bytes@.len() as u64)),
            !pending_overlaps(old(self).pending, address, bytes@.len() as u64) && old(self).hooks is None
                ==> final(self).deferred@ == old(self).deferred@,
            r && pending_overlaps(old(self).pending, address, bytes@.len() as u64) ==> final(self).pending is None,
            r ==> old(self).hooks is None || !protection_touched(final(self).protected, (address, bytes@.len() as u64)),
    {
        let ghost before = self.requests@;
        let length = bytes.len() as u64;
        let r = self.carry_out_overlapping(address, length) && self.settle_pending(address, length)
            && self.write_guest(address, bytes);
        self.requests = Ghost(before.push(MemoryRequest::Write { address, bytes: bytes@, answer: r }));
        r
    }

    fn timestamp(&mut self) -> (r: u64) {
        let ghost before = self.requests@;
        let r = self.guest.timestamp();
        self.requests = Ghost(before.push(MemoryRequest::Timestamp { answer: r }));
        r
    }

    fn holds(&mut self, address: u64, expected: &[u8]) -> (r: bool)
        ensures
            final(self).keeps_setup(old(self)),
            final(self).pending == old(self).pending,
            final(self).memo.spec_last() == old(self).memo.spec_last(),
            old(self).hooks is Some ==> final(self).deferred@ == clear_of(
                old(self).deferred@,
                (address, expected@.len() as u64),
            ),
            old(self).hooks is None ==> final(self).deferred@ == old(self).deferred@,
    {
        let ghost before = self.requests@;
        let r = self.holds_now(address, expected);
        self.requests = Ghost(before.push(MemoryRequest::Holds { address, expected: expected@, answer: r }));
        proof {
            lemma_one_made(before, MemoryRequest::Holds { address, expected: expected@, answer: r });
        }
        r
    }

    fn fill(&mut self, address: u64, pattern: u32, count: usize) -> (r: bool)
        ensures
            final(self).keeps_setup(old(self)),
            old(self).hooks is Some && !pending_overlaps(old(self).pending, address, count as u64) ==> forall|i: int|
                0 <= i < final(self).deferred@.len() ==> !touches(#[trigger] final(self).deferred@[i], (address, count as u64)),
            r ==> old(self).hooks is None || !protection_touched(final(self).protected, (address, count as u64)),
    {
        let ghost before = self.requests@;
        let r = self.fill_guest(address, pattern, count);
        self.requests = Ghost(before.push(MemoryRequest::Fill { address, pattern, count: count as nat, answer: r }));
        proof {
            lemma_one_made(before, MemoryRequest::Fill { address, pattern, count: count as nat, answer: r });
        }
        r
    }

    fn copy(&mut self, source: u64, destination: u64, count: usize) -> (r: bool)
        ensures
            final(self).keeps_setup(old(self)),
            old(self).hooks is Some && old(self).pending is None ==> forall|i: int|
                0 <= i < final(self).deferred@.len() ==> !touches(#[trigger] final(self).deferred@[i], (source, count as u64)),
            r && !copy_deferrable(old(self), source, destination, count as u64) ==> old(self).hooks is None
                || !protection_touched(final(self).protected, (destination, count as u64)),
    {
        let ghost before = self.requests@;
        let r = self.copy_guest(source, destination, count);
        self.requests = Ghost(
            before.push(MemoryRequest::Copy { source, destination, count: count as nat, answer: r }),
        );
        proof {
            lemma_one_made(before, MemoryRequest::Copy { source, destination, count: count as nat, answer: r });
        }
        r
    }

    fn run_draws(&mut self) -> (r: bool)
        ensures
            final(self).keeps_setup(old(self)),
            old(self).drawer is None || old(self).drawing is None ==> !r,
            r && old(self).write_back_at_flip ==> final(self).pending == old(self).drawing,
            r && !old(self).write_back_at_flip ==> memo_base(final(self).memo.spec_last()) == Some(
                pending_frame(old(self).drawing).0.base,
            ),
    {
        let ghost before = self.requests@;
        let r = self.draw_into_target();
        self.requests = Ghost(before.push(MemoryRequest::RunDraws { answer: r }));
        proof {
            lemma_one_made(before, MemoryRequest::RunDraws { answer: r });
        }
        r
    }
}

/// After the copies touching `range` are carried out, none left touches it.
proof fn lemma_clear_of_touches_none(copies: Seq<Deferred>, range: (u64, u64))
    ensures
        forall|i: int| 0 <= i < clear_of(copies, range).len() ==> !touches(#[trigger] clear_of(copies, range)[i], range),
{
    broadcast use vstd::seq_lib::group_filter_ensures;

}

/// Carrying out the copies touching one range leaves none touching another range that none
/// touched before.
proof fn lemma_clear_of_keeps_clear(copies: Seq<Deferred>, range: (u64, u64), other: (u64, u64))
    requires
        forall|i: int| 0 <= i < copies.len() ==> !touches(#[trigger] copies[i], other),
    ensures
        forall|i: int| 0 <= i < clear_of(copies, range).len() ==> !touches(#[trigger] clear_of(copies, range)[i], other),
{
    broadcast use vstd::seq_lib::group_filter_ensures;

    assert forall|i: int| 0 <= i < clear_of(copies, range).len() implies !touches(
        #[trigger] clear_of(copies, range)[i],
        other,
    ) by {
        let c = clear_of(copies, range)[i];
        assert(clear_of(copies, range).contains(c));
        copies.lemma_filter_contains_rev(|d: Deferred| !touches(d, range), c);
        assert(copies.contains(c));
        let j = choose|j: int| 0 <= j < copies.len() && copies[j] == c;
        assert(!touches(copies[j], other));
    }
}

/// Whether `[address, address + length)` touches the pending frame's target.
pub open spec fn pending_overlaps(pending: Option<(ColourTarget, ComponentSwap)>, address: u64, length: u64) -> bool {
    pending matches Some((t, _)) && spec_overlaps_target(t, address, length)
}

/// Whether no two deferred copies guard a common page.
pub open spec fn guards_apart(copies: Seq<Deferred>) -> bool {
    forall|i: int, j: int|
        #![trigger copies[i], copies[j]]
        0 <= i < j < copies.len() ==> !spec_ranges_overlap(
            (copies[i].page_base, copies[i].page_length),
            (copies[j].page_base, copies[j].page_length),
        )
}

/// Keeping some of the deferred copies, in order, keeps them guarding pages apart.
proof fn lemma_filter_keeps_guards_apart(copies: Seq<Deferred>, pred: spec_fn(Deferred) -> bool)
    requires
        guards_apart(copies),
    ensures
        guards_apart(copies.filter(pred)),
    decreases copies.len(),
{
    if copies.len() == 0 {
        assert(copies.filter(pred).len() == 0) by {
            reveal(Seq::filter);
        }
    } else {
        let init = copies.drop_last();
        let last = copies.last();
        assert(copies =~= init.push(last));
        assert forall|i: int, j: int| 0 <= i < j < init.len() implies !spec_ranges_overlap(
            (init[i].page_base, init[i].page_length),
            (init[j].page_base, init[j].page_length),
        ) by {
            assert(init[i] == copies[i] && init[j] == copies[j]);
        }
        lemma_filter_keeps_guards_apart(init, pred);
        init.lemma_filter_push(last, pred);
        if pred(last) {
            let f = init.filter(pred);
            assert forall|k: int| 0 <= k < f.len() implies !spec_ranges_overlap(
                (f[k].page_base, f[k].page_length),
                (last.page_base, last.page_length),
            ) by {
                assert(f.contains(f[k]));
                init.lemma_filter_contains_rev(pred, f[k]);
                let m = choose|m: int| 0 <= m < init.len() && init[m] == f[k];
                assert(copies[m] == init[m]);
                assert(copies[copies.len() - 1] == last);
            }
            let g = f.push(last);
            assert forall|i: int, j: int| 0 <= i < j < g.len() implies !spec_ranges_overlap(
                (g[i].page_base, g[i].page_length),
                (g[j].page_base, g[j].page_length),
            ) by {
                if j == g.len() - 1 {
                    assert(g[i] == f[i] && g[j] == last);
                } else {
                    assert(g[i] == f[i] && g[j] == f[j]);
                }
            }
        }
    }
}

/// Taking one deferred copy out keeps the others guarding pages apart.
proof fn lemma_remove_keeps_guards_apart(copies: Seq<Deferred>, i: int)
    requires
        guards_apart(copies),
        0 <= i < copies.len(),
    ensures
        guards_apart(copies.remove(i)),
{
    let r = copies.remove(i);
    assert forall|a: int, b: int| 0 <= a < b < r.len() implies !spec_ranges_overlap(
        (r[a].page_base, r[a].page_length),
        (r[b].page_base, r[b].page_length),
    ) by {
        let ia = if a < i {
            a
        } else {
            a + 1
        };
        let ib = if b < i {
            b
        } else {
            b + 1
        };
        assert(r[a] == copies[ia] && r[b] == copies[ib]);
    }
}

/// Where some copy writes exactly `[destination, destination + length)`, a first one does, at or
/// before `k`.
proof fn lemma_first_same_copy(copies: Seq<Deferred>, destination: u64, length: u64, k: int)
    requires
        0 <= k < copies.len(),
        same_copy(copies[k], destination, length),
    ensures
        exists|i: int|
            0 <= i < copies.len() && same_copy(#[trigger] copies[i], destination, length) && forall|j: int|
                0 <= j < i ==> !same_copy(#[trigger] copies[j], destination, length),
    decreases k,
{
    if exists|j: int| 0 <= j < k && same_copy(#[trigger] copies[j], destination, length) {
        let j = choose|j: int| 0 <= j < k && same_copy(#[trigger] copies[j], destination, length);
        lemma_first_same_copy(copies, destination, length, j);
    } else {
        assert(forall|j: int| 0 <= j < k ==> !same_copy(#[trigger] copies[j], destination, length));
    }
}

/// Taking out the copy a new one supersedes keeps the others guarding pages apart.
proof fn lemma_without_superseded_keeps_guards_apart(copies: Seq<Deferred>, destination: u64, length: u64)
    requires
        guards_apart(copies),
    ensures
        guards_apart(without_superseded(copies, destination, length)),
{
    if exists|i: int| 0 <= i < copies.len() && same_copy(#[trigger] copies[i], destination, length) {
        let k = choose|i: int| 0 <= i < copies.len() && same_copy(#[trigger] copies[i], destination, length);
        lemma_first_same_copy(copies, destination, length, k);
        let i = choose|i: int|
            0 <= i < copies.len() && same_copy(#[trigger] copies[i], destination, length) && forall|
                j: int,
            | 0 <= j < i ==> !same_copy(#[trigger] copies[j], destination, length);
        lemma_remove_keeps_guards_apart(copies, i);
    }
}

/// Making way for a deferred copy keeps the others guarding pages apart, and leaves none guarding
/// the new copy's pages.
proof fn lemma_making_way_keeps_guards_apart(copies: Seq<Deferred>, destination: u64, length: u64, pages: (u64, u64))
    requires
        guards_apart(copies),
    ensures
        guards_apart(making_way(copies, destination, length, pages)),
        forall|k: int|
            0 <= k < making_way(copies, destination, length, pages).len() ==> !touches(
                #[trigger] making_way(copies, destination, length, pages)[k],
                pages,
            ),
{
    let mid = without_superseded(copies, destination, length);
    lemma_without_superseded_keeps_guards_apart(copies, destination, length);
    lemma_filter_keeps_guards_apart(mid, |c: Deferred| !touches(c, pages));
    let kept = making_way(copies, destination, length, pages);
    assert forall|k: int| 0 <= k < kept.len() implies !touches(#[trigger] kept[k], pages) by {
        mid.lemma_filter_pred(|c: Deferred| !touches(c, pages), k);
    }
}

/// A deferred copy taking over never leaves a page guarded twice: the copies it supersedes or
/// whose pages it shares are gone, and those left were apart already.
pub proof fn lemma_took_over_keeps_guards_apart(
    after: Seq<Deferred>,
    before: Seq<Deferred>,
    destination: u64,
    length: u64,
    frame: (ColourTarget, ComponentSwap),
    memory_then: Seq<u8>,
)
    requires
        guards_apart(before),
        took_over(after, before, destination, length, frame, memory_then),
    ensures
        guards_apart(after),
{
    let pages = spec_page_span(destination, length);
    let kept = making_way(before, destination, length, pages);
    lemma_making_way_keeps_guards_apart(before, destination, length, pages);
    assert(after.drop_last() == kept);
    assert forall|i: int, j: int| 0 <= i < j < after.len() implies !spec_ranges_overlap(
        (after[i].page_base, after[i].page_length),
        (after[j].page_base, after[j].page_length),
    ) by {
        assert(after[i] == kept[i]);
        if j == after.len() - 1 {
            assert(!touches(kept[i], pages));
            assert(after[j] == after.last());
        } else {
            assert(after[j] == kept[j]);
        }
    }
}

/// Carrying out, dropping or keeping some of the deferred copies keeps them guarding pages apart.
pub proof fn lemma_carrying_out_keeps_guards_apart(copies: Seq<Deferred>, range: (u64, u64), address: u64, length: u64)
    requires
        guards_apart(copies),
    ensures
        guards_apart(clear_of(copies, range)),
        guards_apart(uncovered(copies, address, length)),
{
    lemma_filter_keeps_guards_apart(copies, |c: Deferred| !touches(c, range));
    lemma_filter_keeps_guards_apart(copies, |c: Deferred| !covers(c, address, length));
}

} // verus!
