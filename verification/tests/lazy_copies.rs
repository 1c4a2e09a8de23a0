use orbistoun_gpu::agc_driver::{tile_over, Before, TargetRead};
use orbistoun_gpu::cp::{words_of, CpMemory};
use orbistoun_gpu::lazy_copies::{Driver, FrameDrawer, GuestAccess, LazyCopyHooks, RESOLVED_KEPT};
use orbistoun_gpu::registers::{ColourTarget, ComponentSwap};
use orbistoun_gpu::tiling::surface_words_64kb_rx_bpp4;

/// Guest memory: one run of bytes at `base`, writable where `writable` says.
struct Region {
    base: u64,
    bytes: Vec<u8>,
    writable: (u64, u64),
}

impl Region {
    fn new(base: u64, bytes: Vec<u8>) -> Self {
        let len = bytes.len() as u64;
        Region { base, bytes, writable: (base, len) }
    }
    fn offset(&self, address: u64, length: usize) -> Option<usize> {
        let start = usize::try_from(address.checked_sub(self.base)?).ok()?;
        (start + length <= self.bytes.len()).then_some(start)
    }
}

impl GuestAccess for Region {
    fn read(&self, address: u64, length: usize) -> Option<Vec<u8>> {
        let start = self.offset(address, length)?;
        Some(self.bytes[start..start + length].to_vec())
    }
    fn writable(&self, address: u64, length: u64) -> bool {
        let (start, len) = self.writable;
        address >= start && address.saturating_add(length) <= start.saturating_add(len)
    }
    fn store(&mut self, address: u64, bytes: &[u8]) {
        let start = self.offset(address, bytes.len()).expect("a vouched range");
        self.bytes[start..start + bytes.len()].copy_from_slice(bytes);
    }
    fn timestamp(&mut self) -> u64 {
        1
    }
}

/// Snapshots and protection that are counted, not real: no page's protection changes, so a test
/// drives the fault path by calling what the handler would.
#[derive(Default)]
struct Fake {
    snapshots: u64,
    taken: u64,
    discarded: u64,
    protected: u64,
    released: u64,
}

/// The frame every snapshot holds: a 16x8 ramp.
fn frame() -> Vec<u32> {
    (0..128u32).map(|i| 0xff00_0000 | (i * 0x0101)).collect()
}

impl LazyCopyHooks for Fake {
    fn snapshot(&mut self) -> Option<u64> {
        self.snapshots += 1;
        Some(self.snapshots)
    }
    fn take(&mut self, _snapshot: u64) -> Option<Vec<u32>> {
        self.taken += 1;
        Some(frame())
    }
    fn discard(&mut self, _snapshot: u64) {
        self.discarded += 1;
    }
    fn replace(&mut self, _old: u64) -> Option<u64> {
        self.discarded += 1;
        self.snapshots += 1;
        Some(self.snapshots)
    }
    fn guard(&mut self, _base: u64, _length: u64) -> Option<u32> {
        Some(0)
    }
    fn protect_writes(&mut self, _base: u64, _length: u64) -> Option<u32> {
        self.protected += 1;
        Some(4)
    }
    fn release(&mut self, _base: u64, _length: u64, _protection: u32) -> bool {
        self.released += 1;
        true
    }
}

/// A drawer that draws `frame()` when `draws` says so.
struct Ramp {
    draws: bool,
    handed: Option<Option<Vec<u32>>>,
}

impl FrameDrawer for Ramp {
    fn draw(&mut self, before: Before<'_>) -> bool {
        self.handed = Some(before.to_words(128));
        self.draws
    }
    fn read_frame(&mut self) -> Option<Vec<u32>> {
        self.draws.then(frame)
    }
}

const BASE: u64 = 0x10_0000;

fn span() -> usize {
    surface_words_64kb_rx_bpp4(16, 8) * 4
}

fn target() -> ColourTarget {
    ColourTarget { base: BASE, width: 16, height: 8 }
}

/// The bytes a frame leaves tiled over `memory`.
fn tiled_over(memory: &[u8]) -> Vec<u8> {
    let tiled = tile_over(&frame(), &words_of(memory), 16, 8, ComponentSwap::Standard).expect("tiles");
    tiled.iter().flat_map(|w| w.to_le_bytes()).collect()
}

/// A target is compared only when it may have been written.
///
/// Read once, the target is protected; read again, it is unchanged on the protection's word, even
/// with memory changed behind the fake protection's back. A write then faults (`written_at`), and
/// the next read compares and finds the change. A command-processor fill releases the protection.
#[test]
fn a_protected_target_is_trusted_until_a_write_to_it_faults() {
    let memory = vec![0x10u8; span()];
    let mut cp: Driver<Fake, Region, Ramp> =
        Driver::new(Some(Fake::default()), Region::new(BASE, memory.clone()), None);
    cp.remember_written(BASE, memory);
    let read = |cp: &mut Driver<Fake, Region, Ramp>| cp.read_target(target(), ComponentSwap::Standard).expect("readable");

    assert!(matches!(read(&mut cp), TargetRead::Unchanged), "compared: the bytes kept");
    cp.guest.bytes[0] = 0x99;
    assert!(matches!(read(&mut cp), TargetRead::Unchanged), "protected and unwritten: trusted, not compared");
    assert!(cp.written_at(BASE), "a write to it faults, and is answered");
    assert!(!cp.written_at(BASE), "and only once: its pages are its own again");
    assert!(matches!(read(&mut cp), TargetRead::Changed(_)), "compared, and changed");

    assert!(matches!(read(&mut cp), TargetRead::Unchanged));
    assert!(cp.fill(BASE, 0, 4), "a fill of its first word");
    assert!(matches!(read(&mut cp), TargetRead::Changed(_)), "the command processor's own write is seen too");
    cp.forget_written();
    assert!(cp.remembered_base().is_none());
}

/// A flipped frame reaches memory when something reads it, and not before.
///
/// The flip leaves memory as it was and keeps a snapshot; the first read carries it out, and
/// memory then holds the frame tiled over what it held. A flip followed by a fill covering the
/// whole target never reads its snapshot, and memory holds the fill.
#[test]
fn a_flipped_frame_is_written_back_on_first_read_or_dropped_by_a_covering_fill() {
    let memory = vec![0xAAu8; span()];
    let mut cp: Driver<Fake, Region, Ramp> =
        Driver::new(Some(Fake::default()), Region::new(BASE, memory.clone()), None);
    let pend = |cp: &mut Driver<Fake, Region, Ramp>| {
        let held = cp.guest.bytes.clone();
        cp.remember_written(BASE, held);
        cp.set_pending(Some((target(), ComponentSwap::Standard)));
    };

    pend(&mut cp);
    let before = memory;
    assert!(cp.write_back_at_this_flip());
    assert!(cp.pending_target().is_none(), "nothing left pending");
    assert_eq!(cp.guest.bytes, before, "nothing written at the flip");
    assert!(cp.carry_out_before_reading(BASE, 4));
    assert_eq!(cp.guest.bytes, tiled_over(&before), "the first read finds the frame");

    let taken = cp.hooks.as_ref().map(|h| h.taken).unwrap();
    let discarded = cp.hooks.as_ref().map(|h| h.discarded).unwrap();
    pend(&mut cp);
    assert!(cp.write_back_at_this_flip());
    assert!(cp.fill(BASE, 0x1122_3344, span()));
    assert_eq!(cp.hooks.as_ref().map(|h| h.taken), Some(taken), "a covered frame is never read");
    assert_eq!(cp.hooks.as_ref().map(|h| h.discarded), Some(discarded + 1), "its snapshot is let go");
    assert!(cp.guest.bytes.chunks_exact(4).all(|w| w == 0x1122_3344u32.to_le_bytes()), "memory holds the fill");
    assert_eq!(cp.deferred_count(), 0);
}

/// A fill over the whole pending target drops the frame rather than writing it back, and forgets
/// what memory held, so the next read is a full one. No frame reader is installed, so a
/// write-back would fail the fill.
#[test]
fn a_fill_over_the_whole_pending_target_drops_the_frame_unwritten() {
    let memory = vec![0u8; span()];
    let mut cp: Driver<Fake, Region, Ramp> = Driver::new(None, Region::new(BASE, memory.clone()), None);
    cp.remember_written(BASE, memory);
    cp.set_pending(Some((target(), ComponentSwap::Standard)));
    assert!(cp.fill(BASE, 0x5566_7788, span()), "filled, not written back first");
    assert!(cp.pending_target().is_none(), "the frame is dropped");
    assert!(cp.remembered_base().is_none(), "and the next read of the target is a full one");
    assert!(cp.guest.bytes.chunks_exact(4).all(|w| w == 0x5566_7788u32.to_le_bytes()));
}

/// A copy of the pending target is deferred, carried out at the first fault on its destination,
/// and that fault is answered again, once carried out, for a thread that faulted meanwhile.
#[test]
fn a_deferred_copy_is_carried_out_at_the_first_fault_on_its_destination() {
    let destination = BASE + 0x2_0000;
    let mut bytes = vec![0x5Au8; 0x4_0000];
    bytes[..span()].fill(0x33);
    let mut cp: Driver<Fake, Region, Ramp> = Driver::new(Some(Fake::default()), Region::new(BASE, bytes), None);
    let held = cp.guest.bytes[..span()].to_vec();
    cp.remember_written(BASE, held.clone());
    cp.set_pending(Some((target(), ComponentSwap::Standard)));

    assert!(cp.copy(BASE, destination, span()), "deferred");
    assert_eq!(cp.deferred_count(), 1);
    assert!(cp.guest.bytes[0x2_0000..0x3_0000].iter().all(|&b| b == 0x5A), "nothing copied yet");
    assert!(cp.pending_target().is_some(), "the frame stays on the device");

    assert!(!cp.carry_out_at(BASE + 0x3_8000), "a fault elsewhere is not this driver's");
    assert!(cp.carry_out_at(destination + 100), "carried out");
    assert_eq!(cp.deferred_count(), 0);
    assert_eq!(&cp.guest.bytes[0x2_0000..0x3_0000], tiled_over(&held).as_slice());
    assert!(cp.carry_out_at(destination + 100), "resolved a moment ago: retry");
}

/// A second copy to the same destination supersedes the first, unread: one copy stays deferred,
/// its snapshot replacing the first's.
#[test]
fn a_second_copy_to_the_same_destination_supersedes_the_first() {
    let destination = BASE + 0x2_0000;
    let mut cp: Driver<Fake, Region, Ramp> =
        Driver::new(Some(Fake::default()), Region::new(BASE, vec![0u8; 0x3_0000]), None);
    cp.remember_written(BASE, vec![0u8; span()]);
    cp.set_pending(Some((target(), ComponentSwap::Standard)));
    assert!(cp.copy(BASE, destination, span()));
    assert!(cp.copy(BASE, destination, span()));
    assert_eq!(cp.deferred_count(), 1);
    let hooks = cp.hooks.as_ref().unwrap();
    assert_eq!(hooks.discarded, 1, "the first snapshot is replaced");
    assert_eq!(hooks.taken, 0, "and never read");
}

/// Without hooks nothing is deferred: a copy out of the pending target writes the frame back
/// first, which fails without a frame reader, so the copy does.
#[test]
fn without_hooks_a_copy_out_of_a_pending_target_waits_for_its_write_back() {
    let mut cp: Driver<Fake, Region, Ramp> = Driver::new(None, Region::new(BASE, vec![0u8; 0x3_0000]), None);
    cp.remember_written(BASE, vec![0u8; span()]);
    cp.set_pending(Some((target(), ComponentSwap::Standard)));
    assert!(!cp.copy(BASE, BASE + 0x2_0000, span()));
    assert!(cp.pending_target().is_none(), "the frame is dropped rather than left pending");
    assert_eq!(cp.deferred_count(), 0);
}

/// Drawn at the flip, a frame is left pending on the device; written back when it cannot wait, it
/// lands tiled over what the target held, and the next submission's drawer is told it holds the
/// target already.
#[test]
fn a_frame_drawn_for_the_flip_is_written_back_when_the_flip_cannot_wait() {
    let memory = vec![0x20u8; span()];
    let drawer = Ramp { draws: true, handed: None };
    let mut cp: Driver<Fake, Region, Ramp> = Driver::new(None, Region::new(BASE, memory.clone()), Some(drawer));
    cp.drawing = Some((target(), ComponentSwap::Standard));
    assert!(cp.run_draws());
    assert_eq!(cp.pending_target(), Some((target(), ComponentSwap::Standard)));
    assert_eq!(cp.guest.bytes, memory, "left on the device");
    let handed = cp.drawer.as_mut().and_then(|d| d.handed.take()).flatten();
    assert_eq!(handed.map(|w| w.len()), Some(128), "handed the target as it was");

    assert!(cp.write_back_at_this_flip(), "written now: no hooks to defer it with");
    assert!(cp.pending_target().is_none());
    assert_eq!(cp.guest.bytes, tiled_over(&memory));

    assert!(cp.run_draws());
    let handed = cp.drawer.as_mut().and_then(|d| d.handed.take());
    assert_eq!(handed, Some(None), "unchanged since it was written: the drawer holds it");
}

/// After every submission rather than at the flip, a drawn frame is written back at once; a
/// drawer that fails leaves memory alone and what the target held forgotten.
#[test]
fn a_frame_drawn_after_every_submission_is_written_back_at_once() {
    let memory = vec![0x20u8; span()];
    let drawer = Ramp { draws: true, handed: None };
    let mut cp: Driver<Fake, Region, Ramp> = Driver::new(None, Region::new(BASE, memory.clone()), Some(drawer));
    cp.drawing = Some((target(), ComponentSwap::Standard));
    cp.write_back_at_flip = false;
    assert!(cp.run_draws());
    assert!(cp.pending_target().is_none());
    assert_eq!(cp.guest.bytes, tiled_over(&memory));

    cp.drawer.as_mut().unwrap().draws = false;
    cp.guest.bytes[0] ^= 0xff;
    let now = cp.guest.bytes.clone();
    assert!(!cp.run_draws());
    assert_eq!(cp.guest.bytes, now);
    assert!(cp.remembered_base().is_none());
}

/// Nothing is drawn without a drawer, or outside a submission whose target can be written back.
#[test]
fn draws_need_a_drawer_and_a_target() {
    let mut cp: Driver<Fake, Region, Ramp> = Driver::new(None, Region::new(BASE, vec![0u8; span()]), None);
    cp.drawing = Some((target(), ComponentSwap::Standard));
    assert!(!cp.run_draws(), "no drawer");
    cp.drawer = Some(Ramp { draws: true, handed: None });
    cp.drawing = None;
    assert!(!cp.run_draws(), "no target");
}

/// A range carried out is remembered so a thread that faulted on it retries, but only the most
/// recent few are.
#[test]
fn only_the_most_recent_resolved_ranges_are_remembered() {
    let mut cp: Driver<Fake, Region, Ramp> =
        Driver::new(Some(Fake::default()), Region::new(BASE, vec![0u8; span()]), None);
    cp.remember_written(BASE, vec![0u8; span()]);
    for _ in 0..RESOLVED_KEPT + 8 {
        cp.protect_target(target());
        assert!(cp.written_at(BASE));
    }
    assert_eq!(cp.resolved.len(), RESOLVED_KEPT);
    assert_eq!(cp.hooks.as_ref().map(|h| h.released), Some((RESOLVED_KEPT + 8) as u64));
}
