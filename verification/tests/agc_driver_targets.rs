use orbistoun_gpu::agc_driver::{
    draw_over, memory_order, overlaps_target, page_span, ranges_overlap, record_execution, regions_contain, submit_descriptor, swapped, writable_target,
    Before, ExecutionRecord, TargetMemo,
};
use orbistoun_gpu::cp::{CpExecution, CpMemory, Stopped};
use orbistoun_gpu::pipeline::Submission;
use orbistoun_gpu::registers::{
    decode_colour_target_format, ColourTarget, ColourTargetExtent, ColourTargetFormat, ComponentSwap, SwizzleMode,
};
use orbistoun_gpu::tiling::{detile_surface_64kb_rx_bpp4_mapped, tiled_byte_offset_64kb_rx_bpp4_surface as at};

#[test]
fn a_range_overlaps_a_target_when_it_shares_a_byte_with_its_surface() {
    let target = ColourTarget { base: 0x10_0000, width: 16, height: 8 };
    assert!(!overlaps_target(target, 0x0f_ff00, 0x100), "ends at the base");
    assert!(overlaps_target(target, 0x0f_ff00, 0x101), "reaches the first byte");
    assert!(overlaps_target(target, 0x10_ffff, 1), "the block's last byte");
    assert!(!overlaps_target(target, 0x11_0000, 4), "just past the block");
    assert!(overlaps_target(target, 0, u64::MAX), "spans it");
}

#[test]
fn a_swap_alt_target_stores_blue_first_and_round_trips() {
    let blue = 0xff19_0000;
    assert_eq!(swapped(blue, ComponentSwap::Alternate), 0xff00_0019);
    assert_eq!(swapped(swapped(0x4433_2211, ComponentSwap::Alternate), ComponentSwap::Alternate), 0x4433_2211);
    assert_eq!(swapped(blue, ComponentSwap::Standard), blue);
    assert_eq!(memory_order(blue, ComponentSwap::Alternate), 0xff00_0019);
}

/// One 64 KiB block of guest memory at `BASE`; everything else unmapped.
struct Block(Vec<u8>);

const BASE: u64 = 0x10_0000;

impl CpMemory for Block {
    fn read(&mut self, address: u64, length: usize) -> Option<Vec<u8>> {
        let start = usize::try_from(address.checked_sub(BASE)?).ok()?;
        self.0.get(start..start + length).map(<[u8]>::to_vec)
    }
    fn write(&mut self, address: u64, bytes: &[u8]) -> bool {
        let Some(start) = address.checked_sub(BASE).and_then(|s| usize::try_from(s).ok()) else {
            return false;
        };
        match self.0.get_mut(start..start + bytes.len()) {
            Some(dest) => {
                dest.copy_from_slice(bytes);
                true
            }
            None => false,
        }
    }
    fn timestamp(&mut self) -> u64 {
        1
    }
}

fn words_of(bytes: &[u8]) -> Vec<u32> {
    bytes.chunks_exact(4).map(|w| u32::from_le_bytes([w[0], w[1], w[2], w[3]])).collect()
}

#[test]
fn a_drawn_frame_is_written_back_tiled_over_the_target_s_own_contents() {
    let (width, height) = (16u32, 8u32);
    let mut memory = Block(vec![0; 65536]);
    for y in 0..height {
        for x in 0..width {
            let o = at(x, y, width);
            memory.0[o..o + 4].copy_from_slice(&[0xff, 0, 0, 0xff]);
        }
    }
    let target = ColourTarget { base: BASE, width, height };
    let mut memo = TargetMemo::new();
    let mut seen = None;
    let wrote = draw_over(&mut memory, &mut memo, target, ComponentSwap::Alternate, |before| {
        seen = before.to_words(128).and_then(|b| b.first().copied());
        Some((0..width * height).map(|i| 0xff00_0000 | (i & 0xff)).collect())
    });
    assert!(wrote);
    assert_eq!(seen, Some(0xffff_0000), "the draw starts from the guest's blue, as Rgba8");
    let o = at(3, 5, width);
    let red = u8::try_from(5 * width + 3).expect("small");
    assert_eq!(&memory.0[o..o + 4], &[0, 0, red, 0xff], "red third in B, G, R, A");

    let mut handed = Some(Vec::new());
    draw_over(&mut memory, &mut memo, target, ComponentSwap::Alternate, |before| {
        handed = before.to_words(128);
        Some(vec![0xff00_0000; (width * height) as usize])
    });
    assert_eq!(handed, None, "unchanged since it was written");
    memory.0[0] ^= 0xff;
    draw_over(&mut memory, &mut memo, target, ComponentSwap::Alternate, |before| {
        handed = before.to_words(128);
        None
    });
    assert!(handed.is_some(), "changed by the guest, so read again");
}

#[test]
fn a_uniform_target_reads_as_its_detile_would() {
    let (width, height) = (16u32, 8u32);
    let clear = 0xff10_2030u32;
    let mut memory = Block(clear.to_le_bytes().repeat(65536 / 4));
    let target = ColourTarget { base: BASE, width, height };
    let expected = detile_surface_64kb_rx_bpp4_mapped(&words_of(&memory.0), width, height, |w| {
        swapped(w, ComponentSwap::Alternate)
    });
    let mut memo = TargetMemo::new();
    let mut handed = None;
    draw_over(&mut memory, &mut memo, target, ComponentSwap::Alternate, |before| {
        assert!(matches!(before, Before::Uniform(_)));
        handed = before.to_words(128);
        None
    });
    assert_eq!(handed, Some(expected), "every pixel, in the target's byte order");
}

#[test]
fn a_target_outside_guest_memory_is_refused_unwritten() {
    let mut memory = Block(vec![0x5a; 65536]);
    let target = ColourTarget { base: BASE + 0x1_0000, width: 16, height: 8 };
    let mut memo = TargetMemo::new();
    let mut ran = false;
    let wrote = draw_over(&mut memory, &mut memo, target, ComponentSwap::Standard, |before| {
        ran = true;
        before.to_words(128)
    });
    assert!(!wrote && !ran);
    assert!(memory.0.iter().all(|&b| b == 0x5a));
}

#[test]
fn a_drawer_answering_the_wrong_size_writes_nothing() {
    let mut memory = Block(vec![0x11; 65536]);
    let target = ColourTarget { base: BASE, width: 16, height: 8 };
    let mut memo = TargetMemo::new();
    let wrote = draw_over(&mut memory, &mut memo, target, ComponentSwap::Standard, |_| Some(vec![0; 3]));
    assert!(!wrote);
    assert!(memory.0.iter().all(|&b| b == 0x11));
}

#[test]
fn pages_round_out_and_ranges_overlap_by_a_shared_byte() {
    assert_eq!(page_span(0x1234, 0x10), (0x1000, 0x1000));
    assert_eq!(page_span(0x1fff, 2), (0x1000, 0x2000));
    assert_eq!(page_span(u64::MAX - 5, 100).0, u64::MAX & !0xfff);
    assert!(ranges_overlap((0x1000, 0x10), (0x100f, 1)));
    assert!(!ranges_overlap((0x1000, 0x10), (0x1010, 1)));
}

#[test]
fn an_execution_is_counted_into_the_run() {
    let mut record = ExecutionRecord::default();
    let executed = CpExecution {
        fills: 1,
        copies: 0,
        releases: 1,
        waits: 0,
        draws: 2,
        bytes_written: 68,
        stopped: Stopped::Completed,
    };
    record_execution(&mut record, executed);
    record_execution(&mut record, CpExecution { draws: 0, stopped: Stopped::Malformed { offset: 0 }, ..executed });
    assert_eq!((record.submissions, record.completed, record.drawn, record.bytes_written), (2, 1, 1, 136));
    assert_eq!(record.last.map(|e| e.stopped), Some(Stopped::Malformed { offset: 0 }));
}

/// Only a target a frame can be written into exactly qualifies: single-base, single-target,
/// `64KB_R_X`, `8_8_8_8` `UNORM`; a second base, linear tiling or no format each refuses.
#[test]
fn a_writable_target_needs_one_tiled_rgba8_surface() {
    let mut submission = Submission {
        colour_target: Some(ColourTarget { base: 0x7400_0000_0000, width: 1920, height: 1080 }),
        colour_target_tiling: Some(SwizzleMode::Tiled64KbRX),
        colour_target_format: Some(decode_colour_target_format(0x0001_80a8 | (1 << 11))),
        colour_target_bases: 1,
        ..Submission::default()
    };
    submission.targets.insert(1, ColourTargetExtent { width: 1920, height: 1080 });
    assert!(writable_target(&submission).is_some());
    let refused = |change: fn(&mut Submission)| {
        let mut changed = submission.clone();
        change(&mut changed);
        writable_target(&changed).is_none()
    };
    assert!(refused(|s| s.colour_target_bases = 2));
    assert!(refused(|s| s.colour_target_tiling = Some(SwizzleMode::Linear)));
    assert!(refused(|s| s.colour_target_format = None));
}

/// A target of another extent, a second target, or none resident, refuses too; the answer is the
/// target and the byte order its format names.
#[test]
fn a_writable_target_is_the_one_resident_target_in_its_byte_order() {
    let target = ColourTarget { base: 0x7400_0000_0000, width: 1920, height: 1080 };
    let mut submission = Submission {
        colour_target: Some(target),
        colour_target_tiling: Some(SwizzleMode::Tiled64KbRX),
        colour_target_format: Some(decode_colour_target_format(0x0001_80a8 | (1 << 11))),
        colour_target_bases: 1,
        ..Submission::default()
    };
    assert!(writable_target(&submission).is_none(), "nothing resident");
    submission.targets.insert(1, ColourTargetExtent { width: 1920, height: 1080 });
    assert_eq!(writable_target(&submission), Some((target, ComponentSwap::Alternate)));
    let mut other = submission.clone();
    other.targets.insert(1, ColourTargetExtent { width: 64, height: 64 });
    assert!(writable_target(&other).is_none(), "another extent");
    let mut two = submission.clone();
    two.targets.insert(2, ColourTargetExtent { width: 1920, height: 1080 });
    assert!(writable_target(&two).is_none(), "two targets");
    let _: Option<ColourTargetFormat> = submission.colour_target_format;
}

#[test]
fn a_submit_descriptor_names_its_buffer_or_is_refused() {
    let mut desc = [0u8; 16];
    desc[..8].copy_from_slice(&0x2_0000_1000u64.to_le_bytes());
    desc[8..12].copy_from_slice(&16u32.to_le_bytes());
    assert_eq!(submit_descriptor(&desc), Some((0x2_0000_1000, 64)));
    let mut empty = desc;
    empty[8..12].copy_from_slice(&0u32.to_le_bytes());
    assert_eq!(submit_descriptor(&empty), None);
    let mut absurd = desc;
    absurd[8..12].copy_from_slice(&((1u32 << 22) + 1).to_le_bytes());
    assert_eq!(submit_descriptor(&absurd), None);
    assert_eq!(submit_descriptor(&[0u8; 16]), None);
}

#[test]
fn a_range_is_readable_only_wholly_inside_one_region() {
    let regions = [(0x1000, 0x2000), (0x3000, 0x4000)];
    assert!(regions_contain(&regions, 0x1000, 0x1000));
    assert!(!regions_contain(&regions, 0x1800, 0x1000), "straddles a gap");
    assert!(regions_contain(&regions, 0x3ff0, 0x10));
    assert!(!regions_contain(&regions, u64::MAX, 2), "an overflowing end");
    assert!(!regions_contain(&[], 0x1000, 1));
}
