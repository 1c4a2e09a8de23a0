use orbistoun_gpu::cp::{
    dma_plan, execute, interleaved_with_draws, is_memory_inert, release_plan, wait_holds, wait_plan, CpMemory,
    DmaPlan, ReleasePlan, Stopped, WaitPlan, WAIT_REG_MEM,
};
use orbistoun_gpu::packet::build::{command_header, measured};
use orbistoun_gpu::packet::walk;
use std::collections::BTreeMap;

/// Sparse guest memory over `[0x1000, 0x9000)`; everything else is unmapped.
#[derive(Default)]
struct Fake {
    bytes: BTreeMap<u64, u8>,
    clock: u64,
}

impl Fake {
    fn mapped(address: u64, length: usize) -> bool {
        address >= 0x1000 && address + length as u64 <= 0x9000
    }
    fn word(&self, address: u64) -> u32 {
        let b = |i| self.bytes.get(&(address + i)).copied().unwrap_or(0);
        u32::from_le_bytes([b(0), b(1), b(2), b(3)])
    }
}

impl CpMemory for Fake {
    fn read(&mut self, address: u64, length: usize) -> Option<Vec<u8>> {
        Self::mapped(address, length)
            .then(|| (0..length as u64).map(|i| self.bytes.get(&(address + i)).copied().unwrap_or(0)).collect())
    }
    fn write(&mut self, address: u64, bytes: &[u8]) -> bool {
        if !Self::mapped(address, bytes.len()) {
            return false;
        }
        for (i, b) in bytes.iter().enumerate() {
            self.bytes.insert(address + i as u64, *b);
        }
        true
    }
    fn timestamp(&mut self) -> u64 {
        self.clock += 1;
        0x1_0000_0000 + self.clock
    }
}

fn fill(dst: u64, value: u32, bytes: u32) -> Vec<u32> {
    vec![
        command_header(measured::DMA_DATA, 6),
        0x8000_0000 | (2 << 29) | (3 << 20),
        value,
        0,
        dst as u32,
        (dst >> 32) as u32,
        bytes,
    ]
}

fn copy(src: u64, dst: u64, bytes: u32) -> Vec<u32> {
    vec![
        command_header(measured::DMA_DATA, 6),
        0x8000_0000 | (3 << 29) | (3 << 20),
        src as u32,
        (src >> 32) as u32,
        dst as u32,
        (dst >> 32) as u32,
        bytes,
    ]
}

fn release(dst: u64, data_sel: u32, value: u32) -> Vec<u32> {
    vec![command_header(measured::RELEASE_MEM, 7), 0x0660_3514, data_sel << 29, dst as u32, (dst >> 32) as u32, value, 0, 0]
}

fn wait_equal(address: u64, reference: u32) -> Vec<u32> {
    vec![command_header(WAIT_REG_MEM, 6), 0x13, address as u32, (address >> 32) as u32, reference, 0xffff_ffff, 4]
}

fn bytes(words: &[u32]) -> Vec<u8> {
    words.iter().flat_map(|w| w.to_le_bytes()).collect()
}

#[test]
fn a_clear_self_test_stream_runs_to_its_fence_and_its_readback() {
    let (target, fence, readback) = (0x2000_u64, 0x1000_u64, 0x4000_u64);
    let mut stream = vec![command_header(measured::SET_CONTEXT_REG, 2), 0x318, 0x1];
    stream.extend(fill(target, 0xff20_4060, 64));
    stream.extend(release(fence, 1, 0xbeef_cafe));
    stream.extend(wait_equal(fence, 0xbeef_cafe));
    stream.extend(copy(target, readback, 64));
    stream.extend(release(fence + 8, 3, 0));
    let mut memory = Fake::default();
    let done = execute(&bytes(&stream), &mut memory);
    assert_eq!(done.stopped, Stopped::Completed, "{done:?}");
    assert_eq!((done.fills, done.copies, done.releases, done.waits), (1, 1, 2, 1));
    assert_eq!(done.bytes_written, 64 + 4 + 64 + 8);
    assert_eq!(memory.word(fence), 0xbeef_cafe, "the fence the guest polls");
    assert_ne!(memory.word(fence + 8) | memory.word(fence + 12), 0, "and a non-zero clock");
    for pixel in 0..16 {
        assert_eq!(memory.word(readback + pixel * 4), 0xff20_4060, "pixel {pixel}");
    }
}

#[test]
fn a_draw_before_the_fence_leaves_the_fence_unwritten() {
    let fence = 0x1000_u64;
    let mut stream = fill(0x2000, 0x1111_1111, 16);
    stream.extend([command_header(measured::DRAW_INDEX_AUTO, 2), 3, 2]);
    stream.extend(release(fence, 1, 0xbeef_cafe));
    let mut memory = Fake::default();
    let done = execute(&bytes(&stream), &mut memory);
    assert!(matches!(done.stopped, Stopped::NeedsGpu { opcode: measured::DRAW_INDEX_AUTO, .. }), "{done:?}");
    assert_eq!(done.fills, 1, "the fill before the draw is real");
    assert_eq!(done.releases, 0, "the release after it is never reached");
    assert_eq!(memory.word(fence), 0, "no fence for a draw that did not run");
}

/// Memory whose draws the executor carries out, once, by writing a marker where they draw - or
/// refuses, when `draws` is false.
struct Drawing {
    inner: Fake,
    draws: bool,
    asked: usize,
}

impl CpMemory for Drawing {
    fn read(&mut self, address: u64, length: usize) -> Option<Vec<u8>> {
        self.inner.read(address, length)
    }
    fn write(&mut self, address: u64, bytes: &[u8]) -> bool {
        self.inner.write(address, bytes)
    }
    fn timestamp(&mut self) -> u64 {
        self.inner.timestamp()
    }
    fn run_draws(&mut self) -> bool {
        self.asked += 1;
        self.draws && self.inner.write(0x3000, &0xd4a7_d4a7_u32.to_le_bytes())
    }
}

fn draw() -> [u32; 3] {
    [command_header(measured::DRAW_INDEX_AUTO, 2), 3, 2]
}

#[test]
fn draws_carried_out_together_let_the_fence_after_them_retire() {
    let fence = 0x1000_u64;
    let mut stream = fill(0x2000, 0x1111_1111, 16);
    for _ in 0..3 {
        stream.extend([command_header(measured::SET_SH_REG, 2), 0x8c, 7]);
        stream.extend(draw());
    }
    stream.extend(release(fence, 1, 0xbeef_cafe));
    let mut memory = Drawing { inner: Fake::default(), draws: true, asked: 0 };
    let done = execute(&bytes(&stream), &mut memory);
    assert_eq!(done.stopped, Stopped::Completed, "{done:?}");
    assert_eq!((done.draws, memory.asked), (3, 1), "three draws, one run");
    assert_eq!(memory.inner.word(0x3000), 0xd4a7_d4a7, "what they drew");
    assert_eq!(memory.inner.word(fence), 0xbeef_cafe, "the fence retires");
}

#[test]
fn draws_the_executor_refuses_still_stop_before_the_fence() {
    let fence = 0x1000_u64;
    let mut stream = draw().to_vec();
    stream.extend(release(fence, 1, 0xbeef_cafe));
    let mut memory = Drawing { inner: Fake::default(), draws: false, asked: 0 };
    let done = execute(&bytes(&stream), &mut memory);
    assert!(matches!(done.stopped, Stopped::NeedsGpu { .. }), "{done:?}");
    assert_eq!(memory.asked, 1);
    assert_eq!(memory.inner.word(fence), 0);
}

#[test]
fn memory_work_between_draws_is_refused_before_any_draw_runs() {
    let fence = 0x1000_u64;
    let mut stream = draw().to_vec();
    let between = u32::try_from(stream.len() * 4).expect("small");
    stream.extend(fill(0x2000, 0x2222_2222, 16));
    stream.extend(draw());
    stream.extend(release(fence, 1, 0xbeef_cafe));
    let mut memory = Drawing { inner: Fake::default(), draws: true, asked: 0 };
    let done = execute(&bytes(&stream), &mut memory);
    assert_eq!(done.stopped, Stopped::DrawsInterleaved { offset: between, opcode: measured::DMA_DATA });
    assert_eq!(memory.asked, 0, "the executor is never asked");
    assert_eq!(memory.inner.word(fence), 0);
    let walked = walk(&bytes(&stream));
    assert_eq!(interleaved_with_draws(&walked.packets), Some((between, measured::DMA_DATA)));
}

#[test]
fn an_unsatisfiable_wait_and_an_unmapped_target_both_stop_execution() {
    let mut stream = wait_equal(0x1000, 0xbeef_cafe);
    stream.extend(release(0x1000, 1, 0x1));
    let mut memory = Fake::default();
    let done = execute(&bytes(&stream), &mut memory);
    assert!(matches!(done.stopped, Stopped::WaitNeverSatisfied { .. }), "{done:?}");
    assert_eq!(memory.word(0x1000), 0, "nothing after the wait ran");
    let done = execute(&bytes(&fill(0xdead_0000, 0x5, 16)), &mut memory);
    assert!(matches!(done.stopped, Stopped::OutOfBounds { .. }), "{done:?}");
    assert_eq!(done.bytes_written, 0);
    let mut overrun = fill(0x2000, 0x7777_7777, 16);
    overrun.push(command_header(measured::DMA_DATA, 6));
    let done = execute(&bytes(&overrun), &mut memory);
    assert_eq!(done.stopped, Stopped::Malformed { offset: 0 });
    assert_eq!(memory.word(0x2000), 0, "an untrusted walk executes nothing");
}

#[test]
fn the_plans_read_each_packets_layout() {
    assert_eq!(dma_plan(&[0, 0, 0]), DmaPlan::Malformed);
    assert_eq!(
        dma_plan(&[(2 << 29) | (3 << 20), 0xabcd, 0, 0x2000, 1, 16]),
        DmaPlan::Fill { destination: 0x1_0000_2000, pattern: 0xabcd, count: 16 }
    );
    assert_eq!(dma_plan(&[(2 << 29) | (1 << 20), 0, 0, 0, 0, 16]), DmaPlan::NeedsGpu, "GDS is not memory");
    assert_eq!(dma_plan(&[(2 << 29), 0, 0, 0, 0, 0x1000_0010]), DmaPlan::NeedsGpu, "a held address");
    assert_eq!(dma_plan(&[(1 << 29), 0, 0, 0, 0, 0]), DmaPlan::Empty { fill: false });
    assert_eq!(release_plan(&[0, 2 << 29, 0x10, 0, 1, 2]), ReleasePlan::Value64 { address: 0x10, value: 0x2_0000_0001 });
    assert_eq!(release_plan(&[0, 5 << 29, 0, 0, 0, 0]), ReleasePlan::NeedsGpu);
    assert_eq!(wait_plan(&[0x3, 0, 0, 0, 0]), WaitPlan::NeedsGpu, "a register wait");
    assert_eq!(
        wait_plan(&[0x13, 0x1003, 0, 7, 0xff]),
        WaitPlan::Check { address: 0x1000, function: 3, reference: 7, mask: 0xff }
    );
    assert_eq!(wait_holds(5, 0x1ff, 0xff, 0xfe), Some(true));
    assert_eq!(wait_holds(4, 7, 0xff, 7), Some(false));
    assert_eq!(wait_holds(6, 7, 0xff, 7), None);
    assert!(is_memory_inert(measured::EVENT_WRITE, 1));
    assert!(!is_memory_inert(measured::EVENT_WRITE, 3));
}

#[test]
fn the_default_fill_and_copy_go_through_read_and_write() {
    let mut memory = Fake::default();
    assert!(memory.fill(0x1000, 0x0403_0201, 6));
    assert_eq!(memory.word(0x1000), 0x0403_0201);
    assert_eq!(memory.word(0x1004), 0x0000_0201);
    assert!(memory.copy(0x1000, 0x2000, 4));
    assert!(memory.holds(0x2000, &[1, 2, 3, 4]));
    assert!(!memory.copy(0x1000, 0x9000, 4));
    assert!(!memory.run_draws());
}

#[test]
fn a_stream_of_state_and_inert_packets_completes_having_done_nothing() {
    let stream = bytes(&[
        command_header(measured::SET_SH_REG, 2),
        0x0C,
        0xA0,
        command_header(measured::NOP, 1),
        0,
        command_header(measured::NUM_INSTANCES, 1),
        1,
    ]);
    let mut memory = Fake::default();
    let run = execute(&stream, &mut memory);
    assert_eq!(run.stopped, Stopped::Completed);
    assert_eq!((run.fills, run.copies, run.releases, run.waits, run.draws, run.bytes_written), (0, 0, 0, 0, 0, 0));
    assert!(memory.bytes.is_empty(), "memory untouched");
}

#[test]
fn the_work_before_a_stop_is_counted_and_nothing_after_it() {
    let mut words = fill(0x2000, 0x1111_1111, 16);
    words.push(command_header(0x3F, 1));
    words.push(0);
    words.extend(release(0x3000, 1, 0xF00D));
    let stream = bytes(&words);
    let mut memory = Fake::default();
    let run = execute(&stream, &mut memory);
    assert!(matches!(run.stopped, Stopped::NeedsGpu { opcode: 0x3F, .. }));
    assert_eq!((run.fills, run.releases, run.bytes_written), (1, 0, 16));
    assert_eq!(memory.word(0x3000), 0, "the fence after the stop is never written");
}
