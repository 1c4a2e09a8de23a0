//! The command processor's own memory work, carried out at submit.
//!
//! A part of a submitted stream is work the command processor does itself, against memory, with
//! no shader involved: `DMA_DATA` fills and copies, `RELEASE_MEM`'s end-of-pipe write of a value
//! or the clock counter, `WAIT_REG_MEM`'s check of a memory word. That work is reproducible on the
//! CPU. The stream is walked in order and execution **stops at the first packet that needs the
//! GPU**, so a fence is written only when every packet before it has been carried out or has no
//! effect on memory. A stream's draws are carried out together, at its first draw, through
//! [`CpMemory::run_draws`] - and only when nothing between the first draw and the last touches
//! memory.
use vstd::prelude::*;
use crate::packet::{Packet, PacketKind, walk, walk_from};
use crate::packet::build::measured;

verus! {

/// `PKT3_WAIT_REG_MEM`.
pub const WAIT_REG_MEM: u8 = 0x3c;

/// `DMA_DATA` `SRC_SEL`: the source is the packet's own data word.
pub const SRC_SEL_DATA: u32 = 2;

/// `CP_DMA_ME_COMMAND.BYTE_COUNT`, bits 25:0.
pub const BYTE_COUNT_MASK: u32 = 0x03ff_ffff;

/// `CP_DMA_ME_COMMAND` `SAIC`/`DAIC`: hold the source/destination address rather than increment
/// it. Not reproduced; a packet asking for either stops execution.
pub const ADDRESS_HOLD_BITS: u32 = 0x3000_0000;

/// `WAIT_REG_MEM`'s memory-space bit: the word waited on is in memory, not a register.
pub const WAIT_MEM_SPACE: u32 = 0x10;

/// One request made of a [`CpMemory`], with the answer it got.
pub enum MemoryRequest {
    /// `length` bytes read at `address`: the bytes, or `None` when the range is not readable.
    Read { address: u64, length: nat, answer: Option<Seq<u8>> },
    /// `bytes` written at `address`: whether the range was writable.
    Write { address: u64, bytes: Seq<u8>, answer: bool },
    /// The clock counter read.
    Timestamp { answer: u64 },
    /// Whether the memory at `address` holds `expected`.
    Holds { address: u64, expected: Seq<u8>, answer: bool },
    /// `count` bytes at `address` filled with `pattern`: whether the range was writable.
    Fill { address: u64, pattern: u32, count: nat, answer: bool },
    /// `count` bytes copied from `source` to `destination`: whether both ranges could be used.
    Copy { source: u64, destination: u64, count: nat, answer: bool },
    /// The stream's draws carried out: whether they were.
    RunDraws { answer: bool },
}

/// The bytes a read answered, by value.
pub open spec fn answer_bytes(r: Option<Vec<u8>>) -> Option<Seq<u8>> {
    match r {
        Some(v) => Some(v@),
        None => None,
    }
}

/// Whether the record `after` is `before` with entries added at its end.
pub open spec fn extends<A>(before: Seq<A>, after: Seq<A>) -> bool {
    before.len() <= after.len() && after.take(before.len() as int) == before
}

/// The entries `after` holds beyond `before`.
pub open spec fn made_since<A>(before: Seq<A>, after: Seq<A>) -> Seq<A> {
    after.skip(before.len() as int)
}

/// Whether `made` is how a fill of `count` bytes of `pattern` at `address`, answered `r`, was
/// asked: as that fill, or as the write of the pattern's bytes.
pub open spec fn asked_to_fill(made: Seq<MemoryRequest>, address: u64, pattern: u32, count: nat, r: bool) -> bool {
    ||| made == seq![MemoryRequest::Fill { address, pattern, count, answer: r }]
    ||| made == seq![MemoryRequest::Write { address, bytes: spec_pattern_bytes(pattern, count), answer: r }]
}

/// Whether `made` is how a copy of `count` bytes from `source` to `destination`, answered `r`,
/// was asked: as that copy, or as the read of the source followed, when it was readable, by the
/// write of what was read.
pub open spec fn asked_to_copy(
    made: Seq<MemoryRequest>,
    source: u64,
    destination: u64,
    count: nat,
    r: bool,
) -> bool {
    ||| made == seq![MemoryRequest::Copy { source, destination, count, answer: r }]
    ||| made == seq![MemoryRequest::Read { address: source, length: count, answer: None }] && !r
    ||| made.len() == 2 && match made[0] {
        MemoryRequest::Read { address: a, length: n, answer: Some(b) } => a == source && n == count
            && made[1] == (MemoryRequest::Write { address: destination, bytes: b, answer: r }),
        _ => false,
    }
}

/// Whether `made` is how a check that `address` holds `expected`, answered `r`, was asked: as
/// that check, or as a read whose answer is compared.
pub open spec fn asked_to_hold(made: Seq<MemoryRequest>, address: u64, expected: Seq<u8>, r: bool) -> bool {
    ||| made == seq![MemoryRequest::Holds { address, expected, answer: r }]
    ||| made.len() == 1 && match made[0] {
        MemoryRequest::Read { address: a, length: n, answer } => a == address && n == expected.len() && r
            == (answer == Some(expected)),
        _ => false,
    }
}

/// Whether `made` is how carrying out the stream's draws, answered `r`, was asked: as that
/// request, or - by a memory that carries out none - not at all.
pub open spec fn asked_to_draw(made: Seq<MemoryRequest>, r: bool) -> bool {
    ||| made == seq![MemoryRequest::RunDraws { answer: r }]
    ||| made.len() == 0 && !r
}

/// The memory the command processor works on, and the clock it stamps with. Implemented by the
/// embedder over guest memory; what each answer means for a submission is stated by the
/// functions that take it.
///
/// A memory may keep a record of the requests made of it, [`CpMemory::requests`]: one that does
/// says so through [`CpMemory::records_requests`], and then each method adds what it was asked,
/// with its answer, to the end of that record. That record is how the command processor's
/// contracts say what it handed to memory and in what order.
pub trait CpMemory {
    /// Whether this memory keeps the record of requests that the methods speak of. One that keeps
    /// none is promised nothing through it.
    closed spec fn records_requests() -> bool {
        false
    }

    /// The requests made of this memory so far, oldest first, each with its answer.
    closed spec fn requests(&self) -> Seq<MemoryRequest> {
        Seq::empty()
    }

    /// `length` bytes at `address`, or `None` when the range is not readable guest memory. Takes
    /// the memory mutably: an embedder may have to carry out work it deferred into the range
    /// before the range can be read.
    fn read(&mut self, address: u64, length: usize) -> (r: Option<Vec<u8>>)
        ensures
            Self::records_requests() ==> final(self).requests() == old(self).requests().push(
                MemoryRequest::Read { address, length: length as nat, answer: answer_bytes(r) },
            ),
    ;

    /// Writes `bytes` at `address`, or answers `false` when the range is not writable guest memory.
    fn write(&mut self, address: u64, bytes: &[u8]) -> (r: bool)
        ensures
            Self::records_requests() ==> final(self).requests() == old(self).requests().push(
                MemoryRequest::Write { address, bytes: bytes@, answer: r },
            ),
    ;

    /// The 64-bit GPU clock counter a `RELEASE_MEM` with `DATA_SEL` 3 writes.
    fn timestamp(&mut self) -> (r: u64)
        ensures
            Self::records_requests() ==> final(self).requests() == old(self).requests().push(
                MemoryRequest::Timestamp { answer: r },
            ),
    ;

    /// Whether the memory at `address` holds exactly `expected`. The default reads a copy and
    /// compares it.
    fn holds(&mut self, address: u64, expected: &[u8]) -> (r: bool)
        ensures
            Self::records_requests() ==> extends(old(self).requests(), final(self).requests())
                && asked_to_hold(made_since(old(self).requests(), final(self).requests()), address, expected@, r),
    {
        let ghost before = self.requests();
        let answer = self.read(address, expected.len());
        let r = match answer {
            Some(bytes) => bytes_equal(bytes.as_slice(), expected),
            None => false,
        };
        proof {
            if Self::records_requests() {
                assert(made_since(before, self.requests()) =~= seq![
                    MemoryRequest::Read { address, length: expected@.len(), answer: answer_bytes(answer) },
                ]);
                assert(self.requests().take(before.len() as int) =~= before);
            }
        }
        r
    }

    /// Fills `count` bytes at `address` with a four-byte pattern, or answers `false` when the range
    /// is not writable guest memory. The default builds the bytes and writes them.
    fn fill(&mut self, address: u64, pattern: u32, count: usize) -> (r: bool)
        ensures
            Self::records_requests() ==> extends(old(self).requests(), final(self).requests())
                && asked_to_fill(made_since(old(self).requests(), final(self).requests()), address, pattern, count as nat, r),
    {
        let ghost before = self.requests();
        let bytes = pattern_bytes(pattern, count);
        let r = self.write(address, bytes.as_slice());
        proof {
            if Self::records_requests() {
                assert(made_since(before, self.requests()) =~= seq![
                    MemoryRequest::Write { address, bytes: spec_pattern_bytes(pattern, count as nat), answer: r },
                ]);
                assert(self.requests().take(before.len() as int) =~= before);
            }
        }
        r
    }

    /// Copies `count` bytes from `source` to `destination`, or answers `false` when either range
    /// is not guest memory it may use. The default reads a copy and writes it.
    fn copy(&mut self, source: u64, destination: u64, count: usize) -> (r: bool)
        ensures
            Self::records_requests() ==> extends(old(self).requests(), final(self).requests())
                && asked_to_copy(made_since(old(self).requests(), final(self).requests()), source, destination, count as nat, r),
    {
        let ghost before = self.requests();
        match self.read(source, count) {
            Some(bytes) => {
                let r = self.write(destination, bytes.as_slice());
                proof {
                    if Self::records_requests() {
                        assert(made_since(before, self.requests()) =~= seq![
                            MemoryRequest::Read { address: source, length: count as nat, answer: Some(bytes@) },
                            MemoryRequest::Write { address: destination, bytes: bytes@, answer: r },
                        ]);
                        assert(self.requests().take(before.len() as int) =~= before);
                    }
                }
                r
            },
            None => {
                proof {
                    if Self::records_requests() {
                        assert(made_since(before, self.requests()) =~= seq![
                            MemoryRequest::Read { address: source, length: count as nat, answer: None },
                        ]);
                        assert(self.requests().take(before.len() as int) =~= before);
                    }
                }
                false
            },
        }
    }

    /// Carries out every draw in the stream, together, and writes what they drew into guest
    /// memory, answering whether that happened. The default carries out nothing, which leaves a
    /// draw the honest stop it always was.
    /// One that carries out nothing may keep no record of being asked.
    fn run_draws(&mut self) -> (r: bool)
        ensures
            Self::records_requests() ==> extends(old(self).requests(), final(self).requests())
                && asked_to_draw(made_since(old(self).requests(), final(self).requests()), r),
        default_ensures
            !r,
    {
        proof {
            if Self::records_requests() {
                assert(made_since(self.requests(), self.requests()) =~= Seq::<MemoryRequest>::empty());
                assert(self.requests().take(self.requests().len() as int) =~= self.requests());
            }
        }
        false
    }
}

/// Whether two byte runs are equal.
pub fn bytes_equal(a: &[u8], b: &[u8]) -> (r: bool)
    ensures
        r == (a@ == b@),
{
    if a.len() != b.len() {
        return false;
    }
    let mut i: usize = 0;
    while i < a.len()
        invariant
            a@.len() == b@.len(),
            i <= a@.len(),
            forall|j: int| 0 <= j < i ==> a@[j] == b@[j],
        decreases a@.len() - i,
    {
        if a[i] != b[i] {
            return false;
        }
        i = i + 1;
    }
    proof {
        assert(a@ =~= b@);
    }
    true
}

/// Byte `i` of a word's little-endian bytes, for `i` below four.
pub open spec fn word_byte(word: u32, i: int) -> u8 {
    if i == 0 {
        (word & 0xFFu32) as u8
    } else if i == 1 {
        ((word >> 8u32) & 0xFFu32) as u8
    } else if i == 2 {
        ((word >> 16u32) & 0xFFu32) as u8
    } else {
        ((word >> 24u32) & 0xFFu32) as u8
    }
}

/// `count` bytes of a four-byte pattern repeated, little-endian, the last repetition cut short.
pub open spec fn spec_pattern_bytes(pattern: u32, count: nat) -> Seq<u8> {
    Seq::new(count, |i: int| word_byte(pattern, i % 4))
}

/// `count` bytes of `pattern` repeated.
pub fn pattern_bytes(pattern: u32, count: usize) -> (r: Vec<u8>)
    ensures
        r@ == spec_pattern_bytes(pattern, count as nat),
{
    let mut bytes: Vec<u8> = Vec::new();
    let mut i: usize = 0;
    while i < count
        invariant
            i <= count,
            bytes@ == spec_pattern_bytes(pattern, i as nat),
        decreases count - i,
    {
        let lane = i % 4;
        let b: u8 = if lane == 0 {
            (pattern & 0xFFu32) as u8
        } else if lane == 1 {
            ((pattern >> 8u32) & 0xFFu32) as u8
        } else if lane == 2 {
            ((pattern >> 16u32) & 0xFFu32) as u8
        } else {
            ((pattern >> 24u32) & 0xFFu32) as u8
        };
        bytes.push(b);
        proof {
            assert(bytes@ =~= spec_pattern_bytes(pattern, i as nat + 1));
        }
        i = i + 1;
    }
    bytes
}

/// The little-endian bytes of a 64-bit value.
pub open spec fn spec_u64_bytes(value: u64) -> Seq<u8> {
    Seq::new(8, |i: int| ((value >> (8 * i) as u64) & 0xFFu64) as u8)
}

/// The little-endian bytes of a 64-bit value.
pub(crate) fn u64_bytes(value: u64) -> (r: Vec<u8>)
    ensures
        r@ == spec_u64_bytes(value),
{
    let mut bytes: Vec<u8> = Vec::new();
    let mut i: u64 = 0;
    while i < 8
        invariant
            i <= 8,
            bytes@ == spec_u64_bytes(value).take(i as int),
        decreases 8 - i,
    {
        bytes.push(((value >> (8 * i)) & 0xFFu64) as u8);
        proof {
            assert(bytes@ =~= spec_u64_bytes(value).take(i as int + 1));
        }
        i = i + 1;
    }
    proof {
        assert(spec_u64_bytes(value).take(8) =~= spec_u64_bytes(value));
    }
    bytes
}

/// The little-endian bytes of a 32-bit value.
pub open spec fn spec_u32_bytes(value: u32) -> Seq<u8> {
    Seq::new(4, |i: int| word_byte(value, i))
}

/// The little-endian bytes of a 32-bit value.
pub(crate) fn u32_bytes(value: u32) -> (r: Vec<u8>)
    ensures
        r@ == spec_u32_bytes(value),
{
    let r = pattern_bytes(value, 4);
    proof {
        assert(r@ =~= spec_u32_bytes(value));
    }
    r
}

/// The draw packets a submission's draws are carried out for together: `DRAW_INDEX_2` and
/// `DRAW_INDEX_AUTO`. An indirect draw reads its arguments from memory at execution time and is
/// not among them.
pub open spec fn spec_is_draw(opcode: u8) -> bool {
    opcode == measured::DRAW_INDEX_2 || opcode == measured::DRAW_INDEX_AUTO
}

/// Whether `opcode` is one of the draws carried out together.
pub fn is_draw(opcode: u8) -> (r: bool)
    ensures
        r == spec_is_draw(opcode),
{
    opcode == measured::DRAW_INDEX_2 || opcode == measured::DRAW_INDEX_AUTO
}

/// Opcodes with no effect on memory: register state, no-ops, and cache control - an
/// `EVENT_WRITE` of one body dword among them.
pub open spec fn spec_is_memory_inert(opcode: u8, body_dwords: nat) -> bool {
    ||| opcode == measured::NOP
    ||| opcode == measured::SET_BASE
    ||| opcode == measured::INDEX_BUFFER_SIZE
    ||| opcode == measured::INDEX_BASE
    ||| opcode == measured::NUM_INSTANCES
    ||| opcode == measured::ACQUIRE_MEM
    ||| opcode == measured::SET_CONTEXT_REG
    ||| opcode == measured::SET_SH_REG
    ||| opcode == measured::SET_UCONFIG_REG
    ||| opcode == measured::SET_UCONFIG_REG_INDEX
    ||| opcode == measured::SET_CONTEXT_REG_INDIRECT
    ||| opcode == measured::SET_SH_REG_INDIRECT
    ||| opcode == measured::SET_UCONFIG_REG_INDIRECT
    ||| opcode == measured::STALL_COMMAND_BUFFER_PARSER
    ||| (opcode == measured::EVENT_WRITE && body_dwords == 1)
}

/// Whether a command with `opcode` and `body_dwords` body words leaves memory untouched.
pub fn is_memory_inert(opcode: u8, body_dwords: usize) -> (r: bool)
    ensures
        r == spec_is_memory_inert(opcode, body_dwords as nat),
{
    opcode == measured::NOP || opcode == measured::SET_BASE || opcode == measured::INDEX_BUFFER_SIZE
        || opcode == measured::INDEX_BASE || opcode == measured::NUM_INSTANCES || opcode
        == measured::ACQUIRE_MEM || opcode == measured::SET_CONTEXT_REG || opcode
        == measured::SET_SH_REG || opcode == measured::SET_UCONFIG_REG || opcode
        == measured::SET_UCONFIG_REG_INDEX || opcode == measured::SET_CONTEXT_REG_INDIRECT || opcode
        == measured::SET_SH_REG_INDIRECT || opcode == measured::SET_UCONFIG_REG_INDIRECT || opcode
        == measured::STALL_COMMAND_BUFFER_PARSER || (opcode == measured::EVENT_WRITE && body_dwords
        == 1)
}

/// Why execution stopped.
#[derive(Debug, Clone, Copy, PartialEq, Eq, Structural)]
pub enum Stopped {
    /// Every packet was carried out or had no effect on memory.
    Completed,
    /// A packet needs the GPU - a draw, a dispatch, or a command not known to be memory-only.
    NeedsGpu {
        /// Byte offset of the packet in the stream.
        offset: u32,
        /// Its opcode.
        opcode: u8,
    },
    /// A packet between the stream's first draw and its last is neither a draw nor inert, so its
    /// draws cannot be carried out together without reordering them around it.
    DrawsInterleaved {
        /// Byte offset of that packet in the stream.
        offset: u32,
        /// Its opcode.
        opcode: u8,
    },
    /// A packet named memory the guest cannot read or write.
    OutOfBounds {
        /// Byte offset of the packet in the stream.
        offset: u32,
    },
    /// A `WAIT_REG_MEM` whose condition does not hold. Nothing else runs concurrently here, so it
    /// never will: nothing after it retires.
    WaitNeverSatisfied {
        /// Byte offset of the packet in the stream.
        offset: u32,
    },
    /// The stream could not be walked with confidence, or a packet was shorter than its layout.
    Malformed {
        /// Byte offset of the packet in the stream.
        offset: u32,
    },
}

impl Default for Stopped {
    /// A run that has not stopped early.
    fn default() -> (r: Self)
        ensures
            r == Stopped::Completed,
    {
        Stopped::Completed
    }
}

/// What one submission's command-processor work did.
#[derive(Debug, Clone, Copy, PartialEq, Eq, Structural)]
pub struct CpExecution {
    /// `DMA_DATA` fills carried out.
    pub fills: usize,
    /// `DMA_DATA` copies carried out.
    pub copies: usize,
    /// `RELEASE_MEM` writes carried out (a discarded one counts - it was reached and retired).
    pub releases: usize,
    /// `WAIT_REG_MEM` checks that held.
    pub waits: usize,
    /// Draw packets carried out, through [`CpMemory::run_draws`].
    pub draws: usize,
    /// Bytes written to guest memory.
    pub bytes_written: u64,
    /// Where it stopped.
    pub stopped: Stopped,
}

/// Nothing carried out yet.
pub open spec fn nothing_done() -> CpExecution {
    CpExecution {
        fills: 0,
        copies: 0,
        releases: 0,
        waits: 0,
        draws: 0,
        bytes_written: 0,
        stopped: Stopped::Completed,
    }
}

impl Default for CpExecution {
    /// Nothing carried out, not stopped.
    fn default() -> (r: Self)
        ensures
            r == nothing_done(),
    {
        CpExecution {
            fills: 0,
            copies: 0,
            releases: 0,
            waits: 0,
            draws: 0,
            bytes_written: 0,
            stopped: Stopped::Completed,
        }
    }
}

/// A 64-bit address from its two halves.
pub open spec fn spec_address(low: u32, high: u32) -> u64 {
    (low as int + high as int * 0x1_0000_0000) as u64
}

/// A 64-bit address from its two halves.
pub fn address(low: u32, high: u32) -> (r: u64)
    ensures
        r == spec_address(low, high),
{
    let r = ((high as u64) << 32u64) | (low as u64);
    proof {
        assert(((high as u64) << 32u64) | (low as u64) == (low as int + high as int * 0x1_0000_0000) as u64)
            by (bit_vector);
    }
    r
}

/// What a `DMA_DATA` body asks of memory.
#[derive(Debug, Clone, Copy, PartialEq, Eq, Structural)]
pub enum DmaPlan {
    /// The body is shorter than the packet's layout.
    Malformed,
    /// The destination is not memory, or the packet holds an address rather than advancing it.
    NeedsGpu,
    /// A zero-byte transfer: carried out by doing nothing, counted as a fill when `fill`.
    Empty {
        /// Whether the source is the packet's data word.
        fill: bool,
    },
    /// Fill `count` bytes at `destination` with `pattern`.
    Fill {
        /// Where.
        destination: u64,
        /// The four-byte pattern.
        pattern: u32,
        /// How many bytes.
        count: usize,
    },
    /// Copy `count` bytes from `source` to `destination`.
    Copy {
        /// From where.
        source: u64,
        /// To where.
        destination: u64,
        /// How many bytes.
        count: usize,
    },
}

/// What a `DMA_DATA` body - control word, source low and high, destination low and high,
/// command - asks of memory. The source select is bits 30:29 of the control word (two: the data
/// word; zero or three: an address), the destination select bits 21:20 (zero or three: an
/// address), the byte count bits 25:0 of the command.
pub open spec fn spec_dma_plan(body: Seq<u32>) -> DmaPlan {
    if body.len() < 6 {
        DmaPlan::Malformed
    } else {
        let control = body[0];
        let src_sel = (control >> 29u32) & 0x3u32;
        let dst_sel = (control >> 20u32) & 0x3u32;
        let command = body[5];
        let count = (command & BYTE_COUNT_MASK) as usize;
        if !(dst_sel == 0 || dst_sel == 3) || command & ADDRESS_HOLD_BITS != 0 {
            DmaPlan::NeedsGpu
        } else if count == 0 {
            DmaPlan::Empty { fill: src_sel == SRC_SEL_DATA }
        } else if src_sel == SRC_SEL_DATA {
            DmaPlan::Fill { destination: spec_address(body[3], body[4]), pattern: body[1], count }
        } else if src_sel == 0 || src_sel == 3 {
            DmaPlan::Copy {
                source: spec_address(body[1], body[2]),
                destination: spec_address(body[3], body[4]),
                count,
            }
        } else {
            DmaPlan::NeedsGpu
        }
    }
}

/// What a `DMA_DATA` body asks of memory.
pub fn dma_plan(body: &[u32]) -> (r: DmaPlan)
    ensures
        r == spec_dma_plan(body@),
{
    if body.len() < 6 {
        return DmaPlan::Malformed;
    }
    let control = body[0];
    let src_sel = (control >> 29u32) & 0x3u32;
    let dst_sel = (control >> 20u32) & 0x3u32;
    let command = body[5];
    let count = (command & BYTE_COUNT_MASK) as usize;
    if !(dst_sel == 0 || dst_sel == 3) || command & ADDRESS_HOLD_BITS != 0 {
        DmaPlan::NeedsGpu
    } else if count == 0 {
        DmaPlan::Empty { fill: src_sel == SRC_SEL_DATA }
    } else if src_sel == SRC_SEL_DATA {
        DmaPlan::Fill { destination: address(body[3], body[4]), pattern: body[1], count }
    } else if src_sel == 0 || src_sel == 3 {
        DmaPlan::Copy { source: address(body[1], body[2]), destination: address(body[3], body[4]), count }
    } else {
        DmaPlan::NeedsGpu
    }
}

/// What a `RELEASE_MEM` body asks of memory.
#[derive(Debug, Clone, Copy, PartialEq, Eq, Structural)]
pub enum ReleasePlan {
    /// The body is shorter than the packet's layout.
    Malformed,
    /// A data select not reproduced here.
    NeedsGpu,
    /// Nothing is written; the release still retires.
    Discard,
    /// Write the 32-bit `value` at `address`.
    Value32 {
        /// Where.
        address: u64,
        /// What.
        value: u32,
    },
    /// Write the 64-bit `value` at `address`.
    Value64 {
        /// Where.
        address: u64,
        /// What.
        value: u64,
    },
    /// Write the GPU clock counter at `address`.
    Timestamp {
        /// Where.
        address: u64,
    },
}

/// What a `RELEASE_MEM` body - event, selectors, address low and high, data low and high - asks
/// of memory: `DATA_SEL` is bits 31:29 of the selectors.
pub open spec fn spec_release_plan(body: Seq<u32>) -> ReleasePlan {
    if body.len() < 6 {
        ReleasePlan::Malformed
    } else {
        let destination = spec_address(body[2], body[3]);
        let data_sel = body[1] >> 29u32;
        if data_sel == 0 {
            ReleasePlan::Discard
        } else if data_sel == 1 {
            ReleasePlan::Value32 { address: destination, value: body[4] }
        } else if data_sel == 2 {
            ReleasePlan::Value64 { address: destination, value: spec_address(body[4], body[5]) }
        } else if data_sel == 3 {
            ReleasePlan::Timestamp { address: destination }
        } else {
            ReleasePlan::NeedsGpu
        }
    }
}

/// What a `RELEASE_MEM` body asks of memory.
pub fn release_plan(body: &[u32]) -> (r: ReleasePlan)
    ensures
        r == spec_release_plan(body@),
{
    if body.len() < 6 {
        return ReleasePlan::Malformed;
    }
    let destination = address(body[2], body[3]);
    let data_sel = body[1] >> 29u32;
    if data_sel == 0 {
        ReleasePlan::Discard
    } else if data_sel == 1 {
        ReleasePlan::Value32 { address: destination, value: body[4] }
    } else if data_sel == 2 {
        ReleasePlan::Value64 { address: destination, value: address(body[4], body[5]) }
    } else if data_sel == 3 {
        ReleasePlan::Timestamp { address: destination }
    } else {
        ReleasePlan::NeedsGpu
    }
}

/// What a `WAIT_REG_MEM` body asks.
#[derive(Debug, Clone, Copy, PartialEq, Eq, Structural)]
pub enum WaitPlan {
    /// The body is shorter than the packet's layout.
    Malformed,
    /// A wait on a register, which needs the GPU's registers.
    NeedsGpu,
    /// Read the word at `address`, mask it, and compare it with `reference` by `function`.
    Check {
        /// The word's address, dword-aligned.
        address: u64,
        /// The compare function, the low three bits of the function word.
        function: u32,
        /// The value compared against.
        reference: u32,
        /// The bits of the word compared.
        mask: u32,
    },
}

/// What a `WAIT_REG_MEM` body - function and space, address low and high, reference, mask -
/// asks: a memory wait reads the dword-aligned word at the address.
pub open spec fn spec_wait_plan(body: Seq<u32>) -> WaitPlan {
    if body.len() < 5 {
        WaitPlan::Malformed
    } else if body[0] & WAIT_MEM_SPACE == 0 {
        WaitPlan::NeedsGpu
    } else {
        WaitPlan::Check {
            address: spec_address(body[1] & 0xFFFF_FFFCu32, body[2]),
            function: body[0] & 0x7u32,
            reference: body[3],
            mask: body[4],
        }
    }
}

/// What a `WAIT_REG_MEM` body asks.
pub fn wait_plan(body: &[u32]) -> (r: WaitPlan)
    ensures
        r == spec_wait_plan(body@),
{
    if body.len() < 5 {
        return WaitPlan::Malformed;
    }
    if body[0] & WAIT_MEM_SPACE == 0 {
        return WaitPlan::NeedsGpu;
    }
    WaitPlan::Check {
        address: address(body[1] & 0xFFFF_FFFCu32, body[2]),
        function: body[0] & 0x7u32,
        reference: body[3],
        mask: body[4],
    }
}

/// Whether a waited-on word satisfies the wait - equal (3), not equal (4), greater or equal (5)
/// after masking - or `None` for a compare function not reproduced here.
pub open spec fn spec_wait_holds(function: u32, word: u32, mask: u32, reference: u32) -> Option<bool> {
    let value = word & mask;
    if function == 3 {
        Some(value == reference)
    } else if function == 4 {
        Some(value != reference)
    } else if function == 5 {
        Some(value >= reference)
    } else {
        None
    }
}

/// Whether a waited-on word satisfies the wait.
pub fn wait_holds(function: u32, word: u32, mask: u32, reference: u32) -> (r: Option<bool>)
    ensures
        r == spec_wait_holds(function, word, mask, reference),
{
    let value = word & mask;
    if function == 3 {
        Some(value == reference)
    } else if function == 4 {
        Some(value != reference)
    } else if function == 5 {
        Some(value >= reference)
    } else {
        None
    }
}

/// A memory wait compares the masked word with the reference as integers: compare function 3 holds
/// exactly when they are equal, 4 exactly when they differ, and 5 (greater or equal) exactly when the
/// masked word is at least the reference - so it holds when the two are equal; every other compare
/// function is not reproduced.
pub proof fn lemma_wait_compares_as_integers(word: u32, mask: u32, reference: u32)
    ensures
        spec_wait_holds(3, word, mask, reference) == Some((word & mask) as int == reference as int),
        spec_wait_holds(4, word, mask, reference) == Some((word & mask) as int != reference as int),
        spec_wait_holds(5, word, mask, reference) == Some((word & mask) as int >= reference as int),
        spec_wait_holds(5, word, mask, word & mask) == Some(true),
        forall|function: u32|
            function != 3 && function != 4 && function != 5 ==> #[trigger] spec_wait_holds(
                function,
                word,
                mask,
                reference,
            ) is None,
{
}

/// The opcode of a command packet.
pub open spec fn command_opcode(p: Packet) -> Option<u8> {
    match p.kind {
        PacketKind::Command { opcode } => Some(opcode),
        _ => None,
    }
}

/// Whether packet `p` is one of the draws carried out together.
pub open spec fn is_draw_packet(p: Packet) -> bool {
    match command_opcode(p) {
        Some(op) => spec_is_draw(op),
        None => false,
    }
}

/// The body dwords a packet's length gives it.
pub open spec fn body_dwords(p: Packet) -> nat {
    (if p.length >= 4 {
        p.length - 4
    } else {
        0
    }) as nat / 4
}

/// Whether packet `p` stands between draws that are to run together: a command that is neither a
/// draw nor inert.
pub open spec fn interrupts_draws(p: Packet) -> bool {
    match command_opcode(p) {
        Some(op) => !spec_is_draw(op) && !spec_is_memory_inert(op, body_dwords(p)),
        None => false,
    }
}

/// Whether some packet at or after index `from` is a draw.
pub open spec fn draw_from(packets: Seq<Packet>, from: int) -> bool {
    exists|j: int| from <= j < packets.len() && #[trigger] is_draw_packet(packets[j])
}

/// Whether some packet before index `to` is a draw.
pub open spec fn draw_before(packets: Seq<Packet>, to: int) -> bool {
    exists|j: int| 0 <= j < to && #[trigger] is_draw_packet(packets[j])
}

/// The first packet strictly between the stream's first draw and its last that is neither a draw
/// nor memory-inert, by offset and opcode - `None` when the draws can be carried out together.
pub open spec fn spec_interleaved(packets: Seq<Packet>) -> Option<(u32, u8)> {
    if exists|i: int|
        0 <= i < packets.len() && draw_before(packets, i) && draw_from(packets, i + 1)
            && #[trigger] interrupts_draws(packets[i]) {
        let i = choose|i: int|
            0 <= i < packets.len() && draw_before(packets, i) && draw_from(packets, i + 1)
                && #[trigger] interrupts_draws(packets[i]) && forall|k: int|
                0 <= k < i && draw_before(packets, k) && draw_from(packets, k + 1)
                    ==> !interrupts_draws(packets[k]);
        Some((packets[i].offset, command_opcode(packets[i])->0))
    } else {
        None
    }
}

/// The first packet between the stream's first draw and its last that is neither a draw nor
/// memory-inert, by offset and opcode - `None` when the draws can be carried out together.
pub fn interleaved_with_draws(packets: &[Packet]) -> (r: Option<(u32, u8)>)
    ensures
        r == spec_interleaved(packets@),
{
    let n = packets.len();
    // The last draw.
    let mut last: usize = n;
    let mut k: usize = n;
    while k > 0 && last == n
        invariant
            k <= n == packets@.len(),
            last == n ==> !draw_from(packets@, k as int),
            last != n ==> last < n && is_draw_packet(packets@[last as int]) && !draw_from(
                packets@,
                last + 1,
            ),
        decreases k,
    {
        let p = packets[k - 1];
        let is = match p.kind {
            PacketKind::Command { opcode } => is_draw(opcode),
            _ => false,
        };
        if is {
            last = k - 1;
        }
        k = k - 1;
    }
    if last == n {
        proof {
            assert(!draw_from(packets@, 0));
            assert forall|i: int|
                0 <= i < packets@.len() && draw_before(packets@, i) && draw_from(packets@, i + 1)
                    implies !#[trigger] interrupts_draws(packets@[i]) by {
                let j = choose|j: int| i + 1 <= j < packets@.len() && #[trigger] is_draw_packet(packets@[j]);
                assert(draw_from(packets@, 0));
            }
        }
        return None;
    }
    let mut seen_draw = false;
    let mut i: usize = 0;
    while i < last
        invariant
            last < n == packets@.len(),
            is_draw_packet(packets@[last as int]),
            !draw_from(packets@, last + 1),
            i <= last,
            seen_draw == draw_before(packets@, i as int),
            forall|m: int|
                0 <= m < i && draw_before(packets@, m) && draw_from(packets@, m + 1)
                    ==> !#[trigger] interrupts_draws(packets@[m]),
        decreases last - i,
    {
        let p = packets[i];
        let ghost gi = i as int;
        proof {
            assert(draw_from(packets@, gi + 1)) by {
                assert(is_draw_packet(packets@[last as int]));
            }
        }
        match p.kind {
            PacketKind::Command { opcode } => {
                let draw = is_draw(opcode);
                if seen_draw && !draw && !is_memory_inert(opcode, (p.body_length() / 4) as usize) {
                    proof {
                        assert(interrupts_draws(packets@[gi]));
                        let w = choose|i: int|
                            0 <= i < packets@.len() && draw_before(packets@, i) && draw_from(packets@, i + 1)
                                && #[trigger] interrupts_draws(packets@[i]) && forall|k: int|
                                0 <= k < i && draw_before(packets@, k) && draw_from(packets@, k + 1)
                                    ==> !interrupts_draws(packets@[k]);
                        assert(w == gi) by {
                            if w < gi {
                            } else if w > gi {
                            }
                        }
                    }
                    return Some((p.offset, opcode));
                }
                if draw {
                    seen_draw = true;
                }
            },
            _ => {},
        }
        proof {
            assert(draw_before(packets@, gi + 1) == (draw_before(packets@, gi) || is_draw_packet(packets@[gi])))
                by {
                if draw_before(packets@, gi + 1) && !is_draw_packet(packets@[gi]) {
                    let j = choose|j: int| 0 <= j < gi + 1 && #[trigger] is_draw_packet(packets@[j]);
                    assert(j < gi);
                }
                if is_draw_packet(packets@[gi]) {
                    assert(draw_before(packets@, gi + 1));
                }
            }
        }
        i = i + 1;
    }
    proof {
        assert forall|m: int|
            0 <= m < packets@.len() && draw_before(packets@, m) && draw_from(packets@, m + 1)
                implies !#[trigger] interrupts_draws(packets@[m]) by {
            if m >= last {
                let j = choose|j: int| m + 1 <= j < packets@.len() && #[trigger] is_draw_packet(packets@[j]);
                assert(draw_from(packets@, last + 1));
            }
        }
    }
    None
}


/// The body bytes of packet `p` in `stream`, or none when they lie outside it.
pub open spec fn body_bytes(stream: Seq<u8>, p: Packet) -> Seq<u8> {
    let start = p.offset + 4;
    let end = start + (if p.length >= 4 {
        p.length - 4
    } else {
        0
    });
    if end <= stream.len() {
        stream.subrange(start as int, end as int)
    } else {
        Seq::empty()
    }
}

/// The body bytes of packet `p` in `stream`.
fn packet_bytes<'s>(stream: &'s [u8], p: &Packet) -> (r: &'s [u8])
    ensures
        r@ == body_bytes(stream@, *p),
{
    let start = p.offset as u64 + 4;
    let end = start + p.body_length() as u64;
    let n = stream.len();
    if end <= n as u64 {
        vstd::slice::slice_subrange(stream, start as usize, end as usize)
    } else {
        let none: &[u8] = &[];
        proof {
            assert(none@ =~= Seq::<u8>::empty());
        }
        none
    }
}

/// Whole little-endian words of `bytes`.
pub fn words_of(bytes: &[u8]) -> (r: Vec<u32>)
    ensures
        r@ == crate::whole_words(bytes@),
{
    let n = bytes.len();
    let count = n / 4;
    let mut words: Vec<u32> = Vec::new();
    let mut i: usize = 0;
    while i < count
        invariant
            count == bytes@.len() / 4,
            n == bytes@.len(),
            i <= count,
            words@ == crate::whole_words(bytes@).take(i as int),
        decreases count - i,
    {
        let at = 4 * i;
        let w = (bytes[at] as u32) | ((bytes[at + 1] as u32) << 8u32) | ((bytes[at + 2] as u32) << 16u32)
            | ((bytes[at + 3] as u32) << 24u32);
        words.push(w);
        proof {
            assert(words@ =~= crate::whole_words(bytes@).take(i as int + 1));
        }
        i = i + 1;
    }
    proof {
        assert(crate::whole_words(bytes@).take(count as int) =~= crate::whole_words(bytes@));
    }
    words
}

/// Whether a packet could have been passed by a run that completed: state, filler, an inert
/// command, a draw, or a memory command carried out here.
pub open spec fn retirable(stream: Seq<u8>, p: Packet) -> bool {
    match p.kind {
        PacketKind::Reserved => false,
        PacketKind::Command { opcode } => spec_is_memory_inert(opcode, body_bytes(stream, p).len() / 4)
            || spec_is_draw(opcode) || opcode == measured::DMA_DATA || opcode == measured::RELEASE_MEM
            || opcode == WAIT_REG_MEM,
        _ => true,
    }
}

/// Whether a stream's walk can be trusted: no reserved header, no overrun, no trailing bytes.
pub open spec fn stream_trustworthy(stream: Seq<u8>) -> bool {
    &&& !walk_from(stream, 0).1
    &&& !walk_from(stream, 0).2
    &&& stream.len() % 4 == 0
}

/// What a run that stopped at a packet records of it.
pub open spec fn stopped_at_packet(stopped: Stopped, packets: Seq<Packet>) -> bool {
    match stopped {
        Stopped::Completed => true,
        Stopped::NeedsGpu { offset, opcode } => exists|i: int|
            0 <= i < packets.len() && #[trigger] packets[i].offset == offset && command_opcode(packets[i])
                == Some(opcode),
        Stopped::DrawsInterleaved { offset, opcode } => spec_interleaved(packets) == Some((offset, opcode)),
        Stopped::OutOfBounds { offset } => exists|i: int|
            0 <= i < packets.len() && #[trigger] packets[i].offset == offset,
        Stopped::WaitNeverSatisfied { offset } => exists|i: int|
            0 <= i < packets.len() && #[trigger] packets[i].offset == offset && command_opcode(packets[i])
                == Some(WAIT_REG_MEM),
        Stopped::Malformed { offset } => exists|i: int|
            0 <= i < packets.len() && #[trigger] packets[i].offset == offset,
    }
}

/// A count one higher, staying at the top once there.
pub open spec fn bumped(n: usize) -> usize {
    if n == usize::MAX {
        n
    } else {
        (n + 1) as usize
    }
}

/// A byte total with `n` more added, staying at the top once there.
pub open spec fn added(total: u64, n: int) -> u64 {
    if total + n > u64::MAX {
        u64::MAX
    } else {
        (total + n) as u64
    }
}

/// The run's record once a `DMA_DATA` it planned is carried out: a fill or a copy more, and its
/// bytes written.
pub open spec fn dma_counted(before: CpExecution, plan: DmaPlan) -> CpExecution {
    match plan {
        DmaPlan::Empty { fill } => if fill {
            CpExecution { fills: bumped(before.fills), ..before }
        } else {
            CpExecution { copies: bumped(before.copies), ..before }
        },
        DmaPlan::Fill { count, .. } => CpExecution {
            fills: bumped(before.fills),
            bytes_written: added(before.bytes_written, count as int),
            ..before
        },
        DmaPlan::Copy { count, .. } => CpExecution {
            copies: bumped(before.copies),
            bytes_written: added(before.bytes_written, count as int),
            ..before
        },
        _ => before,
    }
}

/// The run's record once a `RELEASE_MEM` it planned retires: a release more, and the bytes it
/// wrote - four for a dword, eight for a quadword or a timestamp, none when discarded.
pub open spec fn release_counted(before: CpExecution, plan: ReleasePlan) -> CpExecution {
    let written: int = match plan {
        ReleasePlan::Value32 { .. } => 4,
        ReleasePlan::Value64 { .. } => 8,
        ReleasePlan::Timestamp { .. } => 8,
        _ => 0,
    };
    CpExecution {
        releases: bumped(before.releases),
        bytes_written: added(before.bytes_written, written),
        ..before
    }
}

/// Nothing asked: a record extends itself by nothing.
pub(crate) proof fn lemma_nothing_made<A>(log: Seq<A>)
    ensures
        extends(log, log),
        made_since(log, log) == Seq::<A>::empty(),
{
    assert(log.take(log.len() as int) =~= log);
    assert(made_since(log, log) =~= Seq::<A>::empty());
}

/// Requests made in turn: what `c` holds beyond `a` is what `b` added, then what `c` added.
pub(crate) proof fn lemma_made_in_turn<A>(a: Seq<A>, b: Seq<A>, c: Seq<A>)
    requires
        extends(a, b),
        extends(b, c),
    ensures
        extends(a, c),
        made_since(a, c) == made_since(a, b) + made_since(b, c),
{
    assert(c.take(a.len() as int) =~= a) by {
        assert forall|i: int| 0 <= i < a.len() implies c[i] == a[i] by {
            assert(c.take(b.len() as int)[i] == b[i]);
            assert(b.take(a.len() as int)[i] == a[i]);
        }
    }
    assert(made_since(a, c) =~= made_since(a, b) + made_since(b, c)) by {
        assert forall|i: int| 0 <= i < made_since(a, b).len() implies made_since(a, c)[i] == made_since(a, b)[i] by {
            assert(c.take(b.len() as int)[a.len() + i] == b[a.len() + i]);
        }
    }
}

/// One request made: the record grows by it alone.
pub(crate) proof fn lemma_one_made<A>(a: Seq<A>, request: A)
    ensures
        extends(a, a.push(request)),
        made_since(a, a.push(request)) == seq![request],
{
    assert(a.push(request).take(a.len() as int) =~= a);
    assert(made_since(a, a.push(request)) =~= seq![request]);
}

/// What a `DMA_DATA` planned as `plan` asked of memory, `passed` when it was carried out: the fill
/// or the copy planned, nothing for any other plan.
pub open spec fn dma_asked(plan: DmaPlan, made: Seq<MemoryRequest>, passed: bool) -> bool {
    match plan {
        DmaPlan::Fill { destination, pattern, count } => asked_to_fill(made, destination, pattern, count as nat, passed),
        DmaPlan::Copy { source, destination, count } => asked_to_copy(
            made,
            source,
            destination,
            count as nat,
            passed,
        ),
        _ => made.len() == 0,
    }
}

/// What a `RELEASE_MEM` planned as `plan` asked of memory, `passed` when it retired: the write of
/// the value planned, or of the clock counter read just before; nothing for any other plan.
pub open spec fn release_asked(plan: ReleasePlan, made: Seq<MemoryRequest>, passed: bool) -> bool {
    match plan {
        ReleasePlan::Value32 { address, value } => made == seq![
            MemoryRequest::Write { address, bytes: spec_u32_bytes(value), answer: passed },
        ],
        ReleasePlan::Value64 { address, value } => made == seq![
            MemoryRequest::Write { address, bytes: spec_u64_bytes(value), answer: passed },
        ],
        ReleasePlan::Timestamp { address } => made.len() == 2 && match made[0] {
            MemoryRequest::Timestamp { answer } => made[1] == (MemoryRequest::Write {
                address,
                bytes: spec_u64_bytes(answer),
                answer: passed,
            }),
            _ => false,
        },
        _ => made.len() == 0,
    }
}

/// What a `WAIT_REG_MEM` planned as `plan` asked of memory, `passed` when it held: the read of the
/// four bytes waited on, passed exactly when they were readable and satisfy the wait; nothing for
/// any other plan.
pub open spec fn wait_asked(plan: WaitPlan, made: Seq<MemoryRequest>, passed: bool) -> bool {
    match plan {
        WaitPlan::Check { address, function, reference, mask } => made.len() == 1 && match made[0] {
            MemoryRequest::Read { address: a, length: n, answer } => a == address && n == 4 && passed
                == match answer {
                Some(b) => b.len() >= 4 && spec_wait_holds(function, crate::packet::le_word(b, 0), mask, reference)
                    == Some(true),
                None => false,
            },
            _ => false,
        },
        _ => made.len() == 0,
    }
}

/// Why one memory command stopped the run.
enum Stop {
    NeedsGpu,
    OutOfBounds,
    Wait,
    Malformed,
}

/// Carries out a `DMA_DATA` body against memory, counting it into `result`.
fn dma_data<M: CpMemory>(body: &[u32], memory: &mut M, result: &mut CpExecution) -> (r: Result<(), Stop>)
    ensures
        final(result).draws == old(result).draws,
        final(result).stopped == old(result).stopped,
        match spec_dma_plan(body@) {
            DmaPlan::Malformed => r matches Err(Stop::Malformed) && *final(result) == *old(result),
            DmaPlan::NeedsGpu => r matches Err(Stop::NeedsGpu) && *final(result) == *old(result),
            DmaPlan::Empty { .. } => r is Ok && *final(result) == dma_counted(
                *old(result),
                spec_dma_plan(body@),
            ),
            _ => (r is Ok && *final(result) == dma_counted(*old(result), spec_dma_plan(body@))) || (
            r matches Err(Stop::OutOfBounds) && *final(result) == *old(result)),
        },
        M::records_requests() ==> extends(old(memory).requests(), final(memory).requests()) && dma_asked(
            spec_dma_plan(body@),
            made_since(old(memory).requests(), final(memory).requests()),
            r is Ok,
        ),
{
    proof {
        lemma_nothing_made(memory.requests());
    }
    let (done, fill, count): (bool, bool, usize) = match dma_plan(body) {
        DmaPlan::Malformed => {
            return Err(Stop::Malformed);
        },
        DmaPlan::NeedsGpu => {
            return Err(Stop::NeedsGpu);
        },
        DmaPlan::Empty { fill } => (true, fill, 0),
        DmaPlan::Fill { destination, pattern, count } => (
            memory.fill(destination, pattern, count),
            true,
            count,
        ),
        DmaPlan::Copy { source, destination, count } => (
            memory.copy(source, destination, count),
            false,
            count,
        ),
    };
    if !done {
        return Err(Stop::OutOfBounds);
    }
    if fill {
        result.fills = result.fills.saturating_add(1);
    } else {
        result.copies = result.copies.saturating_add(1);
    }
    result.bytes_written = result.bytes_written.saturating_add(count as u64);
    Ok(())
}

/// Carries out a `RELEASE_MEM` body against memory, counting it into `result`.
fn release_mem<M: CpMemory>(body: &[u32], memory: &mut M, result: &mut CpExecution) -> (r: Result<(), Stop>)
    ensures
        final(result).draws == old(result).draws,
        final(result).stopped == old(result).stopped,
        match spec_release_plan(body@) {
            ReleasePlan::Malformed => r matches Err(Stop::Malformed) && *final(result) == *old(result),
            ReleasePlan::NeedsGpu => r matches Err(Stop::NeedsGpu) && *final(result) == *old(result),
            ReleasePlan::Discard => r is Ok && *final(result) == release_counted(
                *old(result),
                spec_release_plan(body@),
            ),
            _ => (r is Ok && *final(result) == release_counted(*old(result), spec_release_plan(body@)))
                || (r matches Err(Stop::OutOfBounds) && *final(result) == *old(result)),
        },
        M::records_requests() ==> extends(old(memory).requests(), final(memory).requests()) && release_asked(
            spec_release_plan(body@),
            made_since(old(memory).requests(), final(memory).requests()),
            r is Ok,
        ),
{
    let ghost start = memory.requests();
    proof {
        lemma_nothing_made(start);
    }
    let (destination, written): (u64, Vec<u8>) = match release_plan(body) {
        ReleasePlan::Malformed => {
            return Err(Stop::Malformed);
        },
        ReleasePlan::NeedsGpu => {
            return Err(Stop::NeedsGpu);
        },
        ReleasePlan::Discard => (0, Vec::new()),
        ReleasePlan::Value32 { address, value } => (address, u32_bytes(value)),
        ReleasePlan::Value64 { address, value } => (address, u64_bytes(value)),
        ReleasePlan::Timestamp { address } => {
            let clock = memory.timestamp();
            proof {
                if M::records_requests() {
                    lemma_one_made(start, MemoryRequest::Timestamp { answer: clock });
                }
            }
            (address, u64_bytes(clock))
        },
    };
    let ghost middle = memory.requests();
    if written.len() > 0 {
        let wrote = memory.write(destination, written.as_slice());
        proof {
            if M::records_requests() {
                lemma_one_made(middle, MemoryRequest::Write { address: destination, bytes: written@, answer: wrote });
                lemma_made_in_turn(start, middle, memory.requests());
            }
        }
        if !wrote {
            return Err(Stop::OutOfBounds);
        }
    }
    result.releases = result.releases.saturating_add(1);
    result.bytes_written = result.bytes_written.saturating_add(written.len() as u64);
    Ok(())
}

/// Checks a `WAIT_REG_MEM` body against memory, counting it into `result` when it holds.
fn wait_reg_mem<M: CpMemory>(body: &[u32], memory: &mut M, result: &mut CpExecution) -> (r: Result<(), Stop>)
    ensures
        final(result).draws == old(result).draws,
        final(result).stopped == old(result).stopped,
        match spec_wait_plan(body@) {
            WaitPlan::Malformed => r matches Err(Stop::Malformed) && *final(result) == *old(result),
            WaitPlan::NeedsGpu => r matches Err(Stop::NeedsGpu) && *final(result) == *old(result),
            WaitPlan::Check { .. } => (r is Ok && *final(result) == CpExecution {
                waits: bumped(old(result).waits),
                ..*old(result)
            }) || (r is Err && !(r matches Err(Stop::Malformed)) && *final(result) == *old(result)),
        },
        M::records_requests() ==> extends(old(memory).requests(), final(memory).requests()) && wait_asked(
            spec_wait_plan(body@),
            made_since(old(memory).requests(), final(memory).requests()),
            r is Ok,
        ),
{
    proof {
        lemma_nothing_made(memory.requests());
    }
    let (at, function, reference, mask) = match wait_plan(body) {
        WaitPlan::Malformed => {
            return Err(Stop::Malformed);
        },
        WaitPlan::NeedsGpu => {
            return Err(Stop::NeedsGpu);
        },
        WaitPlan::Check { address, function, reference, mask } => (address, function, reference, mask),
    };
    let ghost start = memory.requests();
    let answer = memory.read(at, 4);
    proof {
        if M::records_requests() {
            lemma_one_made(start, MemoryRequest::Read { address: at, length: 4, answer: answer_bytes(answer) });
        }
    }
    let word = match answer {
        Some(bytes) => {
            if bytes.len() < 4 {
                return Err(Stop::OutOfBounds);
            }
            (bytes[0] as u32) | ((bytes[1] as u32) << 8u32) | ((bytes[2] as u32) << 16u32) | ((
            bytes[3] as u32) << 24u32)
        },
        None => {
            return Err(Stop::OutOfBounds);
        },
    };
    match wait_holds(function, word, mask, reference) {
        None => Err(Stop::NeedsGpu),
        Some(false) => Err(Stop::Wait),
        Some(true) => {
            result.waits = result.waits.saturating_add(1);
            Ok(())
        },
    }
}

/// What stopping at packet `p` records of it, given the interleaving found before any draw ran.
pub open spec fn stop_names_packet(stop: Stopped, p: Packet, interleaved: Option<(u32, u8)>) -> bool {
    match stop {
        Stopped::Completed => false,
        Stopped::NeedsGpu { offset, opcode } => offset == p.offset && command_opcode(p) == Some(opcode),
        Stopped::DrawsInterleaved { offset, opcode } => interleaved == Some((offset, opcode)),
        Stopped::OutOfBounds { offset } => offset == p.offset,
        Stopped::WaitNeverSatisfied { offset } => offset == p.offset && command_opcode(p) == Some(
            WAIT_REG_MEM,
        ),
        Stopped::Malformed { offset } => offset == p.offset,
    }
}

/// The words of a packet's body.
pub open spec fn packet_body(stream: Seq<u8>, p: Packet) -> Seq<u32> {
    crate::whole_words(body_bytes(stream, p))
}

/// Whether a packet is passed without touching memory: state, filler, or an inert command.
pub open spec fn quiet(stream: Seq<u8>, p: Packet) -> bool {
    match p.kind {
        PacketKind::Reserved => false,
        PacketKind::Command { opcode } => spec_is_memory_inert(opcode, body_bytes(stream, p).len() / 4),
        _ => true,
    }
}

/// Whether a packet is one of the draws carried out together.
pub open spec fn draws_here(p: Packet) -> bool {
    match p.kind {
        PacketKind::Command { opcode } => spec_is_draw(opcode),
        _ => false,
    }
}

/// Whether nothing in the packet itself stops the run: it is quiet, a draw of a stream whose draws
/// are not interleaved with memory work, or a memory command whose body asks for what is carried
/// out here. Whether such a packet is carried out is then memory's answer.
pub open spec fn passable(stream: Seq<u8>, p: Packet, interleaved: Option<(u32, u8)>) -> bool {
    match p.kind {
        PacketKind::Reserved => false,
        PacketKind::Command { opcode } => if spec_is_memory_inert(opcode, body_bytes(stream, p).len() / 4) {
            true
        } else if spec_is_draw(opcode) {
            interleaved is None
        } else if opcode == measured::DMA_DATA {
            !(spec_dma_plan(packet_body(stream, p)) is Malformed) && !(spec_dma_plan(
                packet_body(stream, p),
            ) is NeedsGpu)
        } else if opcode == measured::RELEASE_MEM {
            !(spec_release_plan(packet_body(stream, p)) is Malformed) && !(spec_release_plan(
                packet_body(stream, p),
            ) is NeedsGpu)
        } else if opcode == WAIT_REG_MEM {
            spec_wait_plan(packet_body(stream, p)) is Check
        } else {
            false
        },
        _ => true,
    }
}

/// The stop a packet that is not passable forces, whatever memory holds: a reserved header or a
/// body shorter than its layout is malformed, a draw among interleaved memory work names the
/// interleaving, and anything else needs the GPU.
pub open spec fn forced_stop(stream: Seq<u8>, p: Packet, interleaved: Option<(u32, u8)>) -> Stopped {
    match p.kind {
        PacketKind::Command { opcode } => if spec_is_draw(opcode) && interleaved is Some {
            match interleaved {
                Some((at, op)) => Stopped::DrawsInterleaved { offset: at, opcode: op },
                None => Stopped::NeedsGpu { offset: p.offset, opcode },
            }
        } else if (opcode == measured::DMA_DATA && spec_dma_plan(packet_body(stream, p)) is Malformed)
            || (opcode == measured::RELEASE_MEM && spec_release_plan(packet_body(stream, p)) is Malformed)
            || (opcode == WAIT_REG_MEM && spec_wait_plan(packet_body(stream, p)) is Malformed) {
            Stopped::Malformed { offset: p.offset }
        } else {
            Stopped::NeedsGpu { offset: p.offset, opcode }
        },
        _ => Stopped::Malformed { offset: p.offset },
    }
}

/// The run's record once a passable packet is carried out.
pub open spec fn packet_counted(stream: Seq<u8>, p: Packet, before: CpExecution) -> CpExecution {
    match p.kind {
        PacketKind::Command { opcode } => if spec_is_memory_inert(opcode, body_bytes(stream, p).len() / 4) {
            before
        } else if spec_is_draw(opcode) {
            CpExecution { draws: bumped(before.draws), ..before }
        } else if opcode == measured::DMA_DATA {
            dma_counted(before, spec_dma_plan(packet_body(stream, p)))
        } else if opcode == measured::RELEASE_MEM {
            release_counted(before, spec_release_plan(packet_body(stream, p)))
        } else if opcode == WAIT_REG_MEM {
            CpExecution { waits: bumped(before.waits), ..before }
        } else {
            before
        },
        _ => before,
    }
}

/// The record of a run that carried out the first `k` packets.
pub open spec fn counted_through(stream: Seq<u8>, packets: Seq<Packet>, k: int) -> CpExecution
    decreases k,
{
    if k <= 0 {
        nothing_done()
    } else {
        packet_counted(stream, packets[k - 1], counted_through(stream, packets, k - 1))
    }
}

/// A run over quiet packets only counts nothing.
proof fn lemma_quiet_counts_nothing(stream: Seq<u8>, packets: Seq<Packet>, k: int)
    requires
        k <= packets.len(),
        forall|j: int| 0 <= j < k ==> #[trigger] quiet(stream, packets[j]),
    ensures
        counted_through(stream, packets, k) == nothing_done(),
    decreases k,
{
    if k > 0 {
        lemma_quiet_counts_nothing(stream, packets, k - 1);
        assert(quiet(stream, packets[k - 1]));
    }
}

/// Whether a draw is among the first `k` packets.
pub open spec fn drew_before(packets: Seq<Packet>, k: int) -> bool {
    exists|j: int| 0 <= j < k && #[trigger] draws_here(packets[j])
}

/// How a trustworthy stream's run ended, with `k` the packets it carried out: every one of them
/// passable and counted; completed exactly when all were; otherwise stopped at the next, which is
/// not quiet - by the stop it forces when it is not passable, and at a draw only because the first
/// draw could not be carried out.
pub open spec fn ran_through(stream: Seq<u8>, r: CpExecution, k: int) -> bool {
    let packets = walk_from(stream, 0).0;
    let interleaved = spec_interleaved(packets);
    &&& 0 <= k <= packets.len()
    &&& forall|j: int| 0 <= j < k ==> #[trigger] passable(stream, packets[j], interleaved)
    &&& CpExecution { stopped: Stopped::Completed, ..r } == counted_through(stream, packets, k)
    &&& (k == packets.len()) == (r.stopped is Completed)
    &&& k < packets.len() ==> {
        &&& stop_names_packet(r.stopped, packets[k], interleaved)
        &&& !quiet(stream, packets[k])
        &&& !passable(stream, packets[k], interleaved) ==> r.stopped == forced_stop(stream, packets[k], interleaved)
        &&& passable(stream, packets[k], interleaved) && draws_here(packets[k]) ==> r.stopped is NeedsGpu
            && !drew_before(packets, k)
    }
}

/// What packet `p` asked of memory, `passed` when the run went past it, with `drawn` whether a
/// draw came before it: nothing for state, filler, an inert command or a command not carried out
/// here; the stream's draws, carried out at its first draw when no memory work is interleaved with
/// them and passed only when that was done; and each memory command's own requests.
pub open spec fn packet_asked(
    stream: Seq<u8>,
    p: Packet,
    interleaved: Option<(u32, u8)>,
    drawn: bool,
    made: Seq<MemoryRequest>,
    passed: bool,
) -> bool {
    match p.kind {
        PacketKind::Command { opcode } => if spec_is_memory_inert(opcode, body_bytes(stream, p).len() / 4) {
            made.len() == 0
        } else if spec_is_draw(opcode) {
            if drawn || interleaved is Some {
                made.len() == 0
            } else {
                asked_to_draw(made, passed)
            }
        } else if opcode == measured::DMA_DATA {
            dma_asked(spec_dma_plan(packet_body(stream, p)), made, passed)
        } else if opcode == measured::RELEASE_MEM {
            release_asked(spec_release_plan(packet_body(stream, p)), made, passed)
        } else if opcode == WAIT_REG_MEM {
            wait_asked(spec_wait_plan(packet_body(stream, p)), made, passed)
        } else {
            made.len() == 0
        },
        _ => made.len() == 0,
    }
}

/// Runs of requests, one after another.
pub open spec fn joined(runs: Seq<Seq<MemoryRequest>>) -> Seq<MemoryRequest>
    decreases runs.len(),
{
    if runs.len() == 0 {
        Seq::empty()
    } else {
        joined(runs.drop_last()) + runs.last()
    }
}

/// Whether `made` is what a run of a trustworthy stream that went past its first `k` packets asked
/// of memory: each of those packets' requests in turn, then - when it stopped - the requests of the
/// packet it stopped at, and nothing more.
pub open spec fn asked_through(stream: Seq<u8>, k: int, made: Seq<MemoryRequest>) -> bool {
    let packets = walk_from(stream, 0).0;
    let interleaved = spec_interleaved(packets);
    exists|runs: Seq<Seq<MemoryRequest>>|
        {
            &&& runs.len() == (if k < packets.len() {
                k + 1
            } else {
                k
            })
            &&& joined(runs) == made
            &&& forall|j: int|
                0 <= j < k ==> packet_asked(stream, packets[j], interleaved, drew_before(packets, j), #[trigger] runs[j], true)
            &&& k < packets.len() ==> packet_asked(
                stream,
                packets[k],
                interleaved,
                drew_before(packets, k),
                runs[k],
                false,
            )
        }
}

/// Carries out one packet: passes it, or names why the run stops at it.
fn run_packet<M: CpMemory>(
    stream: &[u8],
    packet: &Packet,
    memory: &mut M,
    result: &mut CpExecution,
    draws_ran: &mut bool,
    interleaved: Option<(u32, u8)>,
) -> (r: Option<Stopped>)
    requires
        old(result).stopped is Completed,
        old(result).draws > 0 ==> interleaved is None,
        *old(draws_ran) ==> interleaved is None,
    ensures
        final(result).stopped is Completed,
        final(result).draws > 0 ==> interleaved is None,
        *final(draws_ran) ==> interleaved is None,
        match r {
            None => {
                &&& retirable(stream@, *packet)
                &&& passable(stream@, *packet, interleaved)
                &&& *final(result) == packet_counted(stream@, *packet, *old(result))
                &&& *final(draws_ran) == (*old(draws_ran) || draws_here(*packet))
            },
            Some(stop) => {
                &&& stop_names_packet(stop, *packet, interleaved)
                &&& *final(result) == *old(result)
                &&& !quiet(stream@, *packet)
                &&& !passable(stream@, *packet, interleaved) ==> stop == forced_stop(stream@, *packet, interleaved)
                &&& passable(stream@, *packet, interleaved) && draws_here(*packet) ==> stop is NeedsGpu
                    && !*old(draws_ran)
            },
        },
        M::records_requests() ==> extends(old(memory).requests(), final(memory).requests()) && packet_asked(
            stream@,
            *packet,
            interleaved,
            *old(draws_ran),
            made_since(old(memory).requests(), final(memory).requests()),
            r is None,
        ),
{
    proof {
        lemma_nothing_made(memory.requests());
    }
    let offset = packet.offset;
    let opcode = match packet.kind {
        PacketKind::RegisterWrite { .. } => {
            return None;
        },
        PacketKind::Filler => {
            return None;
        },
        PacketKind::Reserved => {
            return Some(Stopped::Malformed { offset });
        },
        PacketKind::Command { opcode } => opcode,
    };
    let bytes = packet_bytes(stream, packet);
    if is_memory_inert(opcode, bytes.len() / 4) {
        return None;
    }
    if is_draw(opcode) {
        if !*draws_ran {
            match interleaved {
                Some((at, op)) => {
                    return Some(Stopped::DrawsInterleaved { offset: at, opcode: op });
                },
                None => {},
            }
            if !memory.run_draws() {
                return Some(Stopped::NeedsGpu { offset, opcode });
            }
            *draws_ran = true;
        }
        result.draws = result.draws.saturating_add(1);
        return None;
    }
    let body = words_of(bytes);
    let step = if opcode == measured::DMA_DATA {
        dma_data(body.as_slice(), memory, result)
    } else if opcode == measured::RELEASE_MEM {
        release_mem(body.as_slice(), memory, result)
    } else if opcode == WAIT_REG_MEM {
        wait_reg_mem(body.as_slice(), memory, result)
    } else {
        Err(Stop::NeedsGpu)
    };
    match step {
        Ok(()) => None,
        Err(Stop::NeedsGpu) => Some(Stopped::NeedsGpu { offset, opcode }),
        Err(Stop::OutOfBounds) => Some(Stopped::OutOfBounds { offset }),
        Err(Stop::Wait) => {
            if opcode == WAIT_REG_MEM {
                Some(Stopped::WaitNeverSatisfied { offset })
            } else {
                Some(Stopped::NeedsGpu { offset, opcode })
            }
        },
        Err(Stop::Malformed) => Some(Stopped::Malformed { offset }),
    }
}

/// Carries out a stream's command-processor memory work, in order, stopping at the first packet
/// it cannot carry out exactly. A stream whose walk cannot be trusted runs nothing; a run that
/// completed passed only packets it could retire; draws are carried out only when nothing between
/// the first and the last touches memory, and a stop names the packet it stopped at. Of a memory
/// that keeps a record of its requests, the contract also says what was asked of it, in order:
/// each packet's requests up to the one it stopped at, and nothing after.
#[verifier::rlimit(40)]
pub fn execute<M: CpMemory>(stream: &[u8], memory: &mut M) -> (r: CpExecution)
    ensures
        !stream_trustworthy(stream@) ==> r == (CpExecution {
            stopped: Stopped::Malformed { offset: 0 },
            ..nothing_done()
        }),
        r.stopped is Completed ==> forall|i: int|
            0 <= i < walk_from(stream@, 0).0.len() ==> #[trigger] retirable(stream@, walk_from(stream@, 0).0[i]),
        stream_trustworthy(stream@) ==> stopped_at_packet(r.stopped, walk_from(stream@, 0).0),
        r.draws > 0 ==> spec_interleaved(walk_from(stream@, 0).0) is None,
        !stream_trustworthy(stream@) ==> *final(memory) == *old(memory),
        M::records_requests() ==> extends(old(memory).requests(), final(memory).requests()),
        stream_trustworthy(stream@) ==> exists|k: int|
            #[trigger] ran_through(stream@, r, k) && (M::records_requests() ==> asked_through(
                stream@,
                k,
                made_since(old(memory).requests(), final(memory).requests()),
            )),
        stream_trustworthy(stream@) && (forall|j: int|
            0 <= j < walk_from(stream@, 0).0.len() ==> #[trigger] quiet(stream@, walk_from(stream@, 0).0[j]))
            ==> r == nothing_done(),
{
    let ghost start = memory.requests();
    proof {
        lemma_nothing_made(start);
    }
    let mut result = CpExecution::default();
    let walked = walk(stream);
    if !walked.is_trustworthy() {
        result.stopped = Stopped::Malformed { offset: 0 };
        return result;
    }
    let ghost packets = walked.packets@;
    let interleaved = interleaved_with_draws(walked.packets.as_slice());
    let mut draws_ran = false;
    let mut k: usize = 0;
    let ghost mut runs: Seq<Seq<MemoryRequest>> = Seq::empty();
    while k < walked.packets.len()
        invariant
            start == old(memory).requests(),
            M::records_requests() ==> extends(start, memory.requests()),
            M::records_requests() ==> joined(runs) == made_since(start, memory.requests()),
            runs.len() == k,
            M::records_requests() ==> forall|j: int|
                0 <= j < k ==> packet_asked(
                    stream@,
                    packets[j],
                    interleaved,
                    drew_before(packets, j),
                    #[trigger] runs[j],
                    true,
                ),
            packets == walked.packets@,
            packets == walk_from(stream@, 0).0,
            stream_trustworthy(stream@),
            interleaved == spec_interleaved(packets),
            k <= packets.len(),
            result.stopped is Completed,
            result.draws > 0 ==> interleaved is None,
            draws_ran ==> interleaved is None,
            forall|j: int| 0 <= j < k ==> #[trigger] retirable(stream@, packets[j]),
            forall|j: int| 0 <= j < k ==> #[trigger] passable(stream@, packets[j], interleaved),
            result == counted_through(stream@, packets, k as int),
            draws_ran == drew_before(packets, k as int),
        decreases packets.len() - k,
    {
        let packet = walked.packets[k];
        let ghost before = result;
        let ghost drawn = draws_ran;
        let ghost asked_before = memory.requests();
        let step = run_packet(stream, &packet, memory, &mut result, &mut draws_ran, interleaved);
        let ghost made = made_since(asked_before, memory.requests());
        proof {
            assert(packets[k as int] == packet);
            let ghost earlier = runs;
            if M::records_requests() {
                lemma_made_in_turn(start, asked_before, memory.requests());
                assert(earlier.push(made).drop_last() =~= earlier);
                assert(drawn == drew_before(packets, k as int));
                assert forall|j: int| 0 <= j < k implies #[trigger] earlier.push(made)[j] == earlier[j] by {}
            }
            runs = earlier.push(made);
        }
        match step {
            None => {
                proof {
                    assert(drew_before(packets, k as int + 1) == (drawn || draws_here(packet))) by {
                        if draws_here(packet) {
                            assert(draws_here(packets[k as int]));
                        }
                        if drew_before(packets, k as int + 1) && !draws_here(packet) {
                            let j = choose|j: int| 0 <= j < k + 1 && #[trigger] draws_here(packets[j]);
                            assert(j < k);
                        }
                    }
                }
            },
            Some(stop) => {
                proof {
                    assert(packets[k as int] == packet);
                }
                result.stopped = stop;
                proof {
                    assert(ran_through(stream@, result, k as int));
                    if M::records_requests() {
                        assert(asked_through(stream@, k as int, made_since(start, memory.requests())));
                    }
                }
                return result;
            },
        }
        k = k + 1;
    }
    proof {
        assert(ran_through(stream@, result, k as int));
        if M::records_requests() {
            assert(asked_through(stream@, k as int, made_since(start, memory.requests())));
        }
        if forall|j: int| 0 <= j < packets.len() ==> #[trigger] quiet(stream@, packets[j]) {
            lemma_quiet_counts_nothing(stream@, packets, k as int);
        }
    }
    result
}

} // verus!
