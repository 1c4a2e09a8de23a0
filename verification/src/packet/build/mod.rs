//! Building command packets - the write side of [`super::walk`].
//!
//! The same header format, produced rather than parsed, so a packet this writes walks back to the
//! packet it stood for. The format is the vendor's public packet format with Mesa's opcode values.
use vstd::prelude::*;
use super::{
    PacketKind, header_body_dwords, header_kind, header_length, header_type, le_word, walk_from,
    packet_at,
};

pub mod measured;

verus! {

/// The header of a type-3 command packet: `opcode`, then `body_dwords` dwords.
pub open spec fn spec_command_header(opcode: u8, body_dwords: u32) -> u32 {
    (3u32 << 30u32) | (((body_dwords - 1) as u32) << 16u32) | ((opcode as u32) << 8u32)
}

/// The header of a type-3 command packet: an `opcode`, then `body_dwords` dwords.
///
/// `body_dwords` is the true count; the field stores one less, the adjustment [`super::walk`]
/// undoes. It must be at least one, since a type-3 packet has a body.
pub fn command_header(opcode: u8, body_dwords: u32) -> (r: u32)
    requires
        body_dwords >= 1,
    ensures
        r == spec_command_header(opcode, body_dwords),
{
    (3u32 << 30u32) | ((body_dwords - 1) << 16u32) | ((opcode as u32) << 8u32)
}

/// A type-2 filler: one dword, no body.
pub fn filler() -> (r: u32)
    ensures
        r == 0x8000_0000u32,
{
    assert(2u32 << 30u32 == 0x8000_0000u32) by (bit_vector);
    2u32 << 30u32
}

/// `IT_DISPATCH_DIRECT`, the opcode that issues a compute dispatch.
pub const DISPATCH_DIRECT: u8 = 0x15;

/// The dwords of a direct compute dispatch of `x` by `y` by `z` thread groups: the header with
/// the compute shader-type bit, the three dimensions, and the initiator with `COMPUTE_SHADER_EN`.
pub fn dispatch_direct(x: u32, y: u32, z: u32) -> (r: [u32; 5])
    ensures
        r@ == seq![spec_command_header(DISPATCH_DIRECT, 4) | 2u32, x, y, z, 1u32],
{
    [command_header(DISPATCH_DIRECT, 4) | 2u32, x, y, z, 1u32]
}

/// A reservation skeleton for a builder measured only by its header and extent: the measured
/// `opcode`, the measured `body_dwords`, and a zeroed body.
pub fn reservation(opcode: u8, body_dwords: u32) -> (r: Vec<u32>)
    requires
        body_dwords >= 1,
        body_dwords < usize::MAX,
    ensures
        r@.len() == 1 + body_dwords,
        r@[0] == spec_command_header(opcode, body_dwords),
        forall|i: int| 1 <= i < r@.len() ==> r@[i] == 0,
{
    let mut out: Vec<u32> = Vec::new();
    out.push(command_header(opcode, body_dwords));
    let total: usize = 1 + body_dwords as usize;
    while out.len() < total
        invariant
            1 <= out@.len() <= total,
            total == 1 + body_dwords,
            out@[0] == spec_command_header(opcode, body_dwords),
            forall|i: int| 1 <= i < out@.len() ==> out@[i] == 0,
        decreases total - out@.len(),
    {
        out.push(0);
    }
    out
}

/// The `SET_UCONFIG_REG` header the marker and wait builders write, with a bit set in its
/// reserved low byte that `command_header` does not produce.
pub const MARKER_HEADER: u32 = 0xc001_7904;

/// A push/pop debug-marker skeleton: the measured 12-byte header, body zeroed.
pub fn marker_skeleton() -> (r: [u32; 3])
    ensures
        r@ == seq![MARKER_HEADER, 0u32, 0u32],
{
    [MARKER_HEADER, 0, 0]
}

/// A `WAIT_REG_MEM` skeleton - the measured 56-byte compound stream, every header kept, body
/// zero: a four-dword `SET_UCONFIG_REG`, a seven-dword `WAIT_REG_MEM` and a three-dword
/// `SET_UCONFIG_REG`.
pub fn wait_reg_mem_skeleton() -> (r: [u32; 14])
    ensures
        r@ == seq![
            0xc002_7904u32,
            0u32,
            0u32,
            0u32,
            spec_command_header(0x3c, 6),
            0u32,
            0u32,
            0u32,
            0u32,
            0u32,
            0u32,
            MARKER_HEADER,
            0u32,
            0u32,
        ],
{
    [0xc002_7904, 0, 0, 0, command_header(0x3c, 6), 0, 0, 0, 0, 0, 0, MARKER_HEADER, 0, 0]
}

/// A `sceAgcDcbResetQueue` skeleton - the measured 32-byte stream: a NOP, then two
/// `SET_UCONFIG_REG` packets with zeroed bodies.
pub fn reset_queue_skeleton() -> (r: [u32; 8])
    ensures
        r@ == seq![0xffff_1000u32, 0xc002_7904u32, 0u32, 0u32, 0u32, MARKER_HEADER, 0u32, 0u32],
{
    [0xffff_1000, 0xc002_7904, 0, 0, 0, MARKER_HEADER, 0, 0]
}

/// A `SET_CONTEXT_REG_INDIRECT` skeleton - the packet a guest patches with register data. Five
/// dwords, 20 bytes, with the measured format word `0x80000000` in dword three.
pub fn set_cx_registers_indirect_skeleton() -> (r: [u32; 5])
    ensures
        r@ == seq![
            spec_command_header(measured::SET_CONTEXT_REG_INDIRECT, 4),
            0u32,
            0u32,
            0x8000_0000u32,
            0u32,
        ],
{
    [command_header(measured::SET_CONTEXT_REG_INDIRECT, 4), 0, 0, 0x8000_0000, 0]
}

/// A `NOP` - a header-only no-op packet, one dword.
pub fn nop() -> (r: [u32; 1])
    ensures
        r@ == seq![0xffff_1000u32],
{
    [0xffff_1000]
}

/// An `ACQUIRE_MEM` skeleton - the packet reserved, its body zeroed. Eight dwords.
pub fn acquire_mem_skeleton() -> (r: [u32; 8])
    ensures
        r@ == seq![spec_command_header(measured::ACQUIRE_MEM, 7), 0u32, 0u32, 0u32, 0u32, 0u32, 0u32, 0u32],
{
    [command_header(measured::ACQUIRE_MEM, 7), 0, 0, 0, 0, 0, 0, 0]
}

/// A `RELEASE_MEM` skeleton - the packet reserved, its body zeroed. Eight dwords.
pub fn release_mem_skeleton() -> (r: [u32; 8])
    ensures
        r@ == seq![spec_command_header(measured::RELEASE_MEM, 7), 0u32, 0u32, 0u32, 0u32, 0u32, 0u32, 0u32],
{
    [command_header(measured::RELEASE_MEM, 7), 0, 0, 0, 0, 0, 0, 0]
}

/// A `DMA_DATA` skeleton - the packet reserved, its body zeroed. Seven dwords.
pub fn dma_data_skeleton() -> (r: [u32; 7])
    ensures
        r@ == seq![spec_command_header(measured::DMA_DATA, 6), 0u32, 0u32, 0u32, 0u32, 0u32, 0u32],
{
    [command_header(measured::DMA_DATA, 6), 0, 0, 0, 0, 0, 0]
}

/// A `SET_BASE` skeleton for the indirect-args base - body zeroed. Four dwords.
pub fn set_base_indirect_args_skeleton() -> (r: [u32; 4])
    ensures
        r@ == seq![spec_command_header(measured::SET_BASE, 3), 0u32, 0u32, 0u32],
{
    [command_header(measured::SET_BASE, 3), 0, 0, 0]
}

/// An `EVENT_WRITE` for `event_type`. Two dwords.
pub fn event_write(event_type: u32) -> (r: [u32; 2])
    ensures
        r@ == seq![spec_command_header(measured::EVENT_WRITE, 1), event_type],
{
    [command_header(measured::EVENT_WRITE, 1), event_type]
}

/// An `INDEX_BUFFER_SIZE` declaring how many indices a subsequent draw reads. Two dwords.
pub fn set_index_count(indices: u32) -> (r: [u32; 2])
    ensures
        r@ == seq![spec_command_header(measured::INDEX_BUFFER_SIZE, 1), indices],
{
    [command_header(measured::INDEX_BUFFER_SIZE, 1), indices]
}

/// A `NUM_INSTANCES` setting the instance count for subsequent draws. Two dwords.
pub fn set_num_instances(instances: u32) -> (r: [u32; 2])
    ensures
        r@ == seq![spec_command_header(measured::NUM_INSTANCES, 1), instances],
{
    [command_header(measured::NUM_INSTANCES, 1), instances]
}

/// A `DRAW_INDEX_AUTO` - a draw whose indices are generated rather than fetched. Three dwords.
pub fn draw_index_auto(index_count: u32, initiator: u32) -> (r: [u32; 3])
    ensures
        r@ == seq![spec_command_header(measured::DRAW_INDEX_AUTO, 2), index_count, initiator],
{
    [command_header(measured::DRAW_INDEX_AUTO, 2), index_count, initiator]
}

/// The low half of a 64-bit address.
pub open spec fn low_half(address: u64) -> u32 {
    (address & 0xffff_ffffu64) as u32
}

/// The high half of a 64-bit address.
pub open spec fn high_half(address: u64) -> u32 {
    (address >> 32u64) as u32
}

fn split_address(address: u64) -> (r: (u32, u32))
    ensures
        r.0 == low_half(address),
        r.1 == high_half(address),
        r.0 as u64 | ((r.1 as u64) << 32u64) == address,
{
    let lo = (address & 0xffff_ffffu64) as u32;
    let hi = (address >> 32u64) as u32;
    assert((address & 0xffff_ffffu64) as u32 as u64 | (((address >> 32u64) as u32 as u64) << 32u64)
        == address) by (bit_vector);
    (lo, hi)
}

/// An `INDEX_BASE` carrying the 64-bit address of the index buffer, low half first. Three dwords.
pub fn set_index_base(address: u64) -> (r: [u32; 3])
    ensures
        r@ == seq![spec_command_header(measured::INDEX_BASE, 2), low_half(address), high_half(address)],
{
    let (lo, hi) = split_address(address);
    [command_header(measured::INDEX_BASE, 2), lo, hi]
}

/// A `SET_CONTEXT_REG` writing one value into one context register. Three dwords.
pub fn set_context_register(offset: u16, value: u32) -> (r: [u32; 3])
    ensures
        r@ == seq![spec_command_header(measured::SET_CONTEXT_REG, 2), offset as u32, value],
{
    [command_header(measured::SET_CONTEXT_REG, 2), offset as u32, value]
}

/// A `SET_UCONFIG_REG` writing one value into one user-config register. Three dwords.
pub fn set_uconfig_register(offset: u16, value: u32) -> (r: [u32; 3])
    ensures
        r@ == seq![spec_command_header(measured::SET_UCONFIG_REG, 2), offset as u32, value],
{
    [command_header(measured::SET_UCONFIG_REG, 2), offset as u32, value]
}

/// A `SET_SH_REG` writing a run of consecutive shader registers: `values.len() + 2` dwords, or
/// nothing for an empty run (a zero-register write is not a packet) or one too long to count.
pub fn set_sh_register_range(offset: u16, values: &[u32]) -> (r: Vec<u32>)
    ensures
        values@.len() == 0 || values@.len() + 1 > u32::MAX ==> r@.len() == 0,
        values@.len() > 0 && values@.len() + 1 <= u32::MAX ==> r@ == seq![
            spec_command_header(measured::SET_SH_REG, (values@.len() + 1) as u32),
            offset as u32,
        ] + values@,
{
    if values.len() == 0 {
        return Vec::new();
    }
    if values.len() >= 0xFFFF_FFFF {
        return Vec::new();
    }
    let body = (values.len() + 1) as u32;
    let mut out: Vec<u32> = Vec::new();
    out.push(command_header(measured::SET_SH_REG, body));
    out.push(offset as u32);
    let mut i: usize = 0;
    while i < values.len()
        invariant
            i <= values@.len(),
            out@ == seq![spec_command_header(measured::SET_SH_REG, body), offset as u32]
                + values@.subrange(0, i as int),
        decreases values@.len() - i,
    {
        out.push(values[i]);
        proof {
            assert(values@.subrange(0, i as int + 1) =~= values@.subrange(0, i as int).push(
                values@[i as int],
            ));
        }
        i = i + 1;
    }
    proof {
        assert(values@.subrange(0, i as int) =~= values@);
    }
    out
}

/// The selector every measured `SET_UCONFIG_REG_INDEX` carried.
pub const INDEX_SIZE_SELECTOR: u32 = 0x2000_0243;

/// A `SET_UCONFIG_REG_INDEX` selecting the index buffer's entry width: `0x400 | (flags << 6) |
/// type`, with larger arguments masked. Three dwords.
pub fn set_index_size(index_type: u32, flags: u32) -> (r: [u32; 3])
    ensures
        r@ == seq![
            spec_command_header(measured::SET_UCONFIG_REG_INDEX, 2),
            INDEX_SIZE_SELECTOR,
            0x400u32 | ((flags & 1u32) << 6u32) | (index_type & 3u32),
        ],
{
    [
        command_header(measured::SET_UCONFIG_REG_INDEX, 2),
        INDEX_SIZE_SELECTOR,
        0x400u32 | ((flags & 1u32) << 6u32) | (index_type & 3u32),
    ]
}

/// A `DRAW_INDEX_2` - an indexed draw from a bound index buffer: `max_size`, the address low and
/// high halves, the index count and the initiator. Six dwords.
pub fn draw_index_2(max_size: u32, address: u64, index_count: u32, initiator: u32) -> (r: [u32; 6])
    ensures
        r@ == seq![
            spec_command_header(measured::DRAW_INDEX_2, 5),
            max_size,
            low_half(address),
            high_half(address),
            index_count,
            initiator,
        ],
{
    let (lo, hi) = split_address(address);
    [command_header(measured::DRAW_INDEX_2, 5), max_size, lo, hi, index_count, initiator]
}

/// The four little-endian bytes of a word.
pub open spec fn word_bytes(w: u32) -> Seq<u8> {
    seq![(w & 0xff) as u8, ((w >> 8u32) & 0xff) as u8, ((w >> 16u32) & 0xff) as u8, ((w >> 24u32) & 0xff) as u8]
}

/// Words laid out as little-endian bytes, the way a command buffer holds them.
pub open spec fn words_le_bytes(w: Seq<u32>) -> Seq<u8>
    decreases w.len(),
{
    if w.len() == 0 {
        Seq::empty()
    } else {
        word_bytes(w[0]) + words_le_bytes(w.drop_first())
    }
}

proof fn lemma_words_le_bytes_len(w: Seq<u32>)
    ensures
        words_le_bytes(w).len() == 4 * w.len(),
    decreases w.len(),
{
    if w.len() > 0 {
        lemma_words_le_bytes_len(w.drop_first());
    }
}

/// Reading a word back out of its little-endian bytes gives the word.
pub proof fn lemma_word_bytes_read_back(w: u32)
    ensures
        le_word(word_bytes(w), 0) == w,
{
    let b0 = (w & 0xff) as u8;
    let b1 = ((w >> 8u32) & 0xff) as u8;
    let b2 = ((w >> 16u32) & 0xff) as u8;
    let b3 = ((w >> 24u32) & 0xff) as u8;
    assert((((w & 0xff) as u8) as u32) | ((((w >> 8u32) & 0xff) as u8 as u32) << 8u32) | ((((w
        >> 16u32) & 0xff) as u8 as u32) << 16u32) | ((((w >> 24u32) & 0xff) as u8 as u32) << 24u32)
        == w) by (bit_vector);
    assert(word_bytes(w)[0] == b0 && word_bytes(w)[1] == b1 && word_bytes(w)[2] == b2
        && word_bytes(w)[3] == b3);
}

proof fn lemma_command_header_fields(opcode: u8, body_dwords: u32)
    requires
        1 <= body_dwords <= 0x3FFF,
    ensures
        header_type(spec_command_header(opcode, body_dwords)) == 3,
        header_body_dwords(spec_command_header(opcode, body_dwords)) == body_dwords,
        header_kind(spec_command_header(opcode, body_dwords)) == (PacketKind::Command { opcode }),
        header_length(spec_command_header(opcode, body_dwords)) == 4 + 4 * body_dwords,
{
    let n = (body_dwords - 1) as u32;
    let op = opcode as u32;
    assert(op <= 0xff);
    assert(n <= 0x3FFE);
    let h = (3u32 << 30u32) | (n << 16u32) | (op << 8u32);
    assert(h == spec_command_header(opcode, body_dwords));
    assert((((3u32 << 30u32) | (n << 16u32) | (op << 8u32)) >> 30u32) & 3u32 == 3) by (bit_vector)
        requires
            n <= 0x3FFE,
            op <= 0xff,
    ;
    assert((((3u32 << 30u32) | (n << 16u32) | (op << 8u32)) >> 16u32) & 0x3FFFu32 == n) by (
    bit_vector)
        requires
            n <= 0x3FFE,
            op <= 0xff,
    ;
    assert((((3u32 << 30u32) | (n << 16u32) | (op << 8u32)) >> 8u32) & 0xFFu32 == op) by (
    bit_vector)
        requires
            n <= 0x3FFE,
            op <= 0xff,
    ;
    assert(((h >> 8u32) & 0xFFu32) as u8 == opcode);
}

/// **A command packet this module builds walks back to the packet it stood for**: a header from
/// [`command_header`] followed by its `body_dwords` body words is one command packet with that
/// opcode, four bytes per dword long, and the walk of it is trustworthy.
pub proof fn lemma_command_walks_back(opcode: u8, body: Seq<u32>)
    requires
        1 <= body.len() <= 0x3FFF,
    ensures
        ({
            let bytes = words_le_bytes(seq![spec_command_header(opcode, body.len() as u32)] + body);
            let w = walk_from(bytes, 0);
            &&& w.0.len() == 1
            &&& w.0[0].kind == (PacketKind::Command { opcode })
            &&& w.0[0].offset == 0
            &&& w.0[0].length == 4 * (body.len() + 1)
            &&& !w.1
            &&& !w.2
            &&& bytes.len() % 4 == 0
        }),
{
    let n = body.len() as u32;
    let h = spec_command_header(opcode, n);
    let words = seq![h] + body;
    let bytes = words_le_bytes(words);
    lemma_words_le_bytes_len(words);
    lemma_command_header_fields(opcode, n);
    assert(words[0] == h);
    assert(words.drop_first() =~= body);
    lemma_word_bytes_read_back(h);
    assert(bytes == word_bytes(h) + words_le_bytes(body));
    assert(le_word(bytes, 0) == le_word(word_bytes(h), 0));
    let p = packet_at(bytes, 0);
    assert(p.length == 4 + 4 * n);
    assert(walk_from(bytes, p.length as int).0 =~= Seq::empty());
}

} // verus!
