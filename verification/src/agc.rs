//! The current generation's graphics interface - the calls a guest makes into its graphics
//! library, answered over guest memory: shader objects relocated in place, the shader-linkage
//! tables written, and command packets appended through the guest's writer handle.
use vstd::prelude::*;
use crate::packet::build;
use crate::packet::build::{
    DISPATCH_DIRECT, MARKER_HEADER, INDEX_SIZE_SELECTOR, high_half, low_half, measured,
    spec_command_header,
};
use crate::guest::{
    GuestWords, dword_or_zero, lemma_read_back_u32, lemma_read_back_u64, lemma_read_u64_past_store,
    lemma_store_keeps_domain, mapped, quad_or_zero, spec_read_u32, spec_read_u64, spec_write_u32,
    spec_write_u64,
};
use crate::cp::{spec_u32_bytes, spec_u64_bytes};

verus! {

/// The register offset and value a `*RegisterDirect` builder takes packed into one quadword as
/// `(value << 32) | offset`: the offset is the low sixteen bits, the value the high half.
pub open spec fn spec_unpack_register_entry(entry: u64) -> (u16, u32) {
    ((entry % 0x1_0000) as u16, (entry / 0x1_0000_0000) as u32)
}

/// The register offset and value a `*RegisterDirect` builder takes packed into one quadword.
pub fn unpack_register_entry(entry: u64) -> (r: (u16, u32))
    ensures
        r == spec_unpack_register_entry(entry),
{
    let offset = (entry & 0xFFFFu64) as u16;
    let value = (entry >> 32u64) as u32;
    proof {
        assert(entry & 0xFFFFu64 == entry % 0x1_0000) by (bit_vector);
        assert(entry >> 32u64 == entry / 0x1_0000_0000) by (bit_vector);
    }
    (offset, value)
}

/// Packing an offset and a value the way a guest does and unpacking them gives both back
/// unchanged.
pub proof fn lemma_unpack_inverts_packing(offset: u16, value: u32)
    ensures
        spec_unpack_register_entry((value as u64 * 0x1_0000_0000 + offset as u64) as u64) == (
            offset,
            value,
        ),
{
    let entry = (value as u64 * 0x1_0000_0000 + offset as u64) as u64;
    assert(value as u64 * 0x1_0000_0000 + offset as u64 <= u64::MAX) by (nonlinear_arith)
        requires
            value <= u32::MAX,
            offset <= u16::MAX,
    ;
    assert(entry % 0x1_0000 == offset as int) by (nonlinear_arith)
        requires
            entry == value as int * 0x1_0000_0000 + offset as int,
            0 <= offset < 0x1_0000,
            value >= 0,
    ;
    assert(entry / 0x1_0000_0000 == value as int) by (nonlinear_arith)
        requires
            entry == value as int * 0x1_0000_0000 + offset as int,
            0 <= offset < 0x1_0000,
    ;
}

/// How many argument registers a guest call captures: the trampoline's full capture.
pub const GUEST_ARG_REGISTERS: usize = 6;

/// A successful answer, as the guest reads it.
pub const OK: u64 = 0;

/// The library's "bad argument" answer, which its own validating wrapper gives for a null
/// pointer argument: returned when a required pointer is null, rather than writing through it.
pub const BAD_ARGUMENT: u64 = 0x8a6c_000a;

/// `sceAgcInit`'s answer for a version it does not support.
pub const INVALID_VERSION: u64 = 0x8a6c_0004;

/// The one interface version `sceAgcInit` accepts.
pub const SUPPORTED_VERSION: u32 = 13;

/// A self-relative offset in a shader object is relocated when it is non-zero and below this.
pub const RELOCATION_LIMIT: u64 = 0x1000;

/// How many entries the shader object's sub-table holds, and how many group-pointer slots follow
/// its bytecode pointer.
pub const RELOCATED_RUN: u64 = 5;

/// Where the group-pointer slots start within a shader object.
pub const GROUP_SLOTS: u64 = 0x18;

/// Where the register descriptor's pointer sits within a shader object, once relocated.
pub const REGISTER_DESCRIPTOR: u64 = 0x20;

/// The number of quadwords in the PS-input interpolant table.
pub const INTERPOLANT_ENTRIES: u64 = 32;

/// `SPI_PS_INPUT_CNTL_0`, the register the default interpolant table routes input zero through.
pub const SPI_PS_INPUT_CNTL_0: u64 = 0x191;

/// The stage-routing quadword `sceAgcLinkShaders` writes at `link_state + 0x108`.
pub const LINK_STAGE_ROUTING: u64 = 0x0000_0002_0000_029b;

/// Where the stage-routing quadword sits in a link state.
pub const LINK_ROUTING_OFFSET: u64 = 0x108;

/// Where the topology dword sits in a secondary state.
pub const TOPOLOGY_FIELD: u64 = 0x14;

/// The bits of the topology dword the topology occupies.
pub const TOPOLOGY_MASK: u32 = 0x1f;

/// The size in bytes the unnamed inline size query answers.
pub const PHANTOM_WORKLOAD_SIZE: u64 = 0xa8;

/// A self-relative quadword field made absolute: the field's own address plus the offset it
/// holds, when that offset is non-zero and below [`RELOCATION_LIMIT`]; otherwise left alone.
pub open spec fn spec_relocate(m: Map<int, u8>, field: u64) -> Map<int, u8> {
    let rel = quad_or_zero(m, field);
    if rel != 0 && rel < RELOCATION_LIMIT {
        spec_write_u64(m, field, field.wrapping_add(rel))
    } else {
        m
    }
}

/// The quadword fields at `base + first + 8 * i`, for `i` below `count`, relocated one after the
/// other in that order.
pub open spec fn relocated_fields(m: Map<int, u8>, base: u64, first: u64, count: nat) -> Map<
    int,
    u8,
>
    decreases count,
{
    if count == 0 {
        m
    } else {
        spec_relocate(
            relocated_fields(m, base, first, (count - 1) as nat),
            base.wrapping_add((first + 8 * (count - 1)) as u64),
        )
    }
}

/// The program address patched into a register descriptor: nothing when the descriptor pointer
/// is null or its first dword names no register; otherwise `payload >> 8` into its second dword
/// and `payload >> 40` into its fourth.
pub open spec fn spec_patch_program_address(m: Map<int, u8>, registers: u64, payload: u64) -> Map<
    int,
    u8,
> {
    if registers == 0 || dword_or_zero(m, registers) == 0 {
        m
    } else {
        spec_write_u32(
            spec_write_u32(m, registers.wrapping_add(4), (payload >> 8u64) as u32),
            registers.wrapping_add(12),
            (payload >> 40u64) as u32,
        )
    }
}

/// The shader object `sceAgcCreateShader` leaves: `*out` is the header's address, `+0x10` the
/// bytecode pointer, the `+0x8` offset and the sub-table it leads to made absolute, the five
/// group-pointer slots relocated, and the program address patched into the register descriptor
/// `+0x20` then points at.
pub open spec fn spec_create_shader(m: Map<int, u8>, out: u64, header: u64, bytecode: u64) -> Map<
    int,
    u8,
> {
    let placed = spec_write_u64(spec_write_u64(m, out, header), header.wrapping_add(0x10), bytecode);
    let off_8 = quad_or_zero(placed, header.wrapping_add(8));
    let tabled = if off_8 != 0 && off_8 < RELOCATION_LIMIT {
        let sub_table = header.wrapping_add(off_8).wrapping_add(8);
        relocated_fields(
            spec_write_u64(placed, header.wrapping_add(8), sub_table),
            sub_table,
            0,
            RELOCATED_RUN as nat,
        )
    } else {
        placed
    };
    let grouped = relocated_fields(tabled, header, GROUP_SLOTS, RELOCATED_RUN as nat);
    spec_patch_program_address(
        grouped,
        quad_or_zero(grouped, header.wrapping_add(REGISTER_DESCRIPTOR)),
        bytecode,
    )
}

/// Entry `i` of the default PS-input interpolant table: `(i << 32) | (0x191 + i)`, routing input
/// `i` from attribute slot `i`.
pub open spec fn default_interpolant(i: u64) -> u64 {
    (i << 32u64) | ((SPI_PS_INPUT_CNTL_0 + i) as u64)
}

/// The first `count` entries of the default interpolant table written from `at`, in order.
pub open spec fn interpolants_written(m: Map<int, u8>, at: u64, count: nat) -> Map<int, u8>
    decreases count,
{
    if count == 0 {
        m
    } else {
        spec_write_u64(
            interpolants_written(m, at, (count - 1) as nat),
            at.wrapping_add((8 * (count - 1)) as u64),
            default_interpolant((count - 1) as u64),
        )
    }
}

/// The topology recorded in the low five bits of the dword at `sec_state + 0x14`, the other
/// twenty-seven bits kept.
pub open spec fn spec_set_topology(m: Map<int, u8>, sec_state: u64, topology: u32) -> Map<int, u8> {
    let field = sec_state.wrapping_add(TOPOLOGY_FIELD);
    spec_write_u32(m, field, (dword_or_zero(m, field) & !TOPOLOGY_MASK) | (topology & TOPOLOGY_MASK))
}

/// The link state `sceAgcLinkShaders` leaves: the default interpolant table at its front and the
/// stage-routing quadword at `+0x108`.
pub open spec fn spec_link_shaders(m: Map<int, u8>, link_state: u64) -> Map<int, u8> {
    spec_write_u64(
        interpolants_written(m, link_state, INTERPOLANT_ENTRIES as nat),
        link_state.wrapping_add(LINK_ROUTING_OFFSET),
        LINK_STAGE_ROUTING,
    )
}

/// Relocates one self-relative quadword field.
fn relocate<M: GuestWords>(memory: &mut M, field: u64)
    ensures
        final(memory).contents() == spec_relocate(old(memory).contents(), field),
{
    let rel = match memory.read_u64(field) {
        Some(v) => v,
        None => 0,
    };
    if rel != 0 && rel < RELOCATION_LIMIT {
        memory.write_u64(field, field.wrapping_add(rel));
    }
}

/// Relocates the `count` quadword fields from `base + first`, one after the other.
fn relocate_fields<M: GuestWords>(memory: &mut M, base: u64, first: u64, count: u64)
    requires
        first + 8 * count <= u64::MAX,
    ensures
        final(memory).contents() == relocated_fields(old(memory).contents(), base, first, count as nat),
{
    let ghost start = memory.contents();
    let mut i: u64 = 0;
    while i < count
        invariant
            i <= count,
            first + 8 * count <= u64::MAX,
            memory.contents() == relocated_fields(start, base, first, i as nat),
        decreases count - i,
    {
        relocate(memory, base.wrapping_add(first + 8 * i));
        i = i + 1;
    }
}

/// Writes the program's address into the shader's register descriptor, as the hardware does.
fn patch_program_address<M: GuestWords>(memory: &mut M, registers: u64, payload: u64)
    ensures
        final(memory).contents() == spec_patch_program_address(
            old(memory).contents(),
            registers,
            payload,
        ),
{
    if registers == 0 {
        return;
    }
    let first = match memory.read_u32(registers) {
        Some(v) => v,
        None => 0,
    };
    if first == 0 {
        return;
    }
    memory.write_u32(registers.wrapping_add(4), (payload >> 8u64) as u32);
    memory.write_u32(registers.wrapping_add(12), (payload >> 40u64) as u32);
}

/// `sceAgcCreateShader(out, header, bytecode, flags)`: the shader object is the guest's header
/// region itself. Writes the header's address into `*out`, the bytecode pointer at `+0x10`, turns
/// the header's self-relative offsets into absolute pointers within it, and patches the program
/// address into its register descriptor. A null `out` or `header` is refused with
/// [`BAD_ARGUMENT`] and nothing written.
pub fn create_shader<M: GuestWords>(args: &[u64; GUEST_ARG_REGISTERS], memory: &mut M) -> (r: u64)
    ensures
        r == (if args@[0] == 0 || args@[1] == 0 {
            BAD_ARGUMENT
        } else {
            OK
        }),
        final(memory).contents() == (if args@[0] == 0 || args@[1] == 0 {
            old(memory).contents()
        } else {
            spec_create_shader(old(memory).contents(), args@[0], args@[1], args@[2])
        }),
{
    let out = args[0];
    let header = args[1];
    let bytecode = args[2];
    if out == 0 || header == 0 {
        return BAD_ARGUMENT;
    }
    memory.write_u64(out, header);
    memory.write_u64(header.wrapping_add(0x10), bytecode);
    let off_8 = match memory.read_u64(header.wrapping_add(8)) {
        Some(v) => v,
        None => 0,
    };
    if off_8 != 0 && off_8 < RELOCATION_LIMIT {
        let sub_table = header.wrapping_add(off_8).wrapping_add(8);
        memory.write_u64(header.wrapping_add(8), sub_table);
        relocate_fields(memory, sub_table, 0, RELOCATED_RUN);
    }
    relocate_fields(memory, header, GROUP_SLOTS, RELOCATED_RUN);
    let registers = match memory.read_u64(header.wrapping_add(REGISTER_DESCRIPTOR)) {
        Some(v) => v,
        None => 0,
    };
    patch_program_address(memory, registers, bytecode);
    OK
}

/// Writes the default PS-input interpolant table at `at`.
fn write_default_interpolants<M: GuestWords>(memory: &mut M, at: u64)
    ensures
        final(memory).contents() == interpolants_written(
            old(memory).contents(),
            at,
            INTERPOLANT_ENTRIES as nat,
        ),
{
    let ghost start = memory.contents();
    let mut i: u64 = 0;
    while i < INTERPOLANT_ENTRIES
        invariant
            i <= INTERPOLANT_ENTRIES,
            memory.contents() == interpolants_written(start, at, i as nat),
        decreases INTERPOLANT_ENTRIES - i,
    {
        let entry = (i << 32u64) | (SPI_PS_INPUT_CNTL_0 + i);
        memory.write_u64(at.wrapping_add(i * 8), entry);
        i = i + 1;
    }
}

/// Records `topology` in the low five bits of the dword at `sec_state + 0x14`, keeping the rest.
fn set_topology<M: GuestWords>(memory: &mut M, sec_state: u64, topology: u32)
    ensures
        final(memory).contents() == spec_set_topology(old(memory).contents(), sec_state, topology),
{
    let field = sec_state.wrapping_add(TOPOLOGY_FIELD);
    let prev = match memory.read_u32(field) {
        Some(v) => v,
        None => 0,
    };
    memory.write_u32(field, (prev & !TOPOLOGY_MASK) | (topology & TOPOLOGY_MASK));
}

/// `sceAgcCreateInterpolantMapping(mapping, vs, ps)`: fills `mapping` with the default
/// 32-quadword PS-input table, the only one the hardware was seen writing. A null `mapping` is
/// refused.
pub fn create_interpolant_mapping<M: GuestWords>(
    args: &[u64; GUEST_ARG_REGISTERS],
    memory: &mut M,
) -> (r: u64)
    ensures
        r == (if args@[0] == 0 {
            BAD_ARGUMENT
        } else {
            OK
        }),
        final(memory).contents() == (if args@[0] == 0 {
            old(memory).contents()
        } else {
            interpolants_written(old(memory).contents(), args@[0], INTERPOLANT_ENTRIES as nat)
        }),
{
    let mapping = args[0];
    if mapping == 0 {
        return BAD_ARGUMENT;
    }
    write_default_interpolants(memory, mapping);
    OK
}

/// `sceAgcUpdateInterpolantMapping(mapping, vs, ps)`: rewrites the table in place; with no remap
/// measured, the update re-establishes the default table. A null `mapping` is refused.
pub fn update_interpolant_mapping<M: GuestWords>(
    args: &[u64; GUEST_ARG_REGISTERS],
    memory: &mut M,
) -> (r: u64)
    ensures
        r == (if args@[0] == 0 {
            BAD_ARGUMENT
        } else {
            OK
        }),
        final(memory).contents() == (if args@[0] == 0 {
            old(memory).contents()
        } else {
            interpolants_written(old(memory).contents(), args@[0], INTERPOLANT_ENTRIES as nat)
        }),
{
    let mapping = args[0];
    if mapping == 0 {
        return BAD_ARGUMENT;
    }
    write_default_interpolants(memory, mapping);
    OK
}

/// `sceAgcCreatePrimState(prim_state, sec_state, null, vs, topology)`: records the topology
/// (argument four) in the secondary state. A null `prim_state` or `sec_state` is refused.
pub fn create_prim_state<M: GuestWords>(args: &[u64; GUEST_ARG_REGISTERS], memory: &mut M) -> (r:
    u64)
    ensures
        r == (if args@[0] == 0 || args@[1] == 0 {
            BAD_ARGUMENT
        } else {
            OK
        }),
        final(memory).contents() == (if args@[0] == 0 || args@[1] == 0 {
            old(memory).contents()
        } else {
            spec_set_topology(old(memory).contents(), args@[1], args@[4] as u32)
        }),
{
    let prim_state = args[0];
    let sec_state = args[1];
    let topology = args[4] as u32;
    if prim_state == 0 || sec_state == 0 {
        return BAD_ARGUMENT;
    }
    set_topology(memory, sec_state, topology);
    OK
}

/// `sceAgcUpdatePrimState(prim_state, sec_state, topology)`: updates the topology (argument two)
/// in the secondary state. A null `prim_state` or `sec_state` is refused.
pub fn update_prim_state<M: GuestWords>(args: &[u64; GUEST_ARG_REGISTERS], memory: &mut M) -> (r:
    u64)
    ensures
        r == (if args@[0] == 0 || args@[1] == 0 {
            BAD_ARGUMENT
        } else {
            OK
        }),
        final(memory).contents() == (if args@[0] == 0 || args@[1] == 0 {
            old(memory).contents()
        } else {
            spec_set_topology(old(memory).contents(), args@[1], args@[2] as u32)
        }),
{
    let prim_state = args[0];
    let sec_state = args[1];
    let topology = args[2] as u32;
    if prim_state == 0 || sec_state == 0 {
        return BAD_ARGUMENT;
    }
    set_topology(memory, sec_state, topology);
    OK
}

/// `sceAgcLinkShaders(link_state, sec_state, null, vs, ps, ...)`: fills `link_state` with the
/// interpolant table at its front and the stage-routing quadword at `+0x108`. A null
/// `link_state` is refused.
pub fn link_shaders<M: GuestWords>(args: &[u64; GUEST_ARG_REGISTERS], memory: &mut M) -> (r: u64)
    ensures
        r == (if args@[0] == 0 {
            BAD_ARGUMENT
        } else {
            OK
        }),
        final(memory).contents() == (if args@[0] == 0 {
            old(memory).contents()
        } else {
            spec_link_shaders(old(memory).contents(), args@[0])
        }),
{
    let link_state = args[0];
    if link_state == 0 {
        return BAD_ARGUMENT;
    }
    write_default_interpolants(memory, link_state);
    memory.write_u64(link_state.wrapping_add(LINK_ROUTING_OFFSET), LINK_STAGE_ROUTING);
    OK
}

/// The unnamed inline size query: writes the workload size `0xa8` through a non-null `arg0`, and
/// answers [`OK`] either way.
pub fn agc_phantom_get_size<M: GuestWords>(args: &[u64; GUEST_ARG_REGISTERS], memory: &mut M) -> (r:
    u64)
    ensures
        r == OK,
        final(memory).contents() == (if args@[0] == 0 {
            old(memory).contents()
        } else {
            spec_write_u64(old(memory).contents(), args@[0], PHANTOM_WORKLOAD_SIZE)
        }),
{
    let out = args[0];
    if out != 0 {
        memory.write_u64(out, PHANTOM_WORKLOAD_SIZE);
    }
    OK
}

/// `sceAgcInit(state, version)`: [`OK`] for version 13, [`INVALID_VERSION`] for every other, and
/// nothing written.
pub fn agc_init(args: &[u64; GUEST_ARG_REGISTERS]) -> (r: u64)
    ensures
        r == (if args@[1] as u32 == SUPPORTED_VERSION {
            OK
        } else {
            INVALID_VERSION
        }),
{
    let version = args[1] as u32;
    if version == SUPPORTED_VERSION {
        OK
    } else {
        INVALID_VERSION
    }
}

/// What a command builder answers the guest: a raw value, or the stub policy's "unimplemented"
/// answer, whose raw code is the embedder's.
#[derive(Debug, Clone, Copy, PartialEq, Eq, Structural)]
pub enum GuestAnswer {
    /// The value the guest reads back.
    Value(u64),
    /// The call could not be carried out as the library would: a packet that does not fit its
    /// command buffer, whose overflow callback is not called.
    Unimplemented,
}

/// Where a command-buffer writer handle keeps its write cursor.
pub const DCB_CURSOR: u64 = 0x10;

/// Where a command-buffer writer handle keeps its limit.
pub const DCB_LIMIT: u64 = 0x18;

/// The first `count` of `words` stored as dwords from `at`, in order.
pub open spec fn words_written(m: Map<int, u8>, at: u64, words: Seq<u32>, count: nat) -> Map<
    int,
    u8,
>
    decreases count,
{
    if count == 0 {
        m
    } else {
        spec_write_u32(
            words_written(m, at, words, (count - 1) as nat),
            at.wrapping_add((4 * (count - 1)) as u64),
            words[count - 1],
        )
    }
}

/// One packet appended through the writer handle at `dcb`: refused as a bad argument for a null
/// handle or an empty packet; answered as unimplemented, and nothing written, when the cursor or
/// the limit is zero or the packet would pass the limit; otherwise the words stored at the
/// cursor, the cursor advanced past them, and the packet's address answered.
pub open spec fn spec_dcb_append(m: Map<int, u8>, dcb: u64, words: Seq<u32>) -> (
    GuestAnswer,
    Map<int, u8>,
) {
    if dcb == 0 || words.len() == 0 {
        (GuestAnswer::Value(BAD_ARGUMENT), m)
    } else {
        let cur = quad_or_zero(m, dcb.wrapping_add(DCB_CURSOR));
        let limit = quad_or_zero(m, dcb.wrapping_add(DCB_LIMIT));
        let length = (4 * words.len()) as u64;
        if cur == 0 || limit == 0 || cur.wrapping_add(length) > limit {
            (GuestAnswer::Unimplemented, m)
        } else {
            (
                GuestAnswer::Value(cur),
                spec_write_u64(
                    words_written(m, cur, words, words.len()),
                    dcb.wrapping_add(DCB_CURSOR),
                    cur.wrapping_add(length),
                ),
            )
        }
    }
}

/// Appends one packet through the writer handle at `dcb`, advancing its cursor by the packet's
/// length, and answers the packet's address. Refuses rather than overruns.
fn dcb_append<M: GuestWords>(memory: &mut M, dcb: u64, words: &[u32]) -> (r: GuestAnswer)
    requires
        4 * words@.len() <= u64::MAX,
    ensures
        (r, final(memory).contents()) =~~= spec_dcb_append(old(memory).contents(), dcb, words@),
{
    if dcb == 0 || words.len() == 0 {
        return GuestAnswer::Value(BAD_ARGUMENT);
    }
    let cur = match memory.read_u64(dcb.wrapping_add(DCB_CURSOR)) {
        Some(v) => v,
        None => 0,
    };
    let limit = match memory.read_u64(dcb.wrapping_add(DCB_LIMIT)) {
        Some(v) => v,
        None => 0,
    };
    let length = words.len() as u64 * 4;
    if cur == 0 || limit == 0 || cur.wrapping_add(length) > limit {
        return GuestAnswer::Unimplemented;
    }
    crate::write_dwords(memory, cur, words);
    memory.write_u64(dcb.wrapping_add(DCB_CURSOR), cur.wrapping_add(length));
    GuestAnswer::Value(cur)
}

/// `sceAgcDcbEventWrite(dcb, event_type, _)`: appends an `EVENT_WRITE`.
pub fn dcb_event_write<M: GuestWords>(args: &[u64; GUEST_ARG_REGISTERS], memory: &mut M) -> (r:
    GuestAnswer)
    ensures
        (r, final(memory).contents()) =~~= spec_dcb_append(
            old(memory).contents(),
            args@[0],
            packet_words(AgcCall::DcbEventWrite, args@),
        ),
{
    let packet = build::event_write(args[1] as u32);
    dcb_append(memory, args[0], &packet)
}

/// A reservation skeleton's words: the measured header, then `body_dwords` zeroed dwords.
pub open spec fn spec_reservation(opcode: u8, body_dwords: u32) -> Seq<u32> {
    seq![spec_command_header(opcode, body_dwords)] + Seq::new(body_dwords as nat, |i: int| 0u32)
}

/// `sceAgcDcbSetIndexCount(dcb, indices)`: appends an `INDEX_BUFFER_SIZE`.
pub fn dcb_set_index_count<M: GuestWords>(args: &[u64; GUEST_ARG_REGISTERS], memory: &mut M) -> (r:
    GuestAnswer)
    ensures
        (r, final(memory).contents()) =~~= spec_dcb_append(
            old(memory).contents(),
            args@[0],
            packet_words(AgcCall::DcbSetIndexCount, args@),
        ),
{
    let packet = build::set_index_count(args[1] as u32);
    dcb_append(memory, args[0], &packet)
}

/// `sceAgcDcbSetNumInstances(dcb, instances)`: appends a `NUM_INSTANCES`.
pub fn dcb_set_num_instances<M: GuestWords>(args: &[u64; GUEST_ARG_REGISTERS], memory: &mut M) -> (r:
    GuestAnswer)
    ensures
        (r, final(memory).contents()) =~~= spec_dcb_append(
            old(memory).contents(),
            args@[0],
            packet_words(AgcCall::DcbSetNumInstances, args@),
        ),
{
    let packet = build::set_num_instances(args[1] as u32);
    dcb_append(memory, args[0], &packet)
}

/// `sceAgcDcbDrawIndexAuto(dcb, index_count, initiator)`: appends a `DRAW_INDEX_AUTO`.
pub fn dcb_draw_index_auto<M: GuestWords>(args: &[u64; GUEST_ARG_REGISTERS], memory: &mut M) -> (r:
    GuestAnswer)
    ensures
        (r, final(memory).contents()) =~~= spec_dcb_append(
            old(memory).contents(),
            args@[0],
            packet_words(AgcCall::DcbDrawIndexAuto, args@),
        ),
{
    let packet = build::draw_index_auto(args[1] as u32, args[2] as u32);
    dcb_append(memory, args[0], &packet)
}

/// `sceAgcDcbSetIndexBuffer(dcb, address)`: appends an `INDEX_BASE`.
pub fn dcb_set_index_buffer<M: GuestWords>(args: &[u64; GUEST_ARG_REGISTERS], memory: &mut M) -> (r:
    GuestAnswer)
    ensures
        (r, final(memory).contents()) =~~= spec_dcb_append(
            old(memory).contents(),
            args@[0],
            packet_words(AgcCall::DcbSetIndexBuffer, args@),
        ),
{
    let packet = build::set_index_base(args[1]);
    dcb_append(memory, args[0], &packet)
}

/// `sceAgcDcbSetCxRegisterDirect(dcb, (value << 32) | offset)`: appends a `SET_CONTEXT_REG`.
pub fn dcb_set_cx_register_direct<M: GuestWords>(args: &[u64; GUEST_ARG_REGISTERS], memory: &mut M) -> (r:
    GuestAnswer)
    ensures
        (r, final(memory).contents()) =~~= spec_dcb_append(
            old(memory).contents(),
            args@[0],
            packet_words(AgcCall::DcbSetCxRegisterDirect, args@),
        ),
{
    let (offset, value) = unpack_register_entry(args[1]);
    let packet = build::set_context_register(offset, value);
    dcb_append(memory, args[0], &packet)
}

/// `sceAgcDcbSetUcRegisterDirect(dcb, (value << 32) | offset)`: appends a `SET_UCONFIG_REG`.
pub fn dcb_set_uc_register_direct<M: GuestWords>(args: &[u64; GUEST_ARG_REGISTERS], memory: &mut M) -> (r:
    GuestAnswer)
    ensures
        (r, final(memory).contents()) =~~= spec_dcb_append(
            old(memory).contents(),
            args@[0],
            packet_words(AgcCall::DcbSetUcRegisterDirect, args@),
        ),
{
    let (offset, value) = unpack_register_entry(args[1]);
    let packet = build::set_uconfig_register(offset, value);
    dcb_append(memory, args[0], &packet)
}

/// `sceAgcDcbSetCxRegistersIndirect(dcb, ...)`: reserves the `SET_CONTEXT_REG_INDIRECT` a title
/// patches, and hands back its real address.
pub fn dcb_set_cx_registers_indirect<M: GuestWords>(args: &[u64; GUEST_ARG_REGISTERS], memory: &mut M) -> (r:
    GuestAnswer)
    ensures
        (r, final(memory).contents()) =~~= spec_dcb_append(
            old(memory).contents(),
            args@[0],
            packet_words(AgcCall::DcbSetCxRegistersIndirect, args@),
        ),
{
    let packet = build::set_cx_registers_indirect_skeleton();
    dcb_append(memory, args[0], &packet)
}

/// The `sceAgc*Patch*` family: amends an already-written packet, whose field the CPU-side flow
/// does not read, so nothing is written; answers [`OK`].
pub fn agc_patch_returns_ok(args: &[u64; GUEST_ARG_REGISTERS]) -> (r: u64)
    ensures
        r == OK,
{
    OK
}

/// `sceAgcDcbWaitUntilSafeForRendering(dcb, ...)`: a library-level no-op that writes nothing and
/// answers [`OK`].
pub fn agc_no_op_returns_ok(args: &[u64; GUEST_ARG_REGISTERS]) -> (r: u64)
    ensures
        r == OK,
{
    OK
}

/// `sceAgcCbNop(cb)`: appends the header-only `NOP`.
pub fn cb_nop<M: GuestWords>(args: &[u64; GUEST_ARG_REGISTERS], memory: &mut M) -> (r:
    GuestAnswer)
    ensures
        (r, final(memory).contents()) =~~= spec_dcb_append(
            old(memory).contents(),
            args@[0],
            packet_words(AgcCall::CbNop, args@),
        ),
{
    let packet = build::nop();
    dcb_append(memory, args[0], &packet)
}

/// `sceAgcDcbAcquireMem(dcb, ...)`: reserves the 32-byte `ACQUIRE_MEM`, body zero.
pub fn dcb_acquire_mem<M: GuestWords>(args: &[u64; GUEST_ARG_REGISTERS], memory: &mut M) -> (r:
    GuestAnswer)
    ensures
        (r, final(memory).contents()) =~~= spec_dcb_append(
            old(memory).contents(),
            args@[0],
            packet_words(AgcCall::DcbAcquireMem, args@),
        ),
{
    let packet = build::acquire_mem_skeleton();
    dcb_append(memory, args[0], &packet)
}

/// `sceAgcCbReleaseMem(cb, ...)`: reserves the 32-byte `RELEASE_MEM`, body zero.
pub fn cb_release_mem<M: GuestWords>(args: &[u64; GUEST_ARG_REGISTERS], memory: &mut M) -> (r:
    GuestAnswer)
    ensures
        (r, final(memory).contents()) =~~= spec_dcb_append(
            old(memory).contents(),
            args@[0],
            packet_words(AgcCall::CbReleaseMem, args@),
        ),
{
    let packet = build::release_mem_skeleton();
    dcb_append(memory, args[0], &packet)
}

/// `sceAgcDcbDmaData(dcb, ...)`: reserves the 28-byte `DMA_DATA`, body zero.
pub fn dcb_dma_data<M: GuestWords>(args: &[u64; GUEST_ARG_REGISTERS], memory: &mut M) -> (r:
    GuestAnswer)
    ensures
        (r, final(memory).contents()) =~~= spec_dcb_append(
            old(memory).contents(),
            args@[0],
            packet_words(AgcCall::DcbDmaData, args@),
        ),
{
    let packet = build::dma_data_skeleton();
    dcb_append(memory, args[0], &packet)
}

/// `sceAgcDcbSetBaseIndirectArgs(dcb, ...)`: reserves the 16-byte `SET_BASE`, body zero.
pub fn dcb_set_base_indirect_args<M: GuestWords>(args: &[u64; GUEST_ARG_REGISTERS], memory: &mut M) -> (r:
    GuestAnswer)
    ensures
        (r, final(memory).contents()) =~~= spec_dcb_append(
            old(memory).contents(),
            args@[0],
            packet_words(AgcCall::DcbSetBaseIndirectArgs, args@),
        ),
{
    let packet = build::set_base_indirect_args_skeleton();
    dcb_append(memory, args[0], &packet)
}

/// `sceAgcDcbResetQueue(dcb, ...)`: reserves the 32-byte queue-reset stream.
pub fn dcb_reset_queue<M: GuestWords>(args: &[u64; GUEST_ARG_REGISTERS], memory: &mut M) -> (r:
    GuestAnswer)
    ensures
        (r, final(memory).contents()) =~~= spec_dcb_append(
            old(memory).contents(),
            args@[0],
            packet_words(AgcCall::DcbResetQueue, args@),
        ),
{
    let packet = build::reset_queue_skeleton();
    dcb_append(memory, args[0], &packet)
}

/// `sceAgcCbDispatch(cb, ...)`: reserves a 20-byte compute dispatch.
pub fn cb_dispatch<M: GuestWords>(args: &[u64; GUEST_ARG_REGISTERS], memory: &mut M) -> (r:
    GuestAnswer)
    ensures
        (r, final(memory).contents()) =~~= spec_dcb_append(
            old(memory).contents(),
            args@[0],
            packet_words(AgcCall::CbDispatch, args@),
        ),
{
    let packet = build::reservation(DISPATCH_DIRECT, 4);
    proof {
        assert(packet@ =~= spec_reservation(DISPATCH_DIRECT, 4));
    }
    dcb_append(memory, args[0], packet.as_slice())
}

/// `sceAgcDcbDispatchIndirect(dcb, ...)`: reserves a 12-byte `DISPATCH_INDIRECT`.
pub fn dcb_dispatch_indirect<M: GuestWords>(args: &[u64; GUEST_ARG_REGISTERS], memory: &mut M) -> (r:
    GuestAnswer)
    ensures
        (r, final(memory).contents()) =~~= spec_dcb_append(
            old(memory).contents(),
            args@[0],
            packet_words(AgcCall::DcbDispatchIndirect, args@),
        ),
{
    let packet = build::reservation(measured::DISPATCH_INDIRECT, 2);
    proof {
        assert(packet@ =~= spec_reservation(measured::DISPATCH_INDIRECT, 2));
    }
    dcb_append(memory, args[0], packet.as_slice())
}

/// `sceAgcAcbDispatchIndirect(acb, ...)`: reserves a 16-byte `DISPATCH_INDIRECT`, one dword
/// longer than the `Dcb` form.
pub fn acb_dispatch_indirect<M: GuestWords>(args: &[u64; GUEST_ARG_REGISTERS], memory: &mut M) -> (r:
    GuestAnswer)
    ensures
        (r, final(memory).contents()) =~~= spec_dcb_append(
            old(memory).contents(),
            args@[0],
            packet_words(AgcCall::AcbDispatchIndirect, args@),
        ),
{
    let packet = build::reservation(measured::DISPATCH_INDIRECT, 3);
    proof {
        assert(packet@ =~= spec_reservation(measured::DISPATCH_INDIRECT, 3));
    }
    dcb_append(memory, args[0], packet.as_slice())
}

/// `sceAgcDcbDrawIndirect(dcb, ...)`: reserves a 20-byte `DRAW_INDIRECT`.
pub fn dcb_draw_indirect<M: GuestWords>(args: &[u64; GUEST_ARG_REGISTERS], memory: &mut M) -> (r:
    GuestAnswer)
    ensures
        (r, final(memory).contents()) =~~= spec_dcb_append(
            old(memory).contents(),
            args@[0],
            packet_words(AgcCall::DcbDrawIndirect, args@),
        ),
{
    let packet = build::reservation(measured::DRAW_INDIRECT, 4);
    proof {
        assert(packet@ =~= spec_reservation(measured::DRAW_INDIRECT, 4));
    }
    dcb_append(memory, args[0], packet.as_slice())
}

/// `sceAgcDcbDrawIndexIndirect(dcb, ...)`: reserves a 20-byte `DRAW_INDEX_INDIRECT`.
pub fn dcb_draw_index_indirect<M: GuestWords>(args: &[u64; GUEST_ARG_REGISTERS], memory: &mut M) -> (r:
    GuestAnswer)
    ensures
        (r, final(memory).contents()) =~~= spec_dcb_append(
            old(memory).contents(),
            args@[0],
            packet_words(AgcCall::DcbDrawIndexIndirect, args@),
        ),
{
    let packet = build::reservation(measured::DRAW_INDEX_INDIRECT, 4);
    proof {
        assert(packet@ =~= spec_reservation(measured::DRAW_INDEX_INDIRECT, 4));
    }
    dcb_append(memory, args[0], packet.as_slice())
}

/// `sceAgcDcbSetShRegistersIndirect(dcb, ...)`: reserves a 20-byte `SET_SH_REG_INDIRECT`.
pub fn dcb_set_sh_registers_indirect<M: GuestWords>(args: &[u64; GUEST_ARG_REGISTERS], memory: &mut M) -> (r:
    GuestAnswer)
    ensures
        (r, final(memory).contents()) =~~= spec_dcb_append(
            old(memory).contents(),
            args@[0],
            packet_words(AgcCall::DcbSetShRegistersIndirect, args@),
        ),
{
    let packet = build::reservation(measured::SET_SH_REG_INDIRECT, 4);
    proof {
        assert(packet@ =~= spec_reservation(measured::SET_SH_REG_INDIRECT, 4));
    }
    dcb_append(memory, args[0], packet.as_slice())
}

/// `sceAgcDcbSetUcRegistersIndirect(dcb, ...)`: reserves a 20-byte
/// `SET_UCONFIG_REG_INDIRECT`.
pub fn dcb_set_uc_registers_indirect<M: GuestWords>(args: &[u64; GUEST_ARG_REGISTERS], memory: &mut M) -> (r:
    GuestAnswer)
    ensures
        (r, final(memory).contents()) =~~= spec_dcb_append(
            old(memory).contents(),
            args@[0],
            packet_words(AgcCall::DcbSetUcRegistersIndirect, args@),
        ),
{
    let packet = build::reservation(measured::SET_UCONFIG_REG_INDIRECT, 4);
    proof {
        assert(packet@ =~= spec_reservation(measured::SET_UCONFIG_REG_INDIRECT, 4));
    }
    dcb_append(memory, args[0], packet.as_slice())
}

/// `sceAgcDcbStallCommandBufferParser(dcb, ...)`: reserves an 8-byte stall.
pub fn dcb_stall_command_buffer_parser<M: GuestWords>(args: &[u64; GUEST_ARG_REGISTERS], memory: &mut M) -> (r:
    GuestAnswer)
    ensures
        (r, final(memory).contents()) =~~= spec_dcb_append(
            old(memory).contents(),
            args@[0],
            packet_words(AgcCall::DcbStallCommandBufferParser, args@),
        ),
{
    let packet = build::reservation(measured::STALL_COMMAND_BUFFER_PARSER, 1);
    proof {
        assert(packet@ =~= spec_reservation(measured::STALL_COMMAND_BUFFER_PARSER, 1));
    }
    dcb_append(memory, args[0], packet.as_slice())
}

/// `sceAgcAcbAcquireMem(acb, ...)`: the `Acb` twin of [`dcb_acquire_mem`], the same packet.
pub fn acb_acquire_mem<M: GuestWords>(args: &[u64; GUEST_ARG_REGISTERS], memory: &mut M) -> (r:
    GuestAnswer)
    ensures
        (r, final(memory).contents()) =~~= spec_dcb_append(
            old(memory).contents(),
            args@[0],
            packet_words(AgcCall::AcbAcquireMem, args@),
        ),
{
    let packet = build::acquire_mem_skeleton();
    dcb_append(memory, args[0], &packet)
}

/// `sceAgcDcbPushMarker(dcb, label, ...)`: reserves the 12-byte debug marker.
pub fn dcb_push_marker<M: GuestWords>(args: &[u64; GUEST_ARG_REGISTERS], memory: &mut M) -> (r:
    GuestAnswer)
    ensures
        (r, final(memory).contents()) =~~= spec_dcb_append(
            old(memory).contents(),
            args@[0],
            packet_words(AgcCall::DcbPushMarker, args@),
        ),
{
    let packet = build::marker_skeleton();
    dcb_append(memory, args[0], &packet)
}

/// `sceAgcDcbPopMarker(dcb, ...)`: the closing debug marker, the same 12-byte packet as
/// [`dcb_push_marker`].
pub fn dcb_pop_marker<M: GuestWords>(args: &[u64; GUEST_ARG_REGISTERS], memory: &mut M) -> (r:
    GuestAnswer)
    ensures
        (r, final(memory).contents()) =~~= spec_dcb_append(
            old(memory).contents(),
            args@[0],
            packet_words(AgcCall::DcbPopMarker, args@),
        ),
{
    let packet = build::marker_skeleton();
    dcb_append(memory, args[0], &packet)
}

/// `sceAgcDcbWaitRegMem(dcb, ...)`: reserves the 56-byte compound of three packets, headers
/// kept and bodies zero.
pub fn dcb_wait_reg_mem<M: GuestWords>(args: &[u64; GUEST_ARG_REGISTERS], memory: &mut M) -> (r:
    GuestAnswer)
    ensures
        (r, final(memory).contents()) =~~= spec_dcb_append(
            old(memory).contents(),
            args@[0],
            packet_words(AgcCall::DcbWaitRegMem, args@),
        ),
{
    let packet = build::wait_reg_mem_skeleton();
    dcb_append(memory, args[0], &packet)
}

/// `sceAgcDcbDrawIndex(dcb, index_count, address, initiator)`: appends a `DRAW_INDEX_2` with the
/// index count at both of the places the hardware put it.
pub fn dcb_draw_index<M: GuestWords>(args: &[u64; GUEST_ARG_REGISTERS], memory: &mut M) -> (r:
    GuestAnswer)
    ensures
        (r, final(memory).contents()) =~~= spec_dcb_append(
            old(memory).contents(),
            args@[0],
            packet_words(AgcCall::DcbDrawIndex, args@),
        ),
{
    let packet = build::draw_index_2(args[1] as u32, args[2], args[1] as u32, args[3] as u32);
    dcb_append(memory, args[0], &packet)
}

/// `sceAgcDcbSetIndexSize(dcb, type, flags)`: appends a `SET_UCONFIG_REG_INDEX` selecting the
/// index width.
pub fn dcb_set_index_size<M: GuestWords>(args: &[u64; GUEST_ARG_REGISTERS], memory: &mut M) -> (r:
    GuestAnswer)
    ensures
        (r, final(memory).contents()) =~~= spec_dcb_append(
            old(memory).contents(),
            args@[0],
            packet_words(AgcCall::DcbSetIndexSize, args@),
        ),
{
    let packet = build::set_index_size(args[1] as u32, args[2] as u32);
    dcb_append(memory, args[0], &packet)
}

/// The longest register run `sceAgcCbSetShRegisterRangeDirect` reads out of guest memory: a
/// packet's count field is fourteen bits, so a longer run cannot be encoded.
pub const MAX_REGISTER_RUN: u64 = 0x3ffe;

/// The `count` dwords of a register run from `values`, each zero where unreadable.
pub open spec fn register_run(m: Map<int, u8>, values: u64, count: nat) -> Seq<u32> {
    Seq::new(count, |i: int| dword_or_zero(m, values.wrapping_add((4 * i) as u64)))
}

/// `sceAgcCbSetShRegisterRangeDirect(cb, offset, values, count)`: appends a `SET_SH_REG` writing
/// the `count` dwords at `values` from register `offset`. A null `values`, a zero count or one
/// past [`MAX_REGISTER_RUN`] is refused.
pub fn cb_set_sh_register_range_direct<M: GuestWords>(
    args: &[u64; GUEST_ARG_REGISTERS],
    memory: &mut M,
) -> (r: GuestAnswer)
    ensures
        args@[2] == 0 || args@[3] == 0 || args@[3] > MAX_REGISTER_RUN ==> r == GuestAnswer::Value(
            BAD_ARGUMENT,
        ) && final(memory).contents() == old(memory).contents(),
        !(args@[2] == 0 || args@[3] == 0 || args@[3] > MAX_REGISTER_RUN) ==> (
            r,
            final(memory).contents(),
        ) =~~= spec_dcb_append(
            old(memory).contents(),
            args@[0],
            register_range_words(old(memory).contents(), args@),
        ),
{
    let offset = args[1];
    let values = args[2];
    let count = args[3];
    if values == 0 || count == 0 || count > MAX_REGISTER_RUN {
        return GuestAnswer::Value(BAD_ARGUMENT);
    }
    let mut run: Vec<u32> = Vec::new();
    let mut i: u64 = 0;
    while i < count
        invariant
            i <= count <= MAX_REGISTER_RUN,
            run@ =~= register_run(memory.contents(), values, i as nat),
        decreases count - i,
    {
        let word = match memory.read_u32(values.wrapping_add(i * 4)) {
            Some(v) => v,
            None => 0,
        };
        run.push(word);
        i = i + 1;
    }
    let packet = build::set_sh_register_range(offset as u16, run.as_slice());
    dcb_append(memory, args[0], packet.as_slice())
}

/// `sceAgcGetIsTrinityMode()`: `1` when the presented machine is the faster revision of this
/// generation, `0` for a base machine, so a base guest stays off the faster revision's path.
/// Which machine is presented is the embedder's to say.
pub fn get_is_trinity_mode(presented_trinity: bool) -> (r: u64)
    ensures
        r == (if presented_trinity {
            1u64
        } else {
            0u64
        }),
{
    if presented_trinity {
        1
    } else {
        0
    }
}

/// Recording a topology in a mapped secondary state leaves its dword reading back with the
/// topology's low five bits in its low five bits and the other twenty-seven bits as they were.
pub proof fn lemma_topology_reads_back(m: Map<int, u8>, sec_state: u64, topology: u32)
    requires
        mapped(m, sec_state.wrapping_add(TOPOLOGY_FIELD) as int, 4),
    ensures
        ({
            let field = sec_state.wrapping_add(TOPOLOGY_FIELD);
            let after = spec_read_u32(spec_set_topology(m, sec_state, topology), field);
            &&& after is Some
            &&& after->0 & TOPOLOGY_MASK == topology & TOPOLOGY_MASK
            &&& after->0 & !TOPOLOGY_MASK == dword_or_zero(m, field) & !TOPOLOGY_MASK
        }),
{
    let field = sec_state.wrapping_add(TOPOLOGY_FIELD);
    let prev = dword_or_zero(m, field);
    let word = (prev & !TOPOLOGY_MASK) | (topology & TOPOLOGY_MASK);
    lemma_read_back_u32(m, field, word);
    assert(word & 0x1fu32 == topology & 0x1fu32 && word & !0x1fu32 == prev & !0x1fu32)
        by (bit_vector)
        requires
            word == (prev & !0x1fu32) | (topology & 0x1fu32),
    ;
}

/// The interpolant table written so far keeps every address mapped that was.
proof fn lemma_interpolants_keep_domain(m: Map<int, u8>, at: u64, count: nat)
    ensures
        interpolants_written(m, at, count).dom() == m.dom(),
    decreases count,
{
    if count > 0 {
        let prev = interpolants_written(m, at, (count - 1) as nat);
        lemma_interpolants_keep_domain(m, at, (count - 1) as nat);
        lemma_store_keeps_domain(
            prev,
            at.wrapping_add((8 * (count - 1)) as u64) as int,
            spec_u64_bytes(default_interpolant((count - 1) as u64)),
        );
    }
}

/// Entry `i` of the first `count` written reads back as the default entry.
proof fn lemma_interpolants_read_back(m: Map<int, u8>, at: u64, count: nat, i: nat)
    requires
        i < count <= INTERPOLANT_ENTRIES,
        at + 8 * INTERPOLANT_ENTRIES <= u64::MAX + 1,
        mapped(m, at as int, 8 * INTERPOLANT_ENTRIES),
    ensures
        spec_read_u64(interpolants_written(m, at, count), at.wrapping_add((8 * i) as u64)) == Some(
            default_interpolant(i as u64),
        ),
    decreases count,
{
    let last = (count - 1) as nat;
    let prev = interpolants_written(m, at, last);
    lemma_interpolants_keep_domain(m, at, last);
    let entry = at.wrapping_add((8 * i) as u64);
    assert(entry == at + 8 * i);
    assert(at.wrapping_add((8 * last) as u64) == at + 8 * last);
    if i == last {
        assert(mapped(prev, entry as int, 8)) by {
            assert forall|k: int| 0 <= k < 8 implies #[trigger] prev.dom().contains(
                entry as int + k,
            ) by {
                assert(m.dom().contains(at as int + (8 * i + k)));
            }
        }
        lemma_read_back_u64(prev, entry, default_interpolant(i as u64));
    } else {
        lemma_interpolants_read_back(m, at, last, i);
        lemma_read_u64_past_store(
            prev,
            at.wrapping_add((8 * last) as u64) as int,
            spec_u64_bytes(default_interpolant(last as u64)),
            entry,
        );
    }
}

/// The default interpolant table written where its 256 bytes are mapped reads back entry by
/// entry as `(i << 32) | (0x191 + i)`: entry zero is `SPI_PS_INPUT_CNTL_0` itself.
pub proof fn lemma_interpolant_table_reads_back(m: Map<int, u8>, at: u64, i: u64)
    requires
        i < INTERPOLANT_ENTRIES,
        at + 8 * INTERPOLANT_ENTRIES <= u64::MAX + 1,
        mapped(m, at as int, 8 * INTERPOLANT_ENTRIES),
    ensures
        spec_read_u64(
            interpolants_written(m, at, INTERPOLANT_ENTRIES as nat),
            at.wrapping_add((8 * i) as u64),
        ) == Some(default_interpolant(i)),
        default_interpolant(0) == SPI_PS_INPUT_CNTL_0,
{
    lemma_interpolants_read_back(m, at, INTERPOLANT_ENTRIES as nat, i as nat);
    assert((0u64 << 32u64) | 0x191u64 == 0x191u64) by (bit_vector);
}

/// The words written so far keep every address mapped that was.
proof fn lemma_words_keep_domain(m: Map<int, u8>, at: u64, words: Seq<u32>, count: nat)
    ensures
        words_written(m, at, words, count).dom() == m.dom(),
    decreases count,
{
    if count > 0 {
        let prev = words_written(m, at, words, (count - 1) as nat);
        lemma_words_keep_domain(m, at, words, (count - 1) as nat);
        lemma_store_keeps_domain(
            prev,
            at.wrapping_add((4 * (count - 1)) as u64) as int,
            spec_u32_bytes(words[count - 1]),
        );
    }
}

/// A packet appended through a writer handle whose cursor is mapped and has room for it is
/// answered with the cursor's old value, and leaves the cursor one packet further on: the
/// cursor advances by exactly the packet's length.
pub proof fn lemma_append_advances_cursor(m: Map<int, u8>, dcb: u64, words: Seq<u32>)
    requires
        dcb != 0,
        words.len() > 0,
        4 * words.len() <= u64::MAX,
        mapped(m, dcb.wrapping_add(DCB_CURSOR) as int, 8),
        quad_or_zero(m, dcb.wrapping_add(DCB_CURSOR)) != 0,
        quad_or_zero(m, dcb.wrapping_add(DCB_LIMIT)) != 0,
        quad_or_zero(m, dcb.wrapping_add(DCB_CURSOR)).wrapping_add((4 * words.len()) as u64)
            <= quad_or_zero(m, dcb.wrapping_add(DCB_LIMIT)),
    ensures
        ({
            let cur = quad_or_zero(m, dcb.wrapping_add(DCB_CURSOR));
            let (answer, after) = spec_dcb_append(m, dcb, words);
            &&& answer == GuestAnswer::Value(cur)
            &&& spec_read_u64(after, dcb.wrapping_add(DCB_CURSOR)) == Some(
                cur.wrapping_add((4 * words.len()) as u64),
            )
        }),
{
    let cur = quad_or_zero(m, dcb.wrapping_add(DCB_CURSOR));
    let written = words_written(m, cur, words, words.len());
    lemma_words_keep_domain(m, cur, words, words.len());
    let field = dcb.wrapping_add(DCB_CURSOR) as int;
    assert(mapped(written, field, 8)) by {
        assert forall|k: int| 0 <= k < 8 implies #[trigger] written.dom().contains(field + k) by {
            assert(m.dom().contains(field + k));
        }
    }
    lemma_read_back_u64(
        written,
        dcb.wrapping_add(DCB_CURSOR),
        cur.wrapping_add((4 * words.len()) as u64),
    );
}

/// The guest call that answers an implemented name, as the table of implementations lists it.
#[derive(Debug, Clone, Copy, PartialEq, Eq, Structural)]
pub enum AgcCall {
    /// Answered by [`agc_phantom_get_size`].
    PhantomGetSize,
    /// Answered by [`create_shader`].
    CreateShader,
    /// Answered by [`create_interpolant_mapping`].
    CreateInterpolantMapping,
    /// Answered by [`update_interpolant_mapping`].
    UpdateInterpolantMapping,
    /// Answered by [`create_prim_state`].
    CreatePrimState,
    /// Answered by [`update_prim_state`].
    UpdatePrimState,
    /// Answered by [`link_shaders`].
    LinkShaders,
    /// Answered by [`dcb_event_write`].
    DcbEventWrite,
    /// Answered by [`dcb_set_index_count`].
    DcbSetIndexCount,
    /// Answered by [`dcb_set_num_instances`].
    DcbSetNumInstances,
    /// Answered by [`dcb_draw_index_auto`].
    DcbDrawIndexAuto,
    /// Answered by [`dcb_set_index_buffer`].
    DcbSetIndexBuffer,
    /// Answered by [`dcb_set_cx_register_direct`].
    DcbSetCxRegisterDirect,
    /// Answered by [`dcb_set_uc_register_direct`].
    DcbSetUcRegisterDirect,
    /// Answered by [`dcb_set_cx_registers_indirect`].
    DcbSetCxRegistersIndirect,
    /// Answered by [`cb_nop`].
    CbNop,
    /// Answered by [`dcb_acquire_mem`].
    DcbAcquireMem,
    /// Answered by [`cb_release_mem`].
    CbReleaseMem,
    /// Answered by [`dcb_dma_data`].
    DcbDmaData,
    /// Answered by [`dcb_set_base_indirect_args`].
    DcbSetBaseIndirectArgs,
    /// Answered by [`dcb_reset_queue`].
    DcbResetQueue,
    /// Answered by [`agc_no_op_returns_ok`].
    NoOpReturnsOk,
    /// Answered by [`cb_dispatch`].
    CbDispatch,
    /// Answered by [`dcb_dispatch_indirect`].
    DcbDispatchIndirect,
    /// Answered by [`acb_dispatch_indirect`].
    AcbDispatchIndirect,
    /// Answered by [`dcb_draw_indirect`].
    DcbDrawIndirect,
    /// Answered by [`dcb_draw_index_indirect`].
    DcbDrawIndexIndirect,
    /// Answered by [`dcb_set_sh_registers_indirect`].
    DcbSetShRegistersIndirect,
    /// Answered by [`dcb_set_uc_registers_indirect`].
    DcbSetUcRegistersIndirect,
    /// Answered by [`dcb_stall_command_buffer_parser`].
    DcbStallCommandBufferParser,
    /// Answered by [`acb_acquire_mem`].
    AcbAcquireMem,
    /// Answered by [`dcb_push_marker`].
    DcbPushMarker,
    /// Answered by [`dcb_pop_marker`].
    DcbPopMarker,
    /// Answered by [`dcb_wait_reg_mem`].
    DcbWaitRegMem,
    /// Answered by [`agc_patch_returns_ok`].
    PatchReturnsOk,
    /// Answered by [`cb_set_sh_register_range_direct`].
    CbSetShRegisterRangeDirect,
    /// Answered by [`dcb_draw_index`].
    DcbDrawIndex,
    /// Answered by [`dcb_set_index_size`].
    DcbSetIndexSize,
    /// Answered by [`agc_init`].
    Init,
    /// Answered by [`get_is_trinity_mode`].
    GetIsTrinityMode,
}

/// The packet a command builder appends, given the call's arguments; empty for a call that
/// appends none.
pub open spec fn packet_words(call: AgcCall, args: Seq<u64>) -> Seq<u32> {
    match call {
        AgcCall::DcbEventWrite => seq![spec_command_header(measured::EVENT_WRITE, 1), args[1] as u32],
        AgcCall::DcbSetIndexCount => seq![spec_command_header(measured::INDEX_BUFFER_SIZE, 1), args[1] as u32],
        AgcCall::DcbSetNumInstances => seq![spec_command_header(measured::NUM_INSTANCES, 1), args[1] as u32],
        AgcCall::DcbDrawIndexAuto => seq![spec_command_header(measured::DRAW_INDEX_AUTO, 2), args[1] as u32, args[2] as u32],
        AgcCall::DcbSetIndexBuffer => seq![spec_command_header(measured::INDEX_BASE, 2), low_half(args[1]), high_half(args[1])],
        AgcCall::DcbSetCxRegisterDirect => seq![spec_command_header(measured::SET_CONTEXT_REG, 2), spec_unpack_register_entry(args[1]).0 as u32, spec_unpack_register_entry(args[1]).1],
        AgcCall::DcbSetUcRegisterDirect => seq![spec_command_header(measured::SET_UCONFIG_REG, 2), spec_unpack_register_entry(args[1]).0 as u32, spec_unpack_register_entry(args[1]).1],
        AgcCall::DcbSetCxRegistersIndirect => seq![spec_command_header(measured::SET_CONTEXT_REG_INDIRECT, 4), 0u32, 0u32, 0x8000_0000u32, 0u32],
        AgcCall::CbNop => seq![0xffff_1000u32],
        AgcCall::DcbAcquireMem => seq![spec_command_header(measured::ACQUIRE_MEM, 7), 0u32, 0u32, 0u32, 0u32, 0u32, 0u32, 0u32],
        AgcCall::CbReleaseMem => seq![spec_command_header(measured::RELEASE_MEM, 7), 0u32, 0u32, 0u32, 0u32, 0u32, 0u32, 0u32],
        AgcCall::DcbDmaData => seq![spec_command_header(measured::DMA_DATA, 6), 0u32, 0u32, 0u32, 0u32, 0u32, 0u32],
        AgcCall::DcbSetBaseIndirectArgs => seq![spec_command_header(measured::SET_BASE, 3), 0u32, 0u32, 0u32],
        AgcCall::DcbResetQueue => seq![0xffff_1000u32, 0xc002_7904u32, 0u32, 0u32, 0u32, MARKER_HEADER, 0u32, 0u32],
        AgcCall::CbDispatch => spec_reservation(DISPATCH_DIRECT, 4),
        AgcCall::DcbDispatchIndirect => spec_reservation(measured::DISPATCH_INDIRECT, 2),
        AgcCall::AcbDispatchIndirect => spec_reservation(measured::DISPATCH_INDIRECT, 3),
        AgcCall::DcbDrawIndirect => spec_reservation(measured::DRAW_INDIRECT, 4),
        AgcCall::DcbDrawIndexIndirect => spec_reservation(measured::DRAW_INDEX_INDIRECT, 4),
        AgcCall::DcbSetShRegistersIndirect => spec_reservation(measured::SET_SH_REG_INDIRECT, 4),
        AgcCall::DcbSetUcRegistersIndirect => spec_reservation(measured::SET_UCONFIG_REG_INDIRECT, 4),
        AgcCall::DcbStallCommandBufferParser => spec_reservation(measured::STALL_COMMAND_BUFFER_PARSER, 1),
        AgcCall::AcbAcquireMem => seq![spec_command_header(measured::ACQUIRE_MEM, 7), 0u32, 0u32, 0u32, 0u32, 0u32, 0u32, 0u32],
        AgcCall::DcbPushMarker => seq![MARKER_HEADER, 0u32, 0u32],
        AgcCall::DcbPopMarker => seq![MARKER_HEADER, 0u32, 0u32],
        AgcCall::DcbWaitRegMem => seq![0xc002_7904u32, 0u32, 0u32, 0u32, spec_command_header(0x3c, 6), 0u32, 0u32, 0u32, 0u32, 0u32, 0u32, MARKER_HEADER, 0u32, 0u32],
        AgcCall::DcbDrawIndex => seq![spec_command_header(measured::DRAW_INDEX_2, 5), args[1] as u32, low_half(args[2]), high_half(args[2]), args[1] as u32, args[3] as u32],
        AgcCall::DcbSetIndexSize => seq![spec_command_header(measured::SET_UCONFIG_REG_INDEX, 2), INDEX_SIZE_SELECTOR, 0x400u32 | (((args[2] as u32) & 1u32) << 6u32) | ((args[1] as u32) & 3u32)],
        _ => Seq::empty(),
    }
}

/// The packet `sceAgcCbSetShRegisterRangeDirect` appends: a `SET_SH_REG` from register `args[1]`
/// carrying the run of `args[3]` dwords read from `args[2]`.
pub open spec fn register_range_words(m: Map<int, u8>, args: Seq<u64>) -> Seq<u32> {
    seq![spec_command_header(measured::SET_SH_REG, (args[3] + 1) as u32), args[1] as u16 as u32]
        + register_run(m, args[2], args[3] as nat)
}

/// What a guest call answers and the guest memory it leaves, for arguments `args` over memory
/// `m`, with `presented_trinity` saying whether the faster revision is presented.
pub open spec fn spec_answer(call: AgcCall, args: Seq<u64>, m: Map<int, u8>, presented_trinity: bool) -> (
    GuestAnswer,
    Map<int, u8>,
) {
    let refused = (GuestAnswer::Value(BAD_ARGUMENT), m);
    match call {
        AgcCall::PhantomGetSize => (
            GuestAnswer::Value(OK),
            if args[0] == 0 {
                m
            } else {
                spec_write_u64(m, args[0], PHANTOM_WORKLOAD_SIZE)
            },
        ),
        AgcCall::CreateShader => if args[0] == 0 || args[1] == 0 {
            refused
        } else {
            (GuestAnswer::Value(OK), spec_create_shader(m, args[0], args[1], args[2]))
        },
        AgcCall::CreateInterpolantMapping => if args[0] == 0 {
            refused
        } else {
            (GuestAnswer::Value(OK), interpolants_written(m, args[0], INTERPOLANT_ENTRIES as nat))
        },
        AgcCall::UpdateInterpolantMapping => if args[0] == 0 {
            refused
        } else {
            (GuestAnswer::Value(OK), interpolants_written(m, args[0], INTERPOLANT_ENTRIES as nat))
        },
        AgcCall::CreatePrimState => if args[0] == 0 || args[1] == 0 {
            refused
        } else {
            (GuestAnswer::Value(OK), spec_set_topology(m, args[1], args[4] as u32))
        },
        AgcCall::UpdatePrimState => if args[0] == 0 || args[1] == 0 {
            refused
        } else {
            (GuestAnswer::Value(OK), spec_set_topology(m, args[1], args[2] as u32))
        },
        AgcCall::LinkShaders => if args[0] == 0 {
            refused
        } else {
            (GuestAnswer::Value(OK), spec_link_shaders(m, args[0]))
        },
        AgcCall::NoOpReturnsOk => (GuestAnswer::Value(OK), m),
        AgcCall::PatchReturnsOk => (GuestAnswer::Value(OK), m),
        AgcCall::CbSetShRegisterRangeDirect => if args[2] == 0 || args[3] == 0 || args[3]
            > MAX_REGISTER_RUN {
            refused
        } else {
            spec_dcb_append(m, args[0], register_range_words(m, args))
        },
        AgcCall::Init => (
            GuestAnswer::Value(
                if args[1] as u32 == SUPPORTED_VERSION {
                    OK
                } else {
                    INVALID_VERSION
                },
            ),
            m,
        ),
        AgcCall::GetIsTrinityMode => (
            GuestAnswer::Value(
                if presented_trinity {
                    1
                } else {
                    0
                },
            ),
            m,
        ),
        _ => spec_dcb_append(m, args[0], packet_words(call, args)),
    }
}

impl AgcCall {
    /// Answers the guest call with `args` over `memory`, as its handler does; `presented_trinity`
    /// says whether the faster revision is presented, the one thing a handler reads that is not
    /// guest memory.
    pub fn answer<M: GuestWords>(
        self,
        args: &[u64; GUEST_ARG_REGISTERS],
        memory: &mut M,
        presented_trinity: bool,
    ) -> (r: GuestAnswer)
        ensures
            (r, final(memory).contents()) =~~= spec_answer(
                self,
                args@,
                old(memory).contents(),
                presented_trinity,
            ),
    {
        match self {
            AgcCall::PhantomGetSize => GuestAnswer::Value(agc_phantom_get_size(args, memory)),
            AgcCall::CreateShader => GuestAnswer::Value(create_shader(args, memory)),
            AgcCall::CreateInterpolantMapping => GuestAnswer::Value(create_interpolant_mapping(args, memory)),
            AgcCall::UpdateInterpolantMapping => GuestAnswer::Value(update_interpolant_mapping(args, memory)),
            AgcCall::CreatePrimState => GuestAnswer::Value(create_prim_state(args, memory)),
            AgcCall::UpdatePrimState => GuestAnswer::Value(update_prim_state(args, memory)),
            AgcCall::LinkShaders => GuestAnswer::Value(link_shaders(args, memory)),
            AgcCall::DcbEventWrite => dcb_event_write(args, memory),
            AgcCall::DcbSetIndexCount => dcb_set_index_count(args, memory),
            AgcCall::DcbSetNumInstances => dcb_set_num_instances(args, memory),
            AgcCall::DcbDrawIndexAuto => dcb_draw_index_auto(args, memory),
            AgcCall::DcbSetIndexBuffer => dcb_set_index_buffer(args, memory),
            AgcCall::DcbSetCxRegisterDirect => dcb_set_cx_register_direct(args, memory),
            AgcCall::DcbSetUcRegisterDirect => dcb_set_uc_register_direct(args, memory),
            AgcCall::DcbSetCxRegistersIndirect => dcb_set_cx_registers_indirect(args, memory),
            AgcCall::CbNop => cb_nop(args, memory),
            AgcCall::DcbAcquireMem => dcb_acquire_mem(args, memory),
            AgcCall::CbReleaseMem => cb_release_mem(args, memory),
            AgcCall::DcbDmaData => dcb_dma_data(args, memory),
            AgcCall::DcbSetBaseIndirectArgs => dcb_set_base_indirect_args(args, memory),
            AgcCall::DcbResetQueue => dcb_reset_queue(args, memory),
            AgcCall::NoOpReturnsOk => GuestAnswer::Value(agc_no_op_returns_ok(args)),
            AgcCall::CbDispatch => cb_dispatch(args, memory),
            AgcCall::DcbDispatchIndirect => dcb_dispatch_indirect(args, memory),
            AgcCall::AcbDispatchIndirect => acb_dispatch_indirect(args, memory),
            AgcCall::DcbDrawIndirect => dcb_draw_indirect(args, memory),
            AgcCall::DcbDrawIndexIndirect => dcb_draw_index_indirect(args, memory),
            AgcCall::DcbSetShRegistersIndirect => dcb_set_sh_registers_indirect(args, memory),
            AgcCall::DcbSetUcRegistersIndirect => dcb_set_uc_registers_indirect(args, memory),
            AgcCall::DcbStallCommandBufferParser => dcb_stall_command_buffer_parser(args, memory),
            AgcCall::AcbAcquireMem => acb_acquire_mem(args, memory),
            AgcCall::DcbPushMarker => dcb_push_marker(args, memory),
            AgcCall::DcbPopMarker => dcb_pop_marker(args, memory),
            AgcCall::DcbWaitRegMem => dcb_wait_reg_mem(args, memory),
            AgcCall::PatchReturnsOk => GuestAnswer::Value(agc_patch_returns_ok(args)),
            AgcCall::CbSetShRegisterRangeDirect => cb_set_sh_register_range_direct(args, memory),
            AgcCall::DcbDrawIndex => dcb_draw_index(args, memory),
            AgcCall::DcbSetIndexSize => dcb_set_index_size(args, memory),
            AgcCall::Init => GuestAnswer::Value(agc_init(args)),
            AgcCall::GetIsTrinityMode => GuestAnswer::Value(get_is_trinity_mode(presented_trinity)),
        }
    }
}


/// Every name this crate implements, and the call that answers it.
pub open spec fn implemented() -> Seq<(&'static str, AgcCall)> {
    seq![
        ("0x7d86501b8094ef57", AgcCall::PhantomGetSize),
        ("sceAgcCreateShader", AgcCall::CreateShader),
        ("sceAgcCreateInterpolantMapping", AgcCall::CreateInterpolantMapping),
        ("sceAgcUpdateInterpolantMapping", AgcCall::UpdateInterpolantMapping),
        ("sceAgcCreatePrimState", AgcCall::CreatePrimState),
        ("sceAgcUpdatePrimState", AgcCall::UpdatePrimState),
        ("sceAgcLinkShaders", AgcCall::LinkShaders),
        ("sceAgcDcbEventWrite", AgcCall::DcbEventWrite),
        ("sceAgcDcbSetIndexCount", AgcCall::DcbSetIndexCount),
        ("sceAgcDcbSetNumInstances", AgcCall::DcbSetNumInstances),
        ("sceAgcDcbDrawIndexAuto", AgcCall::DcbDrawIndexAuto),
        ("sceAgcDcbSetIndexBuffer", AgcCall::DcbSetIndexBuffer),
        ("sceAgcDcbSetCxRegisterDirect", AgcCall::DcbSetCxRegisterDirect),
        ("sceAgcDcbSetUcRegisterDirect", AgcCall::DcbSetUcRegisterDirect),
        ("sceAgcDcbSetCxRegistersIndirect", AgcCall::DcbSetCxRegistersIndirect),
        ("sceAgcCbNop", AgcCall::CbNop),
        ("sceAgcDcbAcquireMem", AgcCall::DcbAcquireMem),
        ("sceAgcCbReleaseMem", AgcCall::CbReleaseMem),
        ("sceAgcDcbDmaData", AgcCall::DcbDmaData),
        ("sceAgcDcbSetBaseIndirectArgs", AgcCall::DcbSetBaseIndirectArgs),
        ("sceAgcDcbResetQueue", AgcCall::DcbResetQueue),
        ("sceAgcDcbWaitUntilSafeForRendering", AgcCall::NoOpReturnsOk),
        ("sceAgcCbDispatch", AgcCall::CbDispatch),
        ("sceAgcDcbDispatchIndirect", AgcCall::DcbDispatchIndirect),
        ("sceAgcAcbDispatchIndirect", AgcCall::AcbDispatchIndirect),
        ("sceAgcDcbDrawIndirect", AgcCall::DcbDrawIndirect),
        ("sceAgcDcbDrawIndexIndirect", AgcCall::DcbDrawIndexIndirect),
        ("sceAgcDcbSetShRegistersIndirect", AgcCall::DcbSetShRegistersIndirect),
        ("sceAgcDcbSetUcRegistersIndirect", AgcCall::DcbSetUcRegistersIndirect),
        ("sceAgcDcbStallCommandBufferParser", AgcCall::DcbStallCommandBufferParser),
        ("sceAgcAcbAcquireMem", AgcCall::AcbAcquireMem),
        ("sceAgcDcbPushMarker", AgcCall::DcbPushMarker),
        ("sceAgcDcbPopMarker", AgcCall::DcbPopMarker),
        ("sceAgcDcbWaitRegMem", AgcCall::DcbWaitRegMem),
        ("sceAgcSetCxRegIndirectPatchAddRegisters", AgcCall::PatchReturnsOk),
        ("sceAgcSetCxRegIndirectPatchSetAddress", AgcCall::PatchReturnsOk),
        ("sceAgcSetShRegIndirectPatchAddRegisters", AgcCall::PatchReturnsOk),
        ("sceAgcSetShRegIndirectPatchSetAddress", AgcCall::PatchReturnsOk),
        ("sceAgcSetUcRegIndirectPatchAddRegisters", AgcCall::PatchReturnsOk),
        ("sceAgcSetUcRegIndirectPatchSetAddress", AgcCall::PatchReturnsOk),
        ("sceAgcDmaDataPatchSetDstAddressOrOffset", AgcCall::PatchReturnsOk),
        ("sceAgcDmaDataPatchSetSrcAddressOrOffsetOrImmediate", AgcCall::PatchReturnsOk),
        ("sceAgcWaitRegMemPatchAddress", AgcCall::PatchReturnsOk),
        ("sceAgcQueueEndOfPipeActionPatchAddress", AgcCall::PatchReturnsOk),
        ("sceAgcCbSetShRegisterRangeDirect", AgcCall::CbSetShRegisterRangeDirect),
        ("sceAgcDcbDrawIndex", AgcCall::DcbDrawIndex),
        ("sceAgcDcbSetIndexSize", AgcCall::DcbSetIndexSize),
        ("0x53bbd82b51d172db", AgcCall::Init),
        ("sceAgcInit", AgcCall::Init),
        ("sceAgcGetIsTrinityMode", AgcCall::GetIsTrinityMode),
    ]
}

/// Every name this crate implements for the current generation's graphics library, and the call
/// that answers it: the shader-object and shader-linkage calls, the command builders, the patch
/// family and no-op answering [`OK`], and `sceAgcInit` under both its names.
pub fn implementations() -> (r: [(&'static str, AgcCall); 50])
    ensures
        r@ == implemented(),
{
    [
        ("0x7d86501b8094ef57", AgcCall::PhantomGetSize),
        ("sceAgcCreateShader", AgcCall::CreateShader),
        ("sceAgcCreateInterpolantMapping", AgcCall::CreateInterpolantMapping),
        ("sceAgcUpdateInterpolantMapping", AgcCall::UpdateInterpolantMapping),
        ("sceAgcCreatePrimState", AgcCall::CreatePrimState),
        ("sceAgcUpdatePrimState", AgcCall::UpdatePrimState),
        ("sceAgcLinkShaders", AgcCall::LinkShaders),
        ("sceAgcDcbEventWrite", AgcCall::DcbEventWrite),
        ("sceAgcDcbSetIndexCount", AgcCall::DcbSetIndexCount),
        ("sceAgcDcbSetNumInstances", AgcCall::DcbSetNumInstances),
        ("sceAgcDcbDrawIndexAuto", AgcCall::DcbDrawIndexAuto),
        ("sceAgcDcbSetIndexBuffer", AgcCall::DcbSetIndexBuffer),
        ("sceAgcDcbSetCxRegisterDirect", AgcCall::DcbSetCxRegisterDirect),
        ("sceAgcDcbSetUcRegisterDirect", AgcCall::DcbSetUcRegisterDirect),
        ("sceAgcDcbSetCxRegistersIndirect", AgcCall::DcbSetCxRegistersIndirect),
        ("sceAgcCbNop", AgcCall::CbNop),
        ("sceAgcDcbAcquireMem", AgcCall::DcbAcquireMem),
        ("sceAgcCbReleaseMem", AgcCall::CbReleaseMem),
        ("sceAgcDcbDmaData", AgcCall::DcbDmaData),
        ("sceAgcDcbSetBaseIndirectArgs", AgcCall::DcbSetBaseIndirectArgs),
        ("sceAgcDcbResetQueue", AgcCall::DcbResetQueue),
        ("sceAgcDcbWaitUntilSafeForRendering", AgcCall::NoOpReturnsOk),
        ("sceAgcCbDispatch", AgcCall::CbDispatch),
        ("sceAgcDcbDispatchIndirect", AgcCall::DcbDispatchIndirect),
        ("sceAgcAcbDispatchIndirect", AgcCall::AcbDispatchIndirect),
        ("sceAgcDcbDrawIndirect", AgcCall::DcbDrawIndirect),
        ("sceAgcDcbDrawIndexIndirect", AgcCall::DcbDrawIndexIndirect),
        ("sceAgcDcbSetShRegistersIndirect", AgcCall::DcbSetShRegistersIndirect),
        ("sceAgcDcbSetUcRegistersIndirect", AgcCall::DcbSetUcRegistersIndirect),
        ("sceAgcDcbStallCommandBufferParser", AgcCall::DcbStallCommandBufferParser),
        ("sceAgcAcbAcquireMem", AgcCall::AcbAcquireMem),
        ("sceAgcDcbPushMarker", AgcCall::DcbPushMarker),
        ("sceAgcDcbPopMarker", AgcCall::DcbPopMarker),
        ("sceAgcDcbWaitRegMem", AgcCall::DcbWaitRegMem),
        ("sceAgcSetCxRegIndirectPatchAddRegisters", AgcCall::PatchReturnsOk),
        ("sceAgcSetCxRegIndirectPatchSetAddress", AgcCall::PatchReturnsOk),
        ("sceAgcSetShRegIndirectPatchAddRegisters", AgcCall::PatchReturnsOk),
        ("sceAgcSetShRegIndirectPatchSetAddress", AgcCall::PatchReturnsOk),
        ("sceAgcSetUcRegIndirectPatchAddRegisters", AgcCall::PatchReturnsOk),
        ("sceAgcSetUcRegIndirectPatchSetAddress", AgcCall::PatchReturnsOk),
        ("sceAgcDmaDataPatchSetDstAddressOrOffset", AgcCall::PatchReturnsOk),
        ("sceAgcDmaDataPatchSetSrcAddressOrOffsetOrImmediate", AgcCall::PatchReturnsOk),
        ("sceAgcWaitRegMemPatchAddress", AgcCall::PatchReturnsOk),
        ("sceAgcQueueEndOfPipeActionPatchAddress", AgcCall::PatchReturnsOk),
        ("sceAgcCbSetShRegisterRangeDirect", AgcCall::CbSetShRegisterRangeDirect),
        ("sceAgcDcbDrawIndex", AgcCall::DcbDrawIndex),
        ("sceAgcDcbSetIndexSize", AgcCall::DcbSetIndexSize),
        ("0x53bbd82b51d172db", AgcCall::Init),
        ("sceAgcInit", AgcCall::Init),
        ("sceAgcGetIsTrinityMode", AgcCall::GetIsTrinityMode),
    ]
}

} // verus!
