//! Opcodes measured coming out of the hardware's own command builders.
//!
//! Every value was read off a packet the vendor library wrote when called with known arguments;
//! the public PM4 names are Mesa's `PKT3_*`. Each satisfies the type-3 length rule: the header's
//! count field plus two dwords is exactly the byte count the builder advanced.
use vstd::prelude::*;

verus! {

/// `IT_INDEX_BUFFER_SIZE` (header `0xc0001300`).
pub const INDEX_BUFFER_SIZE: u8 = 0x13;
/// `IT_INDEX_BASE` (header `0xc0012600`).
pub const INDEX_BASE: u8 = 0x26;
/// `IT_DRAW_INDEX_2` (header `0xc0042700`).
pub const DRAW_INDEX_2: u8 = 0x27;
/// `IT_DRAW_INDEX_AUTO` (header `0xc0012d00`).
pub const DRAW_INDEX_AUTO: u8 = 0x2d;
/// `IT_NUM_INSTANCES` (header `0xc0002f00`).
pub const NUM_INSTANCES: u8 = 0x2f;
/// `IT_EVENT_WRITE` (header `0xc0004600`).
pub const EVENT_WRITE: u8 = 0x46;
/// `IT_SET_CONTEXT_REG` (header `0xc0016900`).
pub const SET_CONTEXT_REG: u8 = 0x69;
/// `IT_SET_SH_REG` (header `0xc0027600`).
pub const SET_SH_REG: u8 = 0x76;
/// `IT_SET_UCONFIG_REG` (header `0xc0017900`).
pub const SET_UCONFIG_REG: u8 = 0x79;
/// `IT_SET_UCONFIG_REG_INDEX` (header `0xc0017a00`), distinct from [`SET_UCONFIG_REG`]: the same
/// register offset space with an index in the high half.
pub const SET_UCONFIG_REG_INDEX: u8 = 0x7a;
/// `IT_SET_CONTEXT_REG_INDIRECT` (header `0xc0039f00`, four body dwords).
pub const SET_CONTEXT_REG_INDIRECT: u8 = 0x9f;
/// `IT_NOP` (the whole packet is the header `0xffff1000`).
pub const NOP: u8 = 0x10;
/// `IT_ACQUIRE_MEM` (header `0xc0065800`, seven body dwords).
pub const ACQUIRE_MEM: u8 = 0x58;
/// `IT_RELEASE_MEM` (header `0xc0064900`, seven body dwords).
pub const RELEASE_MEM: u8 = 0x49;
/// `IT_DMA_DATA` (header `0xc0055000`, six body dwords).
pub const DMA_DATA: u8 = 0x50;
/// `IT_SET_BASE` (header `0xc0021100`, three body dwords).
pub const SET_BASE: u8 = 0x11;
/// `IT_DISPATCH_INDIRECT` (headers `0xc0011600` / `0xc0021600`).
pub const DISPATCH_INDIRECT: u8 = 0x16;
/// `IT_DRAW_INDIRECT` (header `0xc0032400`, four body dwords).
pub const DRAW_INDIRECT: u8 = 0x24;
/// `IT_DRAW_INDEX_INDIRECT` (header `0xc0032500`, four body dwords).
pub const DRAW_INDEX_INDIRECT: u8 = 0x25;
/// `IT_SET_SH_REG_INDIRECT` (header `0xc0036300`, four body dwords).
pub const SET_SH_REG_INDIRECT: u8 = 0x63;
/// `IT_SET_UCONFIG_REG_INDIRECT` (header `0xc0036400`, four body dwords).
pub const SET_UCONFIG_REG_INDIRECT: u8 = 0x64;
/// The command-buffer-parser stall (header `0xc0004200`, one body dword).
pub const STALL_COMMAND_BUFFER_PARSER: u8 = 0x42;

} // verus!
