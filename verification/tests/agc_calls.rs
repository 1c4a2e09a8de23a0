use orbistoun_gpu::agc::{
    AgcCall, BAD_ARGUMENT, GUEST_ARG_REGISTERS, GuestAnswer, INVALID_VERSION, LINK_STAGE_ROUTING, OK,
    agc_init, agc_no_op_returns_ok, agc_patch_returns_ok, agc_phantom_get_size,
    cb_set_sh_register_range_direct, create_interpolant_mapping, create_prim_state, create_shader,
    dcb_draw_index, dcb_event_write, dcb_set_cx_register_direct, dcb_stall_command_buffer_parser,
    get_is_trinity_mode, implementations, link_shaders, update_interpolant_mapping, update_prim_state,
};
use orbistoun_gpu::guest::{GuestRegion, GuestWords};

/// Where the test regions are mapped.
const BASE: u64 = 0x1000_0000;

fn put_u64(bytes: &mut [u8], off: usize, value: u64) {
    bytes[off..off + 8].copy_from_slice(&value.to_le_bytes());
}

fn put_u32(bytes: &mut [u8], off: usize, value: u32) {
    bytes[off..off + 4].copy_from_slice(&value.to_le_bytes());
}

fn read_le_u64(buf: &[u8], off: usize) -> u64 {
    let mut b = [0u8; 8];
    b.copy_from_slice(&buf[off..off + 8]);
    u64::from_le_bytes(b)
}

fn read_le_u32(buf: &[u8], off: usize) -> u32 {
    u32::from_le_bytes([buf[off], buf[off + 1], buf[off + 2], buf[off + 3]])
}

/// A 0x130-byte shader object at `BASE`, followed by the eight-byte slot its pointer is written
/// to.
const OBJECT: usize = 0x130;
const SLOT: usize = OBJECT;

#[test]
fn create_shader_fills_the_object_as_hardware_did() {
    let mut object = vec![0u8; OBJECT + 8];
    put_u64(&mut object, 0x08, 0xd8);
    put_u64(&mut object, 0x20, 0x70);
    put_u64(&mut object, 0x28, 0x38);
    put_u64(&mut object, 0x30, 0x60);
    put_u64(&mut object, 0xe0, 0x38);
    put_u64(&mut object, 0xe8, 0x48);
    let mut memory = GuestRegion::new(BASE, object);

    let header = BASE;
    let out = BASE + SLOT as u64;
    let bytecode = 0x4000_0000_1234u64;
    let mut args = [0u64; GUEST_ARG_REGISTERS];
    args[0] = out;
    args[1] = header;
    args[2] = bytecode;

    assert_eq!(create_shader(&args, &mut memory), OK, "a well-formed call succeeds");
    let object = &memory.bytes;
    assert_eq!(
        read_le_u64(object, SLOT),
        header,
        "*out is the header address - the object is the header region"
    );
    assert_eq!(read_le_u64(object, 0x08), header + 0xe0, "+0x08 is the sub-table pointer");
    assert_eq!(read_le_u64(object, 0x10), bytecode, "+0x10 is the bytecode pointer");
    assert_eq!(read_le_u64(object, 0x20), header + 0x20 + 0x70, "+0x20 is self-relative");
    assert_eq!(read_le_u64(object, 0x28), header + 0x28 + 0x38, "+0x28 is self-relative");
    assert_eq!(read_le_u64(object, 0x30), header + 0x30 + 0x60, "+0x30 is self-relative");
    assert_eq!(
        read_le_u64(object, 0xe0),
        header + 0xe0 + 0x38,
        "sub-table[0] is self-relative (its address is the table's)"
    );
    assert_eq!(
        read_le_u64(object, 0xe8),
        header + 0xe8 + 0x48,
        "sub-table[1] is self-relative, not relative to the table base"
    );
}

#[test]
fn create_shader_relocates_every_populated_group_slot() {
    let mut object = vec![0u8; OBJECT + 8];
    put_u64(&mut object, 0x08, 0xd8);
    put_u64(&mut object, 0x18, 0xa8);
    put_u64(&mut object, 0x20, 0x70);
    put_u64(&mut object, 0x28, 0x38);
    put_u64(&mut object, 0x30, 0x60);
    put_u64(&mut object, 0x38, 0x58);
    let mut memory = GuestRegion::new(BASE, object);
    let header = BASE;
    let mut args = [0u64; GUEST_ARG_REGISTERS];
    args[0] = BASE + SLOT as u64;
    args[1] = header;
    args[2] = 0x4000_0000_1234u64;
    assert_eq!(create_shader(&args, &mut memory), OK);
    let object = &memory.bytes;
    assert_eq!(read_le_u64(object, 0x18), header + 0x18 + 0xa8, "+0x18 endpoint is relocated");
    assert_eq!(read_le_u64(object, 0x38), header + 0x38 + 0x58, "+0x38 endpoint is relocated");
    assert_eq!(read_le_u64(object, 0x20), header + 0x20 + 0x70);
    assert_eq!(read_le_u64(object, 0x28), header + 0x28 + 0x38);
    assert_eq!(read_le_u64(object, 0x30), header + 0x30 + 0x60);

    let mut empty = vec![0u8; OBJECT + 8];
    put_u64(&mut empty, 0x20, 0x70);
    let mut memory2 = GuestRegion::new(BASE, empty);
    let mut args2 = [0u64; GUEST_ARG_REGISTERS];
    args2[0] = BASE + SLOT as u64;
    args2[1] = BASE;
    args2[2] = 0x1234u64;
    assert_eq!(create_shader(&args2, &mut memory2), OK);
    assert_eq!(read_le_u64(&memory2.bytes, 0x18), 0, "an empty +0x18 is not turned into header+0");
    assert_eq!(read_le_u64(&memory2.bytes, 0x38), 0, "an empty +0x38 is not turned into header+0");
}

#[test]
fn create_shader_matches_the_consoles_byte_diff() {
    let run = |reg: u32| {
        let mut object = vec![0u8; OBJECT + 8];
        put_u64(&mut object, 0x08, 0xd8);
        put_u64(&mut object, 0x20, 0x70);
        put_u64(&mut object, 0x28, 0x38);
        put_u32(&mut object, 0x90, reg);
        put_u32(&mut object, 0x98, reg.wrapping_add(1));
        for (i, rel) in [0x38u64, 0x48, 0x40, 0x38, 0x30].iter().enumerate() {
            put_u64(&mut object, 0xe0 + i * 8, *rel);
        }
        let mut memory = GuestRegion::new(BASE, object);
        let payload = 0x4000_0072_6600u64;
        let mut args = [0u64; GUEST_ARG_REGISTERS];
        args[0] = BASE + SLOT as u64;
        args[1] = BASE;
        args[2] = payload;
        assert_eq!(create_shader(&args, &mut memory), OK);
        (memory.bytes, BASE, payload)
    };

    let (object, header, payload) = run(0x2c8c);
    assert_eq!(read_le_u64(&object, 0x20), header + 0x90);
    assert_eq!(read_le_u32(&object, 0x94), (payload >> 8) as u32, "sh[1] = payload >> 8");
    assert_eq!(read_le_u32(&object, 0x9c), (payload >> 40) as u32, "sh[3] = payload >> 40");
    assert_eq!(read_le_u64(&object, 0xe0), header + 0x118);
    for entry in [0xe8, 0xf0, 0xf8, 0x100] {
        assert_eq!(read_le_u64(&object, entry), header + 0x130, "entry at {entry:#x}");
    }

    let (unregistered, _, _) = run(0);
    assert_eq!(read_le_u32(&unregistered, 0x94), 0, "no register named, no patch");
    assert_eq!(read_le_u32(&unregistered, 0x9c), 0);
}

#[test]
fn create_shader_refuses_a_null_out_parameter() {
    let args = [0u64; GUEST_ARG_REGISTERS];
    let mut memory = GuestRegion::new(BASE, vec![0u8; 16]);
    assert_eq!(
        create_shader(&args, &mut memory),
        BAD_ARGUMENT,
        "null out is the wrapper's bad-argument code"
    );
    assert_eq!(memory.bytes, vec![0u8; 16], "nothing is written");
}

#[test]
fn interpolant_mapping_writes_the_measured_default_table() {
    let mut memory = GuestRegion::new(BASE, vec![0xffu8; 256]);
    let mut args = [0u64; GUEST_ARG_REGISTERS];
    args[0] = BASE;

    assert_eq!(create_interpolant_mapping(&args, &mut memory), OK);
    let table = &memory.bytes;
    assert_eq!(read_le_u64(table, 0), 0x191, "entry 0 is SPI_PS_INPUT_CNTL_0");
    assert_eq!(read_le_u64(table, 8), 0x1_0000_0192, "entry 1 is (1<<32)|0x192");
    assert_eq!(read_le_u64(table, 31 * 8), (31u64 << 32) | (0x191 + 31), "entry 31");
}

#[test]
fn link_shaders_writes_interpolants_and_routing() {
    let mut memory = GuestRegion::new(BASE, vec![0u8; 0x120]);
    let mut args = [0u64; GUEST_ARG_REGISTERS];
    args[0] = BASE;

    assert_eq!(link_shaders(&args, &mut memory), OK);
    let link = &memory.bytes;
    assert_eq!(read_le_u64(link, 0), 0x191, "interpolant table at the front");
    assert_eq!(read_le_u64(link, 8), 0x1_0000_0192, "second interpolant");
    assert_eq!(read_le_u64(link, 0x108), LINK_STAGE_ROUTING, "stage routing at +0x108");
}

#[test]
fn prim_state_records_topology_in_sec_state() {
    // The primitive state at BASE, the secondary state 64 bytes after it.
    let mut bytes = vec![0u8; 128];
    put_u32(&mut bytes, 64 + 0x14, 0xabcd_ffe0);
    let mut memory = GuestRegion::new(BASE, bytes);

    let mut args = [0u64; GUEST_ARG_REGISTERS];
    args[0] = BASE;
    args[1] = BASE + 64;
    args[4] = 4;

    assert_eq!(create_prim_state(&args, &mut memory), OK);
    let after_create = read_le_u32(&memory.bytes, 64 + 0x14);
    assert_eq!(after_create & 0x1f, 4, "topology is DI_PT_TRILIST");
    assert_eq!(after_create & !0x1f, 0xabcd_ffe0, "the other bits are preserved");

    args[2] = 1;
    assert_eq!(update_prim_state(&args, &mut memory), OK);
    let after_update = read_le_u32(&memory.bytes, 64 + 0x14);
    assert_eq!(after_update & 0x1f, 1, "topology updated to DI_PT_POINTLIST");
    assert_eq!(after_update & !0x1f, 0xabcd_ffe0, "the other bits still preserved");
}

#[test]
fn phantom_get_size_writes_workload_size() {
    let mut memory = GuestRegion::new(BASE, vec![0u8; 8]);
    let mut args = [0u64; GUEST_ARG_REGISTERS];
    args[0] = BASE;

    assert_eq!(agc_phantom_get_size(&args, &mut memory), OK);
    assert_eq!(read_le_u64(&memory.bytes, 0), 0xa8);
}

#[test]
fn agc_init_validates_version_and_touches_no_state() {
    let buf = [0x55u8; 64];
    let mut args = [0u64; GUEST_ARG_REGISTERS];
    args[0] = BASE;
    args[1] = 13;

    assert_eq!(agc_init(&args), OK);
    assert_eq!(buf, [0x55u8; 64], "arg0 must remain untouched");

    args[1] = 12;
    assert_eq!(agc_init(&args), 0x8a6c_0004);
    assert_eq!(agc_init(&args), INVALID_VERSION);
    assert_eq!(buf, [0x55u8; 64], "arg0 must remain untouched");
}

#[test]
fn get_is_trinity_mode_is_false_on_a_base_console() {
    assert_eq!(get_is_trinity_mode(false), 0);
    assert_eq!(get_is_trinity_mode(true), 1);
}

#[test]
fn null_table_and_state_pointers_are_refused_and_nothing_is_written() {
    let mut memory = GuestRegion::new(BASE, vec![0x11u8; 0x120]);
    let args = [0u64; GUEST_ARG_REGISTERS];
    assert_eq!(create_interpolant_mapping(&args, &mut memory), BAD_ARGUMENT);
    assert_eq!(update_interpolant_mapping(&args, &mut memory), BAD_ARGUMENT);
    assert_eq!(create_prim_state(&args, &mut memory), BAD_ARGUMENT);
    assert_eq!(update_prim_state(&args, &mut memory), BAD_ARGUMENT);
    assert_eq!(link_shaders(&args, &mut memory), BAD_ARGUMENT);
    assert_eq!(memory.bytes, vec![0x11u8; 0x120]);
    assert_eq!(agc_phantom_get_size(&args, &mut memory), OK);
    assert_eq!(agc_patch_returns_ok(&args), OK);
    assert_eq!(agc_no_op_returns_ok(&args), OK);
    assert_eq!(memory.bytes, vec![0x11u8; 0x120]);
}

/// A writer handle at `BASE` whose command buffer starts at `BASE + 0x40` and ends at `limit`.
fn writer(limit: u64) -> GuestRegion {
    let mut bytes = vec![0u8; 0x100];
    put_u64(&mut bytes, 0x00, BASE + 0x40);
    put_u64(&mut bytes, 0x08, limit);
    put_u64(&mut bytes, 0x10, BASE + 0x40);
    put_u64(&mut bytes, 0x18, limit);
    GuestRegion::new(BASE, bytes)
}

#[test]
fn a_builder_writes_its_packet_at_the_cursor_and_advances_it() {
    let mut memory = writer(BASE + 0x100);
    let mut args = [0u64; GUEST_ARG_REGISTERS];
    args[0] = BASE;
    args[1] = 0x2f;
    assert_eq!(dcb_event_write(&args, &mut memory), GuestAnswer::Value(BASE + 0x40));
    assert_eq!(read_le_u32(&memory.bytes, 0x40), 0xc000_4600, "EVENT_WRITE header");
    assert_eq!(read_le_u32(&memory.bytes, 0x44), 0x2f, "the event type");
    assert_eq!(read_le_u64(&memory.bytes, 0x10), BASE + 0x48, "the cursor moved by eight bytes");

    // The next packet lands after it, and is answered at its own address.
    args[1] = (0x1234u64 << 32) | 0x0203;
    assert_eq!(dcb_set_cx_register_direct(&args, &mut memory), GuestAnswer::Value(BASE + 0x48));
    assert_eq!(read_le_u32(&memory.bytes, 0x48), 0xc001_6900, "SET_CONTEXT_REG header");
    assert_eq!(read_le_u32(&memory.bytes, 0x4c), 0x0203, "the offset");
    assert_eq!(read_le_u32(&memory.bytes, 0x50), 0x1234, "the value");
    assert_eq!(read_le_u64(&memory.bytes, 0x10), BASE + 0x54);
}

#[test]
fn a_packet_that_does_not_fit_is_not_written() {
    let mut memory = writer(BASE + 0x48);
    let before = memory.bytes.clone();
    let mut args = [0u64; GUEST_ARG_REGISTERS];
    args[0] = BASE;
    assert_eq!(dcb_stall_command_buffer_parser(&args, &mut memory), GuestAnswer::Value(BASE + 0x40));
    assert_eq!(read_le_u32(&memory.bytes, 0x40), 0xc000_4200, "the measured stall header");
    let filled = memory.bytes.clone();
    assert_ne!(filled, before);
    assert_eq!(dcb_event_write(&args, &mut memory), GuestAnswer::Unimplemented);
    assert_eq!(memory.bytes, filled, "nothing written past the limit");
    args[0] = 0;
    assert_eq!(dcb_event_write(&args, &mut memory), GuestAnswer::Value(BAD_ARGUMENT));
}

#[test]
fn draw_index_carries_the_count_twice_and_the_address_in_halves() {
    let mut memory = writer(BASE + 0x100);
    let mut args = [0u64; GUEST_ARG_REGISTERS];
    args[0] = BASE;
    args[1] = 3;
    args[2] = 0x12345678;
    args[3] = 0;
    assert_eq!(dcb_draw_index(&args, &mut memory), GuestAnswer::Value(BASE + 0x40));
    let words: Vec<u32> = (0..6).map(|i| read_le_u32(&memory.bytes, 0x40 + 4 * i)).collect();
    assert_eq!(words, vec![0xc004_2700, 3, 0x1234_5678, 0, 3, 0]);
}

#[test]
fn a_register_run_is_read_from_guest_memory_into_one_packet() {
    let mut memory = writer(BASE + 0x100);
    put_u32(&mut memory.bytes, 0xc0, 0xaaaa_0001);
    put_u32(&mut memory.bytes, 0xc4, 0xbbbb_0002);
    let mut args = [0u64; GUEST_ARG_REGISTERS];
    args[0] = BASE;
    args[1] = 0x4c;
    args[2] = BASE + 0xc0;
    args[3] = 2;
    assert_eq!(cb_set_sh_register_range_direct(&args, &mut memory), GuestAnswer::Value(BASE + 0x40));
    let words: Vec<u32> = (0..4).map(|i| read_le_u32(&memory.bytes, 0x40 + 4 * i)).collect();
    assert_eq!(words, vec![0xc002_7600, 0x4c, 0xaaaa_0001, 0xbbbb_0002]);

    args[3] = 0;
    assert_eq!(cb_set_sh_register_range_direct(&args, &mut memory), GuestAnswer::Value(BAD_ARGUMENT));
    args[3] = 0x3fff;
    assert_eq!(cb_set_sh_register_range_direct(&args, &mut memory), GuestAnswer::Value(BAD_ARGUMENT));
}

#[test]
fn a_region_reads_back_what_was_stored_and_refuses_outside_itself() {
    let mut memory = GuestRegion::new(BASE, vec![0u8; 16]);
    memory.write_u64(BASE + 4, 0x0102_0304_0506_0708);
    assert_eq!(memory.read_u64(BASE + 4), Some(0x0102_0304_0506_0708));
    assert_eq!(memory.read_u32(BASE + 4), Some(0x0506_0708));
    assert_eq!(memory.read_u32(BASE + 8), Some(0x0102_0304));
    assert_eq!(memory.read_u64(BASE + 9), None, "past the end");
    assert_eq!(memory.read_u32(BASE - 1), None, "before the start");
    memory.write_u32(BASE + 14, 0xffff_ffff);
    assert_eq!(memory.read_u64(BASE + 8), Some(0x0102_0304), "a store past the end changes nothing");
}

#[test]
fn the_table_names_each_implemented_call_once() {
    let table = implementations();
    assert_eq!(table.len(), 50);
    for (i, (name, _)) in table.iter().enumerate() {
        assert!(table[i + 1..].iter().all(|(other, _)| other != name), "{name} is listed once");
    }
    assert!(table.contains(&("sceAgcInit", AgcCall::Init)));
    assert!(table.contains(&("0x53bbd82b51d172db", AgcCall::Init)), "the alias answers as init");
    assert!(table.contains(&("sceAgcCreateShader", AgcCall::CreateShader)));
    assert!(table.contains(&("sceAgcDcbWaitUntilSafeForRendering", AgcCall::NoOpReturnsOk)));
    let patches = table.iter().filter(|(_, call)| *call == AgcCall::PatchReturnsOk).count();
    assert_eq!(patches, 10, "the whole patch family answers OK");
}

#[test]
fn a_call_answered_through_the_table_does_what_its_handler_does() {
    let mut args = [0u64; GUEST_ARG_REGISTERS];
    args[0] = BASE;
    args[1] = 13;
    let mut memory = GuestRegion::new(BASE, vec![0u8; 8]);
    assert_eq!(AgcCall::Init.answer(&args, &mut memory, false), GuestAnswer::Value(OK));
    assert_eq!(AgcCall::GetIsTrinityMode.answer(&args, &mut memory, true), GuestAnswer::Value(1));
    assert_eq!(AgcCall::PhantomGetSize.answer(&args, &mut memory, false), GuestAnswer::Value(OK));
    assert_eq!(read_le_u64(&memory.bytes, 0), 0xa8);

    let mut writer_memory = writer(BASE + 0x100);
    args[1] = 7;
    assert_eq!(
        AgcCall::DcbSetIndexCount.answer(&args, &mut writer_memory, false),
        GuestAnswer::Value(BASE + 0x40)
    );
    assert_eq!(read_le_u32(&writer_memory.bytes, 0x40), 0xc000_1300, "INDEX_BUFFER_SIZE header");
    assert_eq!(read_le_u32(&writer_memory.bytes, 0x44), 7);
}
