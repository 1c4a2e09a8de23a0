use orbistoun_gpu::guest::GuestRegion;
use orbistoun_gpu::{
    DEFAULT_HW_STATE_DWORDS, GnmCall, REJECTED, dispatch_direct,
    dispatch_init_default_hardware_state, implementations,
};

const BASE: u64 = 0x2000_0000;

fn dword(bytes: &[u8], index: usize) -> u32 {
    let at = index * 4;
    u32::from_le_bytes([bytes[at], bytes[at + 1], bytes[at + 2], bytes[at + 3]])
}

#[test]
fn the_default_hardware_state_is_reserved_as_fillers_and_counted() {
    let mut memory = GuestRegion::new(BASE, vec![0x55u8; 0x100 * 4 + 8]);
    let mut args = [0u64; 6];
    args[0] = BASE;
    args[1] = 0x100;
    assert_eq!(dispatch_init_default_hardware_state(&args, &mut memory), DEFAULT_HW_STATE_DWORDS);
    assert!((0..0x100).all(|i| dword(&memory.bytes, i) == 0x8000_0000), "type-2 fillers");
    assert_eq!(dword(&memory.bytes, 0x100), 0x5555_5555, "nothing past the reservation");
}

#[test]
fn a_buffer_too_small_for_the_default_state_is_answered_zero_and_left_alone() {
    let mut memory = GuestRegion::new(BASE, vec![0x55u8; 0x400]);
    let mut args = [0u64; 6];
    args[0] = BASE;
    args[1] = 0xff;
    assert_eq!(dispatch_init_default_hardware_state(&args, &mut memory), 0);
    args[0] = 0;
    args[1] = 0x100;
    assert_eq!(dispatch_init_default_hardware_state(&args, &mut memory), 0);
    assert_eq!(memory.bytes, vec![0x55u8; 0x400]);
}

#[test]
fn a_direct_dispatch_writes_its_packet_or_is_rejected_as_negative() {
    let mut memory = GuestRegion::new(BASE, vec![0u8; 32]);
    let args = [BASE, 5, 8, 4, 2, 0];
    assert_eq!(dispatch_direct(&args, &mut memory), 0);
    let words: Vec<u32> = (0..5).map(|i| dword(&memory.bytes, i)).collect();
    assert_eq!(words, vec![0xc003_1502, 8, 4, 2, 1]);

    let mut small = GuestRegion::new(BASE, vec![0u8; 32]);
    let short = [BASE, 4, 8, 4, 2, 0];
    assert_eq!(dispatch_direct(&short, &mut small), REJECTED);
    assert!((REJECTED as i64) < 0, "a caller testing < 0 sees a failure");
    assert_eq!(small.bytes, vec![0u8; 32]);
}

#[test]
fn the_driver_table_names_both_builders() {
    let table = implementations();
    assert_eq!(
        table,
        [
            ("sceGnmDispatchInitDefaultHardwareState", GnmCall::DispatchInitDefaultHardwareState),
            ("sceGnmDispatchDirect", GnmCall::DispatchDirect),
        ]
    );
    let mut memory = GuestRegion::new(BASE, vec![0u8; 32]);
    assert_eq!(GnmCall::DispatchDirect.answer(&[BASE, 5, 1, 1, 1, 0], &mut memory), 0);
    assert_eq!(dword(&memory.bytes, 0), 0xc003_1502);
}
