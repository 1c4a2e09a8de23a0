use orbistoun_gpu::packet::build;
use orbistoun_gpu::packet::{walk, PacketKind};

fn stream(words: &[u32]) -> Vec<u8> {
    words.iter().flat_map(|w| w.to_le_bytes()).collect()
}

/// Builds a type-3 command header from the format directly.
fn command(opcode: u8, body_dwords: u32) -> u32 {
    (3 << 30) | ((body_dwords - 1) << 16) | (u32::from(opcode) << 8)
}

fn register_write(base: u16, body_dwords: u32) -> u32 {
    ((body_dwords - 1) << 16) | u32::from(base)
}

#[test]
fn packets_are_walked_at_their_declared_lengths() {
    let bytes = stream(&[command(0x22, 2), 0xAAAA_AAAA, 0xBBBB_BBBB, command(0x37, 1), 0xCCCC_CCCC]);
    let result = walk(&bytes);
    assert_eq!(result.packets.len(), 2);
    assert_eq!(result.packets[0].kind, PacketKind::Command { opcode: 0x22 });
    assert_eq!(result.packets[0].length, 12);
    assert_eq!(result.packets[1].offset, 12);
    assert!(result.is_trustworthy());
}

#[test]
fn the_count_field_is_read_as_one_less_than_the_body() {
    let bytes = stream(&[command(0x10, 1), 0x1111_1111, command(0x11, 1), 0x2222_2222]);
    let result = walk(&bytes);
    assert_eq!(result.packets.len(), 2, "both packets found");
    assert_eq!(result.packets[0].length, 8);
    assert_eq!(result.packets[1].kind, PacketKind::Command { opcode: 0x11 });
    assert!(result.is_trustworthy());
}

#[test]
fn a_register_write_reports_its_base_register() {
    let bytes = stream(&[register_write(0x2C0A, 1), 0x0000_0001]);
    let result = walk(&bytes);
    assert_eq!(result.packets[0].kind, PacketKind::RegisterWrite { base_register: 0x2C0A });
}

#[test]
fn a_header_only_no_op_is_one_dword() {
    let bytes = stream(&[0xFFFF_1000, command(0x05, 1), 0xDEAD_BEEF]);
    let result = walk(&bytes);
    assert_eq!(result.packets[0].kind, PacketKind::Command { opcode: 0x10 });
    assert_eq!(result.packets[0].length, 4);
    assert_eq!(result.packets[1].kind, PacketKind::Command { opcode: 0x05 });
    assert!(result.is_trustworthy());
}

#[test]
fn filler_carries_no_body() {
    let bytes = stream(&[0x8000_0000, command(0x05, 1), 0xDEAD_BEEF]);
    let result = walk(&bytes);
    assert_eq!(result.packets[0].kind, PacketKind::Filler);
    assert_eq!(result.packets[0].length, 4);
    assert_eq!(result.packets[1].kind, PacketKind::Command { opcode: 0x05 });
    assert!(result.is_trustworthy());
}

#[test]
fn a_reserved_packet_type_desynchronises_the_walk() {
    let bytes = stream(&[0x4000_0000, command(0x05, 1), 0xDEAD_BEEF]);
    let result = walk(&bytes);
    assert!(result.desynchronised);
    assert!(!result.is_trustworthy());
    assert_eq!(result.packets[0].kind, PacketKind::Reserved);
}

#[test]
fn a_packet_extending_past_the_buffer_is_reported_not_followed() {
    let bytes = stream(&[command(0x22, 8), 0x1111_1111]);
    let result = walk(&bytes);
    assert!(result.overran);
    assert!(!result.is_trustworthy());
}

#[test]
fn a_histogram_counts_commands_in_a_stable_order() {
    let bytes = stream(&[command(0x30, 1), 0x0, command(0x10, 1), 0x0, command(0x30, 1), 0x0]);
    let result = walk(&bytes);
    assert_eq!(result.command_histogram(), vec![(0x10, 1), (0x30, 2)]);
}

#[test]
fn an_empty_submission_walks_to_nothing_without_complaint() {
    let result = walk(&[]);
    assert!(result.packets.is_empty());
    assert!(result.is_trustworthy());
}

#[test]
fn a_buffer_that_is_not_whole_dwords_is_reported() {
    let mut bytes = stream(&[command(0x05, 1), 0x0]);
    bytes.push(0x99);
    let result = walk(&bytes);
    assert_eq!(result.trailing_bytes, 1);
    assert!(!result.is_trustworthy());
}

#[test]
fn a_built_dispatch_walks_back_to_the_packet_it_stood_for() {
    assert_eq!(
        build::command_header(build::DISPATCH_DIRECT, 4),
        command(build::DISPATCH_DIRECT, 4),
        "the builder's header matches the one computed from the format directly"
    );
    let dwords = build::dispatch_direct(64, 1, 1);
    let result = walk(&stream(&dwords));
    assert_eq!(result.packets.len(), 1, "one packet");
    assert_eq!(result.packets[0].kind, PacketKind::Command { opcode: build::DISPATCH_DIRECT });
    assert_eq!(result.packets[0].length, 20, "header plus four body dwords");
    assert!(result.is_trustworthy(), "and it walks cleanly to the end");
}

#[test]
fn a_packet_histogram_counts_kinds_and_is_empty_for_no_commands() {
    let bytes = stream(&[register_write(0x2C0A, 1), 1, 0x8000_0000]);
    let result = walk(&bytes);
    assert!(result.command_histogram().is_empty());
    assert_eq!(result.count_of(PacketKind::Filler), 1);
    assert_eq!(result.count_of(PacketKind::RegisterWrite { base_register: 0x2C0A }), 1);
}

#[test]
fn a_trustworthy_walk_covers_every_byte_once() {
    let bytes = stream(&[command(0x10, 1), 0, 0x8000_0000, command(0x76, 3), 0x0C, 1, 2]);
    let walked = walk(&bytes);
    assert!(walked.is_trustworthy());
    let total: u32 = walked.packets.iter().map(|p| p.length).sum();
    assert_eq!(total as usize, bytes.len());
    let empty = walk(&[]);
    assert!(empty.is_trustworthy() && empty.packets.is_empty());
}
