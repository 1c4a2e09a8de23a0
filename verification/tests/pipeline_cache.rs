use orbistoun_gpu::guest::GuestRegion;
use orbistoun_gpu::agc::unpack_register_entry;
use orbistoun_gpu::backend::{BackendError, ResourceId, ShaderStage};
use orbistoun_gpu::render::{count_command, count_resident, FrameOutcome};
use orbistoun_gpu::pipeline::{
    colour_target_id, guest_address_of, read_window, stage_of, Cached, Queue, MAX_SHADER_BYTES,
};
use orbistoun_gpu::registers::ColourTargetExtent;

#[test]
fn a_cache_entry_recognises_the_shader_it_was_built_from() {
    let bytes: Vec<u8> = (0..32u8).collect();
    let entry = Cached::of(ResourceId(1), &bytes);
    assert!(entry.matches(&bytes));
}

#[test]
fn a_cache_entry_rejects_a_shader_that_only_looks_like_it() {
    let bytes: Vec<u8> = (0..32u8).collect();
    let entry = Cached::of(ResourceId(1), &bytes);
    let mut shorter = bytes.clone();
    shorter.truncate(28);
    assert!(!entry.matches(&shorter), "a different length is a different shader");
    let mut first_changed = bytes.clone();
    first_changed[0] ^= 0xFF;
    assert!(!entry.matches(&first_changed), "the first word is compared");
    let mut last_changed = bytes.clone();
    let end = last_changed.len() - 1;
    last_changed[end] ^= 0xFF;
    assert!(!entry.matches(&last_changed), "the last word is compared");
}

#[test]
fn a_shader_too_short_to_hold_a_word_does_not_panic() {
    let entry = Cached::of(ResourceId(1), &[1, 2]);
    assert!(entry.matches(&[1, 2]));
    assert!(!entry.matches(&[3, 4]));
}

#[test]
fn a_cache_entry_keeps_the_padded_ends() {
    let entry = Cached::of(ResourceId(7), &[1, 2, 3, 4, 5, 6]);
    assert_eq!(entry.length, 6);
    assert_eq!(entry.first, 0x0403_0201);
    assert_eq!(entry.last, 0x0605_0403);
    assert_eq!(Cached::word(&[9], 0), 9);
    assert_eq!(Cached::word(&[9], 5), 0);
}

#[test]
fn each_queue_permits_its_own_stages() {
    assert!(Queue::Draw.permits(ShaderStage::Vertex));
    assert!(Queue::Draw.permits(ShaderStage::Fragment));
    assert!(!Queue::Draw.permits(ShaderStage::Compute));
    assert!(Queue::Compute.permits(ShaderStage::Compute));
    assert!(!Queue::Compute.permits(ShaderStage::Vertex));
}

#[test]
fn a_stage_name_is_read_or_refused() {
    assert_eq!(stage_of("vertex"), Some(ShaderStage::Vertex));
    assert_eq!(stage_of("pixel"), Some(ShaderStage::Fragment));
    assert_eq!(stage_of("fragment"), Some(ShaderStage::Fragment));
    assert_eq!(stage_of("compute"), Some(ShaderStage::Compute));
    assert_eq!(stage_of("geometry"), None);
}

#[test]
fn a_target_id_is_tagged_apart_from_shader_ids() {
    assert_eq!(guest_address_of(0x1234), 0x1234);
    let id = colour_target_id(ColourTargetExtent { width: 1920, height: 1080 });
    assert_eq!(id, ResourceId((1 << 63) | (1920 << 16) | 1080));
}

/// Memory mapped for `mapped` bytes from address zero.
/// Guest memory mapped from a fixed address.
fn mapped(bytes: Vec<u8>) -> GuestRegion {
    GuestRegion::new(0, bytes)
}

#[test]
fn a_shader_near_the_end_of_a_mapping_is_read_in_a_narrower_window() {
    let memory = mapped(vec![0xAB; 100]);
    assert_eq!(read_window(&memory, 0).map(<[u8]>::len), Some(64));
    assert_eq!(read_window(&memory, 90).map(<[u8]>::len), Some(8));
    assert_eq!(read_window(&memory, 98), None);
    let whole = mapped(vec![0; MAX_SHADER_BYTES]);
    assert_eq!(read_window(&whole, 0).map(<[u8]>::len), Some(MAX_SHADER_BYTES));
}

#[test]
fn a_frame_counts_carried_out_refused_and_resident() {
    let mut outcome = FrameOutcome::default();
    assert!(count_resident(&mut outcome, Ok(())).is_ok());
    assert!(count_command(&mut outcome, Ok(())).is_ok());
    assert!(count_command(&mut outcome, Err(BackendError::Unsupported { command: "Draw" })).is_ok());
    assert_eq!(
        count_command(&mut outcome, Err(BackendError::Device("lost".to_string()))),
        Err(BackendError::Device("lost".to_string()))
    );
    assert_eq!(
        count_resident(&mut outcome, Err(BackendError::UnknownResource(ResourceId(3)))),
        Err(BackendError::UnknownResource(ResourceId(3)))
    );
    assert_eq!(outcome, FrameOutcome { resident: 1, executed: 1, refused: 1, presented: false });
}

#[test]
fn a_packed_register_entry_unpacks_to_its_offset_and_value() {
    assert_eq!(unpack_register_entry((0xDEAD_BEEF_u64 << 32) | 0x0318), (0x0318, 0xDEAD_BEEF));
    assert_eq!(unpack_register_entry(0x1_2345), (0x2345, 0));
}
