use orbistoun_gpu::guest::GuestRegion;
use orbistoun_gpu::backend::{RenderCommand, ResourceId, ShaderStage};
use orbistoun_gpu::content_hash;
use orbistoun_gpu::pipeline::{
    bind_textures, descriptor_words, gather_texels, read_texture, still_current, texture_census,
    texture_layout, CachedTexels, NoWatch, TexelCache, TextureKey, TextureLayout, TextureSource, WriteWatch,
    TEXEL_CACHE_ENTRIES,
};
use std::collections::BTreeMap;

/// Guest memory mapped from a fixed address.
fn mapped_at(bytes: Vec<u8>) -> GuestRegion {
    GuestRegion::new(0x1000, bytes)
}

/// A host that marks every read and vouches that nothing was written since.
struct Unwritten;

impl WriteWatch for Unwritten {
    fn mark(&mut self, _base: u64, _length: u64) -> Option<u64> {
        Some(1)
    }
    fn written_since(&self, _base: u64, _length: u64, _mark: u64) -> Option<bool> {
        Some(false)
    }
}

const TABLE: u64 = 0x1000;
const TEXELS: u64 = 0x1100;

/// A 2D linear RGBA8 descriptor for a texture at `texels` of `width` x `height` with rows `pitch`
/// texels apart.
fn descriptor(texels: u64, width: u32, height: u32, pitch: u32) -> [u32; 8] {
    [
        (texels >> 8) as u32,
        ((texels >> 40) as u32 & 0xff) | (56 << 20) | (((width - 1) & 3) << 30),
        ((width - 1) >> 2) | ((height - 1) << 14) | (1 << 31),
        (9 << 28) | 0xfac,
        pitch - 1,
        0,
        0,
        0,
    ]
}

fn at(index: u64) -> usize {
    (TEXELS - TABLE + index * 4) as usize
}

/// A 16x2 texture whose rows are 64 texels apart; texel (x, y) holds `y * 100 + x`, and the texel
/// a width stride would reach for row 1 holds a marker instead.
fn pitched() -> Vec<u8> {
    let (width, height, pitch) = (16u32, 2u32, 64u32);
    let mut bytes = vec![0u8; 0x1000];
    for (i, word) in descriptor(TEXELS, width, height, pitch).iter().enumerate() {
        bytes[i * 4..i * 4 + 4].copy_from_slice(&word.to_le_bytes());
    }
    for y in 0..u64::from(height) {
        for x in 0..u64::from(width) {
            let value = (y * 100 + x) as u32;
            let o = at(y * u64::from(pitch) + x);
            bytes[o..o + 4].copy_from_slice(&value.to_le_bytes());
        }
    }
    bytes[at(16)..at(16) + 4].copy_from_slice(&0xdead_beef_u32.to_le_bytes());
    bytes
}

/// A 16x2 `8_8_8_8_UNORM` 2D texture whose rows are 64 texels apart - `ADDR_SW_LINEAR`'s 256-byte
/// row alignment - with `WORD4` carrying `pitch - 1 = 63`. Row 1 must come from 64 texels in; read
/// at the width it would come from texel 16, which holds a different value here. And a descriptor
/// that is not 2D linear RGBA8 binds nothing.
#[test]
fn a_linear_texture_is_read_at_its_descriptors_pitch() {
    let (width, height, pitch) = (16u32, 2u32, 64u32);
    let bytes = pitched();
    let memory = mapped_at(bytes.clone());
    let mut cache = TexelCache::new();

    let Some(RenderCommand::BindTexture { texels, width: w, height: h, hash, .. }) =
        read_texture(TABLE, 0, &memory, &mut cache, &mut NoWatch)
    else {
        panic!("a 2D linear RGBA8 texture binds");
    };
    assert_eq!((w, h), (width, height));
    assert_eq!(texels[0], 0);
    assert_eq!(texels[16], 100, "row 1 starts at the pitch, not the width");
    assert_eq!(texels[31], 115);
    assert_eq!(hash, content_hash(&texels), "hashed as gathered");

    // A cached texture is re-read when its bytes change: texel (1, 1) edited in guest memory binds
    // the edited value, not the cached one - and the padding past the width, which no texel reads,
    // changes nothing.
    let mut edited = bytes.clone();
    let o = at(u64::from(pitch) + 1);
    edited[o..o + 4].copy_from_slice(&7u32.to_le_bytes());
    let Some(RenderCommand::BindTexture { texels, .. }) = read_texture(TABLE, 0, &mapped_at(edited), &mut cache, &mut NoWatch)
    else {
        panic!("still binds");
    };
    assert_eq!(texels[17], 7);
    let mut padded = bytes.clone();
    padded[at(20)..at(20) + 4].copy_from_slice(&9u32.to_le_bytes());
    let Some(RenderCommand::BindTexture { texels: again, .. }) =
        read_texture(TABLE, 0, &mapped_at(padded), &mut cache, &mut NoWatch)
    else {
        panic!("still binds");
    };
    assert_eq!(again[17], 101, "the original bytes, unaffected by padding");

    // A 3D texture (type 0xa) names a slice count in WORD4, not a pitch: nothing binds.
    let mut three_d = bytes;
    three_d[12..16].copy_from_slice(&((0xa_u32 << 28) | 0xfac).to_le_bytes());
    assert!(read_texture(TABLE, 0, &mapped_at(three_d), &mut cache, &mut NoWatch).is_none());
}

#[test]
fn a_layout_takes_the_pitch_from_the_descriptor_or_else_the_width() {
    let layout = texture_layout(descriptor(TEXELS, 16, 2, 64)).expect("2D linear RGBA8");
    assert_eq!(layout, TextureLayout { base: TEXELS, width: 16, height: 2, pitch: 64, span: 64 * 4 + 16 * 4 });
    let mut tight = descriptor(TEXELS, 16, 2, 1);
    tight[4] = 0;
    assert_eq!(texture_layout(tight).map(|l| (l.pitch, l.span)), Some((16, 128)));
    let mut tiled = descriptor(TEXELS, 16, 2, 64);
    tiled[3] |= 27 << 20;
    assert_eq!(texture_layout(tiled), None, "tiled is not read");
    let mut other_format = descriptor(TEXELS, 16, 2, 64);
    other_format[1] &= !(0x1ff << 20);
    assert_eq!(texture_layout(other_format), None, "only 8_8_8_8_UNORM is read");
}

#[test]
fn texels_are_gathered_row_by_row_at_the_pitch() {
    let layout = TextureLayout { base: 0, width: 2, height: 2, pitch: 3, span: 3 * 4 + 2 * 4 };
    let words: Vec<u8> = [1u32, 2, 99, 4, 5].iter().flat_map(|w| w.to_le_bytes()).collect();
    assert_eq!(gather_texels(&words, layout), vec![1, 2, 4, 5]);
}

#[test]
fn descriptor_words_past_the_bytes_read_are_zero() {
    let bytes: Vec<u8> = (1..=10u8).collect();
    let words = descriptor_words(&bytes);
    assert_eq!(words[0], 0x0403_0201);
    assert_eq!(words[1], 0x0807_0605);
    assert_eq!(&words[2..], &[0; 6]);
}

/// Where the host vouches that nothing wrote a cached texture since it was read, it is served from
/// the cache without reading memory again.
#[test]
fn a_texture_the_host_vouches_for_is_served_from_the_cache() {
    let bytes = pitched();
    let mut cache = TexelCache::new();
    let first = read_texture(TABLE, 0, &mapped_at(bytes.clone()), &mut cache, &mut Unwritten).expect("binds");
    let mut edited = bytes;
    let o = at(1);
    edited[o..o + 4].copy_from_slice(&7u32.to_le_bytes());
    let second = read_texture(TABLE, 3, &mapped_at(edited), &mut cache, &mut Unwritten).expect("binds");
    let (RenderCommand::BindTexture { texels: a, .. }, RenderCommand::BindTexture { texels: b, slot, .. }) = (first, second)
    else {
        panic!("texture binds");
    };
    assert_eq!(a, b, "unread: the cached texels");
    assert_eq!(slot, 3);
}

/// A cache full of other textures starts again rather than growing.
#[test]
fn a_full_texel_cache_starts_again() {
    let mut cache = TexelCache::new();
    let mut bytes = vec![0u8; 0x2000];
    for width in 1..=TEXEL_CACHE_ENTRIES as u32 + 1 {
        for (i, word) in descriptor(TEXELS, width, 1, width).iter().enumerate() {
            bytes[i * 4..i * 4 + 4].copy_from_slice(&word.to_le_bytes());
        }
        assert!(read_texture(TABLE, 0, &mapped_at(bytes.clone()), &mut cache, &mut NoWatch).is_some());
        assert!(cache.len() <= TEXEL_CACHE_ENTRIES);
    }
    assert_eq!(cache.len(), 1, "the sixty-fifth shape started it again");
}

fn user_data(table: u64) -> RenderCommand {
    let mut words = [0u32; 32];
    words[0] = table as u32;
    words[1] = (table >> 32) as u32;
    RenderCommand::SetUserData { stage: ShaderStage::Fragment, words }
}

fn draw() -> RenderCommand {
    RenderCommand::Draw { vertices: 3, instances: 1, first_vertex: 0 }
}

/// A draw after a fragment table and module are bound samples the texture the table names, bound
/// just before it - a module this pipeline did not translate gets the one texture it always did;
/// a second draw with nothing changed binds nothing again, and every command keeps its place. With
/// no fragment module bound, nothing is sampled.
#[test]
fn a_draw_samples_the_texture_its_table_names() {
    let memory = mapped_at(pitched());
    let module = RenderCommand::BindShader { stage: ShaderStage::Fragment, shader: ResourceId(9) };
    let mut commands = vec![user_data(TABLE), module.clone(), draw(), draw()];
    let mut cache = TexelCache::new();
    bind_textures(&mut commands, &BTreeMap::new(), &mut cache, &memory, &mut NoWatch);
    assert_eq!(commands.len(), 5);
    assert_eq!(commands[0], user_data(TABLE));
    assert_eq!(commands[1], module);
    assert!(matches!(commands[2], RenderCommand::BindTexture { slot: 0, width: 16, height: 2, .. }));
    assert_eq!(commands[3], draw());
    assert_eq!(commands[4], draw());

    let mut commands = vec![user_data(TABLE), draw()];
    bind_textures(&mut commands, &BTreeMap::new(), &mut cache, &memory, &mut NoWatch);
    assert_eq!(commands.len(), 2, "no fragment module, nothing sampled");
}

/// A module's texture sources decide what is bound: each slot at its own offset into the table; a
/// module with none binds nothing; an unreadable table binds nothing.
#[test]
fn each_slot_of_the_fragment_module_reads_its_own_descriptor() {
    let mut bytes = pitched();
    // A second descriptor 32 bytes in, naming the same texels at width 4.
    for (i, word) in descriptor(TEXELS, 4, 1, 4).iter().enumerate() {
        bytes[32 + i * 4..32 + i * 4 + 4].copy_from_slice(&word.to_le_bytes());
    }
    let memory = mapped_at(bytes);
    let module = ResourceId(7);
    let mut sources = BTreeMap::new();
    sources.insert(
        module.0,
        vec![TextureSource { slot: 0, table_offset: Some(0) }, TextureSource { slot: 1, table_offset: Some(32) }],
    );
    sources.insert(8u64, Vec::new());
    let bind = RenderCommand::BindShader { stage: ShaderStage::Fragment, shader: module };
    let mut commands = vec![user_data(TABLE), bind.clone(), draw()];
    let mut cache = TexelCache::new();
    bind_textures(&mut commands, &sources, &mut cache, &memory, &mut NoWatch);
    assert_eq!(commands.len(), 5);
    assert!(matches!(commands[2], RenderCommand::BindTexture { slot: 0, width: 16, .. }));
    assert!(matches!(commands[3], RenderCommand::BindTexture { slot: 1, width: 4, .. }));

    let none = RenderCommand::BindShader { stage: ShaderStage::Fragment, shader: ResourceId(8) };
    let mut commands = vec![user_data(TABLE), none, draw()];
    bind_textures(&mut commands, &sources, &mut cache, &memory, &mut NoWatch);
    assert_eq!(commands.len(), 3, "a module sampling nothing binds nothing");

    let mut commands = vec![user_data(0x9000_0000), draw()];
    bind_textures(&mut commands, &sources, &mut cache, &memory, &mut NoWatch);
    assert_eq!(commands.len(), 2, "an unreadable table binds nothing");
}

/// The census names each distinct descriptor the fragment tables hold, once, in first-use order;
/// an unreadable table names nothing.
#[test]
fn the_census_names_each_texture_once() {
    let memory = mapped_at(pitched());
    let commands = vec![user_data(TABLE), draw(), user_data(TABLE), user_data(0x9000_0000), draw()];
    let textures = texture_census(&commands, &memory);
    assert_eq!(textures.len(), 1);
    assert_eq!((textures[0].base, textures[0].width, textures[0].height), (TEXELS, 16, 2));
}

#[test]
fn held_texels_are_served_again_only_when_the_watch_answers_nothing_wrote_them() {
    assert!(still_current(Some(7), Some(false)));
    assert!(!still_current(Some(7), Some(true)), "written since");
    assert!(!still_current(Some(7), None), "the watch cannot say");
    assert!(!still_current(None, None), "no mark was kept");
    assert!(!still_current(None, Some(false)), "an answer without a mark vouches for nothing");
}

#[test]
fn each_bind_carries_the_texels_hash_and_extent_read_for_its_descriptor() {
    let memory = mapped_at(pitched());
    let module = RenderCommand::BindShader { stage: ShaderStage::Fragment, shader: ResourceId(9) };
    let mut commands = vec![user_data(TABLE), module, draw()];
    let mut cache = TexelCache::new();
    bind_textures(&mut commands, &BTreeMap::new(), &mut cache, &memory, &mut NoWatch);
    let Some(RenderCommand::BindTexture { texels: expected, .. }) =
        read_texture(TABLE, 0, &memory, &mut TexelCache::new(), &mut NoWatch)
    else {
        panic!("the texture reads");
    };
    let RenderCommand::BindTexture { slot, texels, hash, width, height } = &commands[2] else {
        panic!("a bind before the draw");
    };
    assert_eq!((*slot, *width, *height), (0, 16, 2));
    assert_eq!(*texels, expected);
    assert_eq!(*hash, content_hash(texels));
}

#[test]
fn keeping_texels_under_a_key_leaves_the_other_entries_alone() {
    let key = |base: u64| TextureKey { base, width: 1, height: 1, pitch: 1 };
    let held = |word: u32| CachedTexels { since: None, hash: content_hash(&[word]), texels: vec![word] };
    let mut cache = TexelCache::new();
    cache.insert(key(0x100), held(1));
    cache.insert(key(0x200), held(2));
    cache.insert(key(0x100), held(3));
    assert_eq!(cache.len(), 2);
    assert_eq!(cache.get(key(0x100)).map(|c| c.texels.clone()), Some(vec![3]));
    assert_eq!(cache.get(key(0x200)).map(|c| c.texels.clone()), Some(vec![2]));
}
