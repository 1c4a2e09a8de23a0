//! Detiling a guest's surfaces - turning a tiled render target or texture back into a linear image.
//!
//! A guest's colour targets and textures are **tiled**: a texel `(x, y)` is not at the linear byte
//! `(y * width + x) * bpp`, but at a swizzled offset the hardware computes. The swizzle here is the
//! `64KB_R_X` one at 32 bpp, anchored to a hardware readback: texel `(15, 15)` at tiled byte 4348,
//! and a whole 1920x1080 surface detiled with row-major 64 KiB blocks that matched a linear
//! control at every pixel. Other modes and element sizes are refused by name rather than guessed.
use vstd::prelude::*;
use crate::registers::{
    ImageDescriptor, RegisterWrite, SwizzleMode, colour_swizzle_mode_at, colour_target_at,
    latest_value, spec_colour_target_at, spec_decode_swizzle_mode, CB_COLOR0_ATTRIB3,
};

verus! {

/// The `64KB_R_X` swizzle for a 32-bpp surface: the byte offset of texel `(x, y)` within one
/// 64 KiB block, each coordinate bit landing in fixed output bits, `XOR`ed together.
pub open spec fn spec_tiled_offset(x: u32, y: u32) -> u32 {
    ((((((((((0u32 ^ ((y << 4u32) & 0x0070u32)) ^ ((y << 5u32) & 0x0f00u32)) ^ ((y << 9u32)
        & 0x1000u32)) ^ ((y << 8u32) & 0x4000u32)) ^ ((x << 2u32) & 0x000cu32)) ^ ((x << 5u32)
        & 0x0380u32)) ^ ((x << 4u32) & 0x0400u32)) ^ ((x << 6u32) & 0x0800u32)) ^ ((x << 9u32)
        & 0xa000u32)))
}

/// The byte offset of texel `(x, y)` within a 64 KiB `R_X` tile, for a four-byte element.
///
/// Fitted to the one texel read back on hardware, `(15, 15)` to byte 4348, and agreeing with the
/// open-toolchain tiler at every texel of the 128x128 block.
pub fn tiled_byte_offset_64kb_rx_bpp4(x: u32, y: u32) -> (r: u32)
    ensures
        r == spec_tiled_offset(x, y),
        r < 0x10000,
        r % 4 == 0,
{
    let mut offset: u32 = 0;
    offset = offset ^ ((y << 4u32) & 0x0070u32);
    offset = offset ^ ((y << 5u32) & 0x0f00u32);
    offset = offset ^ ((y << 9u32) & 0x1000u32);
    offset = offset ^ ((y << 8u32) & 0x4000u32);
    offset = offset ^ ((x << 2u32) & 0x000cu32);
    offset = offset ^ ((x << 5u32) & 0x0380u32);
    offset = offset ^ ((x << 4u32) & 0x0400u32);
    offset = offset ^ ((x << 6u32) & 0x0800u32);
    offset = offset ^ ((x << 9u32) & 0xa000u32);
    proof {
        lemma_tiled_offset_bounds(x, y);
    }
    offset
}

/// The swizzled offset lies inside its 64 KiB block and on a four-byte boundary: a texel is never
/// read across an element.
pub proof fn lemma_tiled_offset_bounds(x: u32, y: u32)
    ensures
        spec_tiled_offset(x, y) < 0x10000,
        spec_tiled_offset(x, y) % 4 == 0,
        spec_tiled_offset(x, y) == spec_tiled_offset(x % 128, y % 128),
{
    assert(spec_tiled_offset(x, y) < 0x10000) by (bit_vector);
    assert(spec_tiled_offset(x, y) & 3u32 == 0) by (bit_vector);
    assert(spec_tiled_offset(x, y) & 3u32 == spec_tiled_offset(x, y) % 4) by (bit_vector);
    assert(spec_tiled_offset(x, y) == spec_tiled_offset(x & 127u32, y & 127u32)) by (bit_vector);
    assert(x & 127u32 == x % 128) by (bit_vector);
    assert(y & 127u32 == y % 128) by (bit_vector);
}

/// **The swizzle is a bijection over a 128x128 block**: no two texels of one block share a byte,
/// so detiling loses nothing.
pub proof fn lemma_tiled_offset_injective(x1: u32, y1: u32, x2: u32, y2: u32)
    requires
        x1 < 128,
        y1 < 128,
        x2 < 128,
        y2 < 128,
        spec_tiled_offset(x1, y1) == spec_tiled_offset(x2, y2),
    ensures
        x1 == x2,
        y1 == y2,
{
    assert(x1 == x2 && y1 == y2) by (bit_vector)
        requires
            x1 < 128,
            y1 < 128,
            x2 < 128,
            y2 < 128,
            spec_tiled_offset(x1, y1) == spec_tiled_offset(x2, y2),
    ;
}

/// Bytes in one `64KB_R_X` block.
pub const BLOCK_BYTES: usize = 65536;

/// Words in one 64 KiB block.
pub const BLOCK_WORDS: usize = 16384;

/// The widest surface the single-block swizzle covers, per dimension, at 32 bpp.
pub const SINGLE_BLOCK_EXTENT: u32 = 128;

/// How many 128-texel blocks cover `n` texels.
pub open spec fn blocks_across(n: u32) -> nat {
    ((n as nat + 127) / 128) as nat
}

/// The word a whole-surface texel sits at: blocks run row-major, `blocks_across(width)` to a row,
/// and inside a block the swizzle places it.
pub open spec fn surface_word(x: u32, y: u32, width: u32) -> nat {
    ((y / 128) as nat * blocks_across(width) + (x / 128) as nat) * 16384 + (spec_tiled_offset(
        x % 128,
        y % 128,
    ) / 4) as nat
}

/// Words a whole surface occupies: every block it touches, whole.
pub open spec fn spec_surface_words(width: u32, height: u32) -> nat {
    blocks_across(width) * blocks_across(height) * 16384
}

fn block_count(n: u32) -> (r: usize)
    ensures
        r == blocks_across(n),
{
    ((n as u64 + 127) / 128) as usize
}

/// The byte offset of texel `(x, y)` in a whole 32-bpp `64KB_R_X` surface `width` texels wide:
/// blocks run row-major, and inside a block the swizzle is the single-block one, unrotated.
pub fn tiled_byte_offset_64kb_rx_bpp4_surface(x: u32, y: u32, width: u32) -> (r: usize)
    requires
        4 * surface_word(x, y, width) <= usize::MAX,
    ensures
        r == 4 * surface_word(x, y, width),
{
    let blocks_per_row = block_count(width);
    proof {
        lemma_tiled_offset_bounds(x % 128, y % 128);
        assert((y / 128) as nat * blocks_across(width) <= (y / 128) as nat * blocks_across(width)
            + (x / 128) as nat);
    }
    let row = (y / SINGLE_BLOCK_EXTENT) as usize;
    proof {
        vstd::arithmetic::mul::lemma_mul_inequality(0, (x / 128) as int + 0, 16384);
        assert(((y / 128) as nat * blocks_across(width) + (x / 128) as nat) * 16384 <= surface_word(x, y, width));
        assert(row * blocks_per_row <= usize::MAX) by (nonlinear_arith)
            requires
                ((row as nat * blocks_per_row as nat) + (x / 128) as nat) * 16384 <= usize::MAX,
        ;
    }
    let block = row * blocks_per_row + (x / SINGLE_BLOCK_EXTENT) as usize;
    let inner = tiled_byte_offset_64kb_rx_bpp4(x % SINGLE_BLOCK_EXTENT, y % SINGLE_BLOCK_EXTENT) as usize;
    proof {
        assert(block * 65536 + inner == 4 * surface_word(x, y, width)) by (nonlinear_arith)
            requires
                block == (y / 128) as nat * blocks_across(width) + (x / 128) as nat,
                inner == spec_tiled_offset(x % 128, y % 128),
                inner % 4 == 0,
                surface_word(x, y, width) == block * 16384 + inner / 4,
        ;
    }
    block * BLOCK_BYTES + inner
}

/// Words a whole 32-bpp `64KB_R_X` surface occupies: every block it touches, whole.
pub fn surface_words_64kb_rx_bpp4(width: u32, height: u32) -> (r: usize)
    requires
        spec_surface_words(width, height) <= usize::MAX,
    ensures
        r == spec_surface_words(width, height),
{
    let across = block_count(width);
    let down = block_count(height);
    proof {
        assert(across * down <= usize::MAX) by (nonlinear_arith)
            requires
                across * down * 16384 <= usize::MAX,
        ;
    }
    across * down * BLOCK_WORDS
}

/// A texel of a `width` by `height` surface lies inside the words the surface occupies.
pub proof fn lemma_surface_word_in_range(x: u32, y: u32, width: u32, height: u32)
    requires
        x < width,
        y < height,
    ensures
        surface_word(x, y, width) < spec_surface_words(width, height),
{
    let bx = (x / 128) as nat;
    let by = (y / 128) as nat;
    let bw = blocks_across(width);
    let bh = blocks_across(height);
    lemma_tiled_offset_bounds(x % 128, y % 128);
    assert(bx < bw);
    assert(by < bh);
    let inner = (spec_tiled_offset(x % 128, y % 128) / 4) as nat;
    assert(inner < 16384);
    assert((by * bw + bx) * 16384 + inner < bw * bh * 16384) by (nonlinear_arith)
        requires
            bx < bw,
            by < bh,
            inner < 16384,
    ;
}

/// **Two texels of one surface never share a word**: the whole-surface layout is one-to-one, so a
/// tiled image holds every texel of the linear one.
pub proof fn lemma_surface_word_injective(x1: u32, y1: u32, x2: u32, y2: u32, width: u32)
    requires
        x1 < width,
        x2 < width,
        surface_word(x1, y1, width) == surface_word(x2, y2, width),
    ensures
        x1 == x2,
        y1 == y2,
{
    let bw = blocks_across(width);
    lemma_tiled_offset_bounds(x1 % 128, y1 % 128);
    lemma_tiled_offset_bounds(x2 % 128, y2 % 128);
    let b1 = (y1 / 128) as nat * bw + (x1 / 128) as nat;
    let b2 = (y2 / 128) as nat * bw + (x2 / 128) as nat;
    let i1 = (spec_tiled_offset(x1 % 128, y1 % 128) / 4) as nat;
    let i2 = (spec_tiled_offset(x2 % 128, y2 % 128) / 4) as nat;
    assert(b1 == b2 && i1 == i2) by (nonlinear_arith)
        requires
            b1 * 16384 + i1 == b2 * 16384 + i2,
            i1 < 16384,
            i2 < 16384,
    ;
    assert(((x1 / 128) as nat) < bw);
    assert(((x2 / 128) as nat) < bw);
    assert((y1 / 128) as nat == (y2 / 128) as nat && (x1 / 128) as nat == (x2 / 128) as nat) by (
    nonlinear_arith)
        requires
            (y1 / 128) as nat * bw + (x1 / 128) as nat == (y2 / 128) as nat * bw + (x2 / 128) as nat,
            ((x1 / 128) as nat) < bw,
            ((x2 / 128) as nat) < bw,
    ;
    assert(spec_tiled_offset(x1 % 128, y1 % 128) == spec_tiled_offset(x2 % 128, y2 % 128));
    lemma_tiled_offset_injective(x1 % 128, y1 % 128, x2 % 128, y2 % 128);
}


/// The word a texel sits at, for a surface whose words are all addressable.
fn texel_word(x: u32, y: u32, width: u32) -> (r: usize)
    requires
        surface_word(x, y, width) <= usize::MAX,
    ensures
        r == surface_word(x, y, width),
{
    let blocks_per_row = block_count(width);
    proof {
        lemma_tiled_offset_bounds(x % 128, y % 128);
    }
    let row = (y / SINGLE_BLOCK_EXTENT) as usize;
    let column = (x / SINGLE_BLOCK_EXTENT) as usize;
    proof {
        assert(row * blocks_per_row + column <= usize::MAX) by (nonlinear_arith)
            requires
                (row * blocks_per_row + column) * 16384 <= usize::MAX,
        ;
        assert((row * blocks_per_row + column) * 16384 <= usize::MAX) by (nonlinear_arith)
            requires
                (row * blocks_per_row + column) * 16384 <= surface_word(x, y, width),
                surface_word(x, y, width) <= usize::MAX,
        ;
    }
    let block = row * blocks_per_row + column;
    let inner = (tiled_byte_offset_64kb_rx_bpp4(x % SINGLE_BLOCK_EXTENT, y % SINGLE_BLOCK_EXTENT) / 4) as usize;
    block * BLOCK_WORDS + inner
}

/// Whether word `i` of a surface's tiled words holds one of its texels.
pub open spec fn is_surface_word(i: int, width: u32, height: u32) -> bool {
    exists|x: u32, y: u32| x < width && y < height && #[trigger] surface_word(x, y, width) == i
}

/// The linear, row-major image a whole surface's tiled words hold.
pub open spec fn spec_detile_surface(tiled: Seq<u32>, width: u32, height: u32) -> Seq<u32> {
    Seq::new(
        (width * height) as nat,
        |i: int|
            tiled[surface_word((i % width as int) as u32, (i / width as int) as u32, width) as int],
    )
}

proof fn lemma_row_major_index(x: u32, y: u32, width: u32)
    requires
        x < width,
    ensures
        ((y * width + x) % width as int) == x,
        ((y * width + x) / width as int) == y,
{
    vstd::arithmetic::div_mod::lemma_fundamental_div_mod_converse(
        (y * width + x) as int,
        width as int,
        y as int,
        x as int,
    );
}

proof fn lemma_row_major_bound(x: u32, y: u32, width: u32, height: u32)
    requires
        x < width,
        y < height,
    ensures
        y * width + x < width * height,
{
    assert(y * width + x < width * height) by (nonlinear_arith)
        requires
            x < width,
            y < height,
    ;
}

/// Why a surface could not be detiled, stated rather than papered over.
#[derive(Debug, Clone, Copy, PartialEq, Eq, Structural)]
pub enum DetileError {
    /// The surface is larger than one 64 KiB block in some dimension, so it needs block-level
    /// tiling and a `pipeBankXor` that are not modelled.
    SurfaceExceedsBlock {
        /// Width in texels, as asked.
        width: u32,
        /// Height in texels, as asked.
        height: u32,
    },
    /// The tiled words given do not reach the highest offset the swizzle addresses.
    TiledDataTooShort {
        /// Words the swizzle needs to reach every texel.
        needed_words: usize,
        /// Words actually supplied.
        got_words: usize,
    },
    /// The surface's format is not one the 32-bpp swizzle applies to.
    UnsupportedFormat {
        /// The GFX10 `IMG_FORMAT` code the descriptor carried.
        format: u32,
    },
}

/// [`detile_surface_64kb_rx_bpp4`], passing each texel through `map` on the way - a component
/// swap, done in the same pass - and assuming `tiled` covers the surface.
pub fn detile_surface_64kb_rx_bpp4_mapped<F: Fn(u32) -> u32>(
    tiled: &[u32],
    width: u32,
    height: u32,
    map: F,
) -> (linear: Vec<u32>)
    requires
        spec_surface_words(width, height) <= tiled@.len(),
        width * height <= usize::MAX,
        forall|w: u32| call_requires(map, (w,)),
    ensures
        linear@.len() == width * height,
        forall|x: u32, y: u32|
            x < width && y < height ==> call_ensures(
                map,
                (tiled@[surface_word(x, y, width) as int],),
                #[trigger] linear@[y * width + x],
            ),
{
    let mut linear: Vec<u32> = Vec::new();
    let n = tiled.len();
    let mut y: u32 = 0;
    while y < height
        invariant
            y <= height,
            n == tiled@.len(),
            spec_surface_words(width, height) <= tiled@.len(),
            width * height <= usize::MAX,
            forall|w: u32| call_requires(map, (w,)),
            linear@.len() == y * width,
            forall|x: u32, yy: u32|
                x < width && yy < y ==> call_ensures(
                    map,
                    (tiled@[surface_word(x, yy, width) as int],),
                    #[trigger] linear@[yy * width + x],
                ),
        decreases height - y,
    {
        let mut x: u32 = 0;
        while x < width
            invariant
                x <= width,
                y < height,
                n == tiled@.len(),
                spec_surface_words(width, height) <= tiled@.len(),
                width * height <= usize::MAX,
                forall|w: u32| call_requires(map, (w,)),
                linear@.len() == y * width + x,
                forall|xx: u32, yy: u32|
                    (yy < y && xx < width) || (yy == y && xx < x) ==> call_ensures(
                        map,
                        (tiled@[surface_word(xx, yy, width) as int],),
                        #[trigger] linear@[yy * width + xx],
                    ),
            decreases width - x,
        {
            proof {
                lemma_surface_word_in_range(x, y, width, height);
                lemma_row_major_bound(x, y, width, height);
            }
            let word = texel_word(x, y, width);
            let texel = map(tiled[word]);
            let ghost before = linear@;
            linear.push(texel);
            proof {
                assert forall|xx: u32, yy: u32|
                    (yy < y && xx < width) || (yy == y && xx < x + 1) implies call_ensures(
                    map,
                    (tiled@[surface_word(xx, yy, width) as int],),
                    #[trigger] linear@[yy * width + xx],
                ) by {
                    if yy == y && xx == x {
                    } else {
                        assert(yy * width + xx < y * width + x) by (nonlinear_arith)
                            requires
                                (yy < y && xx < width) || (yy == y && xx < x),
                        ;
                        assert(linear@[yy * width + xx] == before[yy * width + xx]);
                    }
                }
            }
            x = x + 1;
        }
        proof {
            assert(linear@.len() == (y + 1) * width) by (nonlinear_arith)
                requires
                    linear@.len() == y * width + width,
            ;
        }
        y = y + 1;
    }
    proof {
        assert(linear@.len() == width * height) by (nonlinear_arith)
            requires
                linear@.len() == y * width,
                y == height,
        ;
    }
    linear
}

/// A texel passed through unchanged.
fn identity(w: u32) -> (r: u32)
    ensures
        r == w,
{
    w
}

/// Detiles a whole 32-bpp `64KB_R_X` surface of any size into a linear, row-major image.
///
/// # Errors
///
/// [`DetileError::TiledDataTooShort`] when `tiled` does not cover every block the surface touches.
pub fn detile_surface_64kb_rx_bpp4(tiled: &[u32], width: u32, height: u32) -> (r: Result<
    Vec<u32>,
    DetileError,
>)
    requires
        spec_surface_words(width, height) <= usize::MAX,
        width * height <= usize::MAX,
    ensures
        tiled@.len() < spec_surface_words(width, height) ==> r == Err::<Vec<u32>, DetileError>(
            DetileError::TiledDataTooShort {
                needed_words: spec_surface_words(width, height) as usize,
                got_words: tiled@.len() as usize,
            },
        ),
        tiled@.len() >= spec_surface_words(width, height) ==> r is Ok && r->Ok_0@
            == spec_detile_surface(tiled@, width, height),
{
    let needed_words = surface_words_64kb_rx_bpp4(width, height);
    if tiled.len() < needed_words {
        return Err(DetileError::TiledDataTooShort { needed_words, got_words: tiled.len() });
    }
    let linear = detile_surface_64kb_rx_bpp4_mapped(
        tiled,
        width,
        height,
        identity,
    );
    proof {
        assert forall|i: int| 0 <= i < linear@.len() implies linear@[i] == spec_detile_surface(
            tiled@,
            width,
            height,
        )[i] by {
            assert(width > 0) by (nonlinear_arith)
                requires
                    0 <= i < width * height,
            ;
            let q = i / width as int;
            let rm = i % width as int;
            vstd::arithmetic::div_mod::lemma_fundamental_div_mod(i, width as int);
            assert(0 <= q < height) by (nonlinear_arith)
                requires
                    i == width * q + rm,
                    0 <= rm < width,
                    0 <= i < width * height,
                    width > 0,
            ;
            let x = rm as u32;
            let y = q as u32;
            assert(i == y * width + x) by (nonlinear_arith)
                requires
                    i == width * q + rm,
                    x == rm,
                    y == q,
            ;
            assert(linear@[y * width + x] == tiled@[surface_word(x, y, width) as int]);
        }
        assert(linear@ =~= spec_detile_surface(tiled@, width, height));
    }
    Ok(linear)
}


/// Whether texel `(xx, yy)` comes before texel `(x, y)` in row-major order over a `width`-wide
/// surface.
pub open spec fn texel_before(xx: u32, yy: u32, x: u32, y: u32, width: u32) -> bool {
    (yy < y && xx < width) || (yy == y && xx < x)
}

/// What tiling answers for `tiled_len` tiled words and `linear_len` linear ones: too short when the
/// tiled words do not reach every texel the swizzle addresses or the linear image is not the
/// surface's size - naming the larger need and the smaller supply - otherwise done.
pub open spec fn tiling_answer(tiled_len: nat, linear_len: nat, width: u32, height: u32) -> Result<(), DetileError> {
    if tiled_len < spec_surface_words(width, height) || linear_len != width * height {
        Err(
            DetileError::TiledDataTooShort {
                needed_words: (if spec_surface_words(width, height) >= width * height {
                    spec_surface_words(width, height)
                } else {
                    (width * height) as nat
                }) as usize,
                got_words: (if tiled_len <= linear_len {
                    tiled_len
                } else {
                    linear_len
                }) as usize,
            },
        )
    } else {
        Ok(())
    }
}

/// [`tile_surface_64kb_rx_bpp4`], passing each texel through `map` on the way - a component swap,
/// done in the same pass.
///
/// # Errors
///
/// [`DetileError::TiledDataTooShort`] when `tiled` does not cover every block the surface touches,
/// and the same when `linear` is not exactly `width * height` texels; `tiled` is then untouched.
pub fn tile_surface_64kb_rx_bpp4_mapped<F: Fn(u32) -> u32>(
    linear: &[u32],
    width: u32,
    height: u32,
    tiled: &mut [u32],
    map: F,
) -> (r: Result<(), DetileError>)
    requires
        spec_surface_words(width, height) <= usize::MAX,
        width * height <= usize::MAX,
        forall|w: u32| call_requires(map, (w,)),
    ensures
        final(tiled)@.len() == old(tiled)@.len(),
        (old(tiled)@.len() < spec_surface_words(width, height) || linear@.len() != width * height)
            ==> r == Err::<(), DetileError>(
            DetileError::TiledDataTooShort {
                needed_words: (if spec_surface_words(width, height) >= width * height {
                    spec_surface_words(width, height)
                } else {
                    (width * height) as nat
                }) as usize,
                got_words: (if old(tiled)@.len() <= linear@.len() {
                    old(tiled)@.len()
                } else {
                    linear@.len()
                }) as usize,
            },
        ) && final(tiled)@ == old(tiled)@,
        (old(tiled)@.len() >= spec_surface_words(width, height) && linear@.len() == width * height)
            ==> r is Ok,
        r == tiling_answer(old(tiled)@.len(), linear@.len(), width, height),
        r is Ok ==> forall|x: u32, y: u32|
            x < width && y < height ==> call_ensures(
                map,
                (linear@[y * width + x],),
                #[trigger] final(tiled)@[surface_word(x, y, width) as int],
            ),
        r is Ok ==> forall|i: int|
            0 <= i < old(tiled)@.len() && !is_surface_word(i, width, height) ==> final(tiled)@[i]
                == old(tiled)@[i],
{
    let needed_words = surface_words_64kb_rx_bpp4(width, height);
    let texels = width as usize * height as usize;
    if tiled.len() < needed_words || linear.len() != texels {
        let needed = if needed_words >= texels {
            needed_words
        } else {
            texels
        };
        let got = if tiled.len() <= linear.len() {
            tiled.len()
        } else {
            linear.len()
        };
        return Err(DetileError::TiledDataTooShort { needed_words: needed, got_words: got });
    }
    let n = tiled.len();
    let ghost tiled_before = tiled@;
    let mut y: u32 = 0;
    while y < height
        invariant
            y <= height,
            n == tiled@.len(),
            n == tiled_before.len(),
            spec_surface_words(width, height) <= n,
            linear@.len() == width * height,
            width * height <= usize::MAX,
            forall|w: u32| call_requires(map, (w,)),
            forall|xx: u32, yy: u32|
                texel_before(xx, yy, 0, y, width) ==> call_ensures(
                    map,
                    (linear@[yy * width + xx],),
                    #[trigger] tiled@[surface_word(xx, yy, width) as int],
                ),
            forall|i: int|
                0 <= i < n && !(exists|xx: u32, yy: u32|
                    texel_before(xx, yy, 0, y, width) && #[trigger] surface_word(xx, yy, width)
                        == i) ==> tiled@[i] == tiled_before[i],
        decreases height - y,
    {
        let mut x: u32 = 0;
        while x < width
            invariant
                x <= width,
                y < height,
                n == tiled@.len(),
                n == tiled_before.len(),
                spec_surface_words(width, height) <= n,
                linear@.len() == width * height,
                width * height <= usize::MAX,
                forall|w: u32| call_requires(map, (w,)),
                forall|xx: u32, yy: u32|
                    texel_before(xx, yy, x, y, width) ==> call_ensures(
                        map,
                        (linear@[yy * width + xx],),
                        #[trigger] tiled@[surface_word(xx, yy, width) as int],
                    ),
                forall|i: int|
                    0 <= i < n && !(exists|xx: u32, yy: u32|
                        texel_before(xx, yy, x, y, width) && #[trigger] surface_word(xx, yy, width)
                            == i) ==> tiled@[i] == tiled_before[i],
            decreases width - x,
        {
            proof {
                lemma_surface_word_in_range(x, y, width, height);
                lemma_row_major_bound(x, y, width, height);
            }
            let word = texel_word(x, y, width);
            let texel = map(linear[(y as usize) * (width as usize) + x as usize]);
            let ghost before = tiled@;
            tiled[word] = texel;
            proof {
                assert forall|xx: u32, yy: u32|
                    texel_before(xx, yy, (x + 1) as u32, y, width) implies call_ensures(
                    map,
                    (linear@[yy * width + xx],),
                    #[trigger] tiled@[surface_word(xx, yy, width) as int],
                ) by {
                    if !(yy == y && xx == x) {
                        assert(texel_before(xx, yy, x, y, width));
                        lemma_surface_word_in_range(xx, yy, width, height);
                        if surface_word(xx, yy, width) == surface_word(x, y, width) {
                            lemma_surface_word_injective(xx, yy, x, y, width);
                        }
                        assert(tiled@[surface_word(xx, yy, width) as int]
                            == before[surface_word(xx, yy, width) as int]);
                    }
                }
                assert forall|i: int|
                    0 <= i < n && !(exists|xx: u32, yy: u32|
                        texel_before(xx, yy, (x + 1) as u32, y, width) && #[trigger] surface_word(
                            xx,
                            yy,
                            width,
                        ) == i) implies tiled@[i] == tiled_before[i] by {
                    assert(i != surface_word(x, y, width));
                    assert(!(exists|xx: u32, yy: u32|
                        texel_before(xx, yy, x, y, width) && #[trigger] surface_word(xx, yy, width)
                            == i)) by {
                        if exists|xx: u32, yy: u32|
                            texel_before(xx, yy, x, y, width) && #[trigger] surface_word(
                                xx,
                                yy,
                                width,
                            ) == i {
                            let (xx, yy) = choose|xx: u32, yy: u32|
                                texel_before(xx, yy, x, y, width) && #[trigger] surface_word(
                                    xx,
                                    yy,
                                    width,
                                ) == i;
                            assert(texel_before(xx, yy, (x + 1) as u32, y, width));
                        }
                    }
                }
            }
            x = x + 1;
        }
        proof {
            assert forall|xx: u32, yy: u32| #[trigger]
                texel_before(xx, yy, 0, (y + 1) as u32, width) <==> texel_before(xx, yy, width, y, width) by {
            }
        }
        y = y + 1;
    }
    proof {
        assert forall|i: int|
            0 <= i < tiled_before.len() && !is_surface_word(i, width, height) implies tiled@[i]
            == tiled_before[i] by {
            if exists|xx: u32, yy: u32|
                texel_before(xx, yy, 0, y, width) && #[trigger] surface_word(xx, yy, width) == i {
                let (xx, yy) = choose|xx: u32, yy: u32|
                    texel_before(xx, yy, 0, y, width) && #[trigger] surface_word(xx, yy, width)
                        == i;
                assert(xx < width && yy < height && surface_word(xx, yy, width) == i);
            }
        }
        assert forall|xx: u32, yy: u32| xx < width && yy < height implies call_ensures(
            map,
            (linear@[yy * width + xx],),
            #[trigger] tiled@[surface_word(xx, yy, width) as int],
        ) by {
            assert(texel_before(xx, yy, 0, y, width));
        }
    }
    Ok(())
}

/// Tiles a linear, row-major 32-bpp image into a whole `64KB_R_X` surface's words - the inverse of
/// [`detile_surface_64kb_rx_bpp4`], for writing a rendered frame back where the guest reads it.
/// Words the image does not cover (a partial edge block's padding) are left as they were.
///
/// # Errors
///
/// As [`tile_surface_64kb_rx_bpp4_mapped`].
pub fn tile_surface_64kb_rx_bpp4(linear: &[u32], width: u32, height: u32, tiled: &mut [u32]) -> (r:
    Result<(), DetileError>)
    requires
        spec_surface_words(width, height) <= usize::MAX,
        width * height <= usize::MAX,
    ensures
        final(tiled)@.len() == old(tiled)@.len(),
        (old(tiled)@.len() < spec_surface_words(width, height) || linear@.len() != width * height)
            ==> r == Err::<(), DetileError>(
            DetileError::TiledDataTooShort {
                needed_words: (if spec_surface_words(width, height) >= width * height {
                    spec_surface_words(width, height)
                } else {
                    (width * height) as nat
                }) as usize,
                got_words: (if old(tiled)@.len() <= linear@.len() {
                    old(tiled)@.len()
                } else {
                    linear@.len()
                }) as usize,
            },
        ) && final(tiled)@ == old(tiled)@,
        (old(tiled)@.len() >= spec_surface_words(width, height) && linear@.len() == width * height)
            ==> r is Ok,
        r == tiling_answer(old(tiled)@.len(), linear@.len(), width, height),
        r is Ok ==> forall|x: u32, y: u32|
            x < width && y < height ==> #[trigger] final(tiled)@[surface_word(x, y, width) as int]
                == linear@[y * width + x],
        r is Ok ==> forall|i: int|
            0 <= i < old(tiled)@.len() && !is_surface_word(i, width, height) ==> final(tiled)@[i]
                == old(tiled)@[i],
{
    tile_surface_64kb_rx_bpp4_mapped(linear, width, height, tiled, identity)
}

/// **Tiling then detiling returns the image**: whatever a surface's tiled words held before, once
/// every texel of a `width` by `height` image is placed at its word, detiling those words gives the
/// image back - the property writing a rendered frame back depends on.
pub proof fn lemma_tile_then_detile_round_trips(
    linear: Seq<u32>,
    tiled: Seq<u32>,
    width: u32,
    height: u32,
)
    requires
        linear.len() == width * height,
        spec_surface_words(width, height) <= tiled.len(),
        forall|x: u32, y: u32|
            x < width && y < height ==> #[trigger] tiled[surface_word(x, y, width) as int]
                == linear[y * width + x],
    ensures
        spec_detile_surface(tiled, width, height) == linear,
{
    assert forall|i: int| 0 <= i < linear.len() implies spec_detile_surface(tiled, width, height)[i]
        == linear[i] by {
        assert(width > 0) by (nonlinear_arith)
            requires
                0 <= i < width * height,
        ;
        let q = i / width as int;
        let rm = i % width as int;
        vstd::arithmetic::div_mod::lemma_fundamental_div_mod(i, width as int);
        assert(0 <= q < height) by (nonlinear_arith)
            requires
                i == width * q + rm,
                0 <= rm < width,
                0 <= i < width * height,
                width > 0,
        ;
        let x = rm as u32;
        let y = q as u32;
        assert(i == y * width + x) by (nonlinear_arith)
            requires
                i == width * q + rm,
                x == rm,
                y == q,
        ;
        assert(tiled[surface_word(x, y, width) as int] == linear[y * width + x]);
    }
    assert(spec_detile_surface(tiled, width, height) =~= linear);
}


/// The words the first `x` texels of row `y` of a single block reach: one past the highest.
pub open spec fn row_needed(x: nat, y: u32) -> nat
    decreases x,
{
    if x == 0 {
        0
    } else {
        let before = row_needed((x - 1) as nat, y);
        let here = (spec_tiled_offset((x - 1) as u32, y) / 4) as nat + 1;
        if here > before {
            here
        } else {
            before
        }
    }
}

/// The words the first `y` rows, `width` texels each, of a single block reach: one past the
/// highest swizzled word.
pub open spec fn block_needed(width: u32, y: nat) -> nat
    decreases y,
{
    if y == 0 {
        0
    } else {
        let before = block_needed(width, (y - 1) as nat);
        let here = row_needed(width as nat, (y - 1) as u32);
        if here > before {
            here
        } else {
            before
        }
    }
}

proof fn lemma_row_needed_covers(x: nat, y: u32, xx: u32)
    requires
        xx < x,
    ensures
        (spec_tiled_offset(xx, y) / 4) as nat + 1 <= row_needed(x, y),
    decreases x,
{
    if xx < x - 1 {
        lemma_row_needed_covers((x - 1) as nat, y, xx);
    }
}

proof fn lemma_block_needed_covers(width: u32, y: nat, yy: u32)
    requires
        yy < y,
    ensures
        row_needed(width as nat, yy) <= block_needed(width, y),
    decreases y,
{
    if yy < y - 1 {
        lemma_block_needed_covers(width, (y - 1) as nat, yy);
    }
}

proof fn lemma_row_needed_bound(x: nat, y: u32)
    ensures
        row_needed(x, y) <= 16384,
    decreases x,
{
    if x > 0 {
        lemma_row_needed_bound((x - 1) as nat, y);
        lemma_tiled_offset_bounds((x - 1) as u32, y);
    }
}

proof fn lemma_block_needed_bound(width: u32, y: nat)
    ensures
        block_needed(width, y) <= 16384,
    decreases y,
{
    if y > 0 {
        lemma_block_needed_bound(width, (y - 1) as nat);
        lemma_row_needed_bound(width as nat, (y - 1) as u32);
    }
}

/// The linear image a single block's swizzled words hold.
pub open spec fn spec_detile_block(tiled: Seq<u32>, width: u32, height: u32) -> Seq<u32> {
    Seq::new(
        (width * height) as nat,
        |i: int|
            tiled[(spec_tiled_offset((i % width as int) as u32, (i / width as int) as u32) / 4) as int],
    )
}

/// Detile a 32-bpp `64KB_R_X` surface of at most one block into a linear, row-major image of
/// `width * height` texels: the texel at `y * width + x` is the word the swizzle placed at
/// [`tiled_byte_offset_64kb_rx_bpp4`]`(x, y)`.
///
/// # Errors
///
/// [`DetileError::SurfaceExceedsBlock`] if either dimension is over 128;
/// [`DetileError::TiledDataTooShort`] if `tiled` does not reach the highest swizzled word this
/// surface addresses.
pub fn detile_64kb_rx_bpp4(tiled: &[u32], width: u32, height: u32) -> (r: Result<
    Vec<u32>,
    DetileError,
>)
    ensures
        (width > 128 || height > 128) ==> r == Err::<Vec<u32>, DetileError>(
            DetileError::SurfaceExceedsBlock { width, height },
        ),
        (width <= 128 && height <= 128 && tiled@.len() < block_needed(width, height as nat)) ==> r
            == Err::<Vec<u32>, DetileError>(
            DetileError::TiledDataTooShort {
                needed_words: block_needed(width, height as nat) as usize,
                got_words: tiled@.len() as usize,
            },
        ),
        (width <= 128 && height <= 128 && tiled@.len() >= block_needed(width, height as nat)) ==> r
            is Ok && r->Ok_0@ == spec_detile_block(tiled@, width, height),
{
    if width > SINGLE_BLOCK_EXTENT || height > SINGLE_BLOCK_EXTENT {
        return Err(DetileError::SurfaceExceedsBlock { width, height });
    }
    let mut needed_words: usize = 0;
    let mut y: u32 = 0;
    while y < height
        invariant
            y <= height <= 128,
            width <= 128,
            needed_words == block_needed(width, y as nat),
        decreases height - y,
    {
        proof {
            lemma_block_needed_bound(width, y as nat);
        }
        let mut row: usize = 0;
        let mut x: u32 = 0;
        while x < width
            invariant
                x <= width <= 128,
                y < height <= 128,
                row == row_needed(x as nat, y),
            decreases width - x,
        {
            proof {
                lemma_row_needed_bound(x as nat, y);
            }
            let word = (tiled_byte_offset_64kb_rx_bpp4(x, y) / 4) as usize;
            if word + 1 > row {
                row = word + 1;
            }
            x = x + 1;
        }
        if row > needed_words {
            needed_words = row;
        }
        y = y + 1;
    }
    if tiled.len() < needed_words {
        return Err(DetileError::TiledDataTooShort { needed_words, got_words: tiled.len() });
    }
    let mut linear: Vec<u32> = Vec::new();
    let mut y: u32 = 0;
    while y < height
        invariant
            y <= height <= 128,
            width <= 128,
            tiled@.len() >= block_needed(width, height as nat),
            linear@.len() == y * width,
            forall|i: int|
                0 <= i < linear@.len() ==> #[trigger] linear@[i] == spec_detile_block(
                    tiled@,
                    width,
                    height,
                )[i],
        decreases height - y,
    {
        let mut x: u32 = 0;
        while x < width
            invariant
                x <= width <= 128,
                y < height <= 128,
                tiled@.len() >= block_needed(width, height as nat),
                linear@.len() == y * width + x,
                forall|i: int|
                    0 <= i < linear@.len() ==> #[trigger] linear@[i] == spec_detile_block(
                        tiled@,
                        width,
                        height,
                    )[i],
            decreases width - x,
        {
            let word = (tiled_byte_offset_64kb_rx_bpp4(x, y) / 4) as usize;
            proof {
                lemma_row_needed_covers(width as nat, y, x);
                lemma_block_needed_covers(width, height as nat, y);
                lemma_row_major_index(x, y, width);
                lemma_row_major_bound(x, y, width, height);
            }
            linear.push(tiled[word]);
            x = x + 1;
        }
        proof {
            assert(linear@.len() == (y + 1) * width) by (nonlinear_arith)
                requires
                    linear@.len() == y * width + width,
            ;
        }
        y = y + 1;
    }
    proof {
        assert(linear@.len() == width * height) by (nonlinear_arith)
            requires
                linear@.len() == y * width,
                y == height,
        ;
        assert(linear@ =~= spec_detile_block(tiled@, width, height));
    }
    Ok(linear)
}

/// Bytes per texel for a GFX10 `IMG_FORMAT` code, or `None` for one whose element size this does
/// not model: `1..=6` and `128` one byte, `7..=19` and `129` two, `20..=61` and `130` four,
/// `62..=71` eight, `72..=74` twelve, `75..=77` sixteen.
pub open spec fn spec_element_bytes(format: u32) -> Option<u32> {
    if (1 <= format <= 6) || format == 128 {
        Some(1)
    } else if (7 <= format <= 19) || format == 129 {
        Some(2)
    } else if (20 <= format <= 61) || format == 130 {
        Some(4)
    } else if 62 <= format <= 71 {
        Some(8)
    } else if 72 <= format <= 74 {
        Some(12)
    } else if 75 <= format <= 77 {
        Some(16)
    } else {
        None
    }
}

/// Bytes per texel for a GFX10 `IMG_FORMAT` code, or `None` for one whose element size this does
/// not model - the packed 16-bit, depth, subsampled, FMASK and block-compressed formats are refused
/// rather than assigned a size from their names.
pub fn element_bytes(format: u32) -> (r: Option<u32>)
    ensures
        r == spec_element_bytes(format),
{
    if (1 <= format && format <= 6) || format == 128 {
        Some(1)
    } else if (7 <= format && format <= 19) || format == 129 {
        Some(2)
    } else if (20 <= format && format <= 61) || format == 130 {
        Some(4)
    } else if 62 <= format && format <= 71 {
        Some(8)
    } else if 72 <= format && format <= 74 {
        Some(12)
    } else if 75 <= format && format <= 77 {
        Some(16)
    } else {
        None
    }
}

/// The element size the measured `64KB_R_X` swizzle is defined for: four bytes, 32 bpp.
pub const MEASURED_ELEMENT_BYTES: u32 = 4;


/// What detiling `width` by `height` texels out of `tiled` gives: the refusal
/// [`detile_64kb_rx_bpp4`] makes, or the linear image.
pub open spec fn detile_outcome(tiled: Seq<u32>, width: u32, height: u32) -> Result<Seq<u32>, DetileError> {
    if width > 128 || height > 128 {
        Err(DetileError::SurfaceExceedsBlock { width, height })
    } else if tiled.len() < block_needed(width, height as nat) {
        Err(
            DetileError::TiledDataTooShort {
                needed_words: block_needed(width, height as nat) as usize,
                got_words: tiled.len() as usize,
            },
        )
    } else {
        Ok(spec_detile_block(tiled, width, height))
    }
}

/// Whether a detile's result is the outcome expected of it.
pub open spec fn detiled_as(r: Result<Vec<u32>, DetileError>, expected: Result<Seq<u32>, DetileError>) -> bool {
    match r {
        Ok(pixels) => expected == Ok::<Seq<u32>, DetileError>(pixels@),
        Err(e) => expected == Err::<Seq<u32>, DetileError>(e),
    }
}

/// Whether a format's texels are the four bytes the measured swizzle is defined for.
pub open spec fn is_measured_format(format: u32) -> bool {
    spec_element_bytes(format) == Some(MEASURED_ELEMENT_BYTES)
}

/// The element sizes of the GFX10 `IMG_FORMAT` table, which lays its codes out in ascending element
/// size: `1..=6` one byte (a single 8-bit channel), `7..=19` two (a 16-bit channel or `8_8`),
/// `20..=61` four (`32`, `16_16`, `10_11_11`, `11_11_10`, `10_10_10_2`, `2_10_10_10`, `8_8_8_8`),
/// `62..=71` eight, `72..=74` twelve, `75..=77` sixteen, and the sRGB codes `128`, `129`, `130` one,
/// two and four; no other code is given a size.
pub proof fn lemma_element_sizes_follow_the_format_table(format: u32)
    ensures
        (1 <= format <= 6 || format == 128) ==> spec_element_bytes(format) == Some(1u32),
        (7 <= format <= 19 || format == 129) ==> spec_element_bytes(format) == Some(2u32),
        (20 <= format <= 61 || format == 130) ==> spec_element_bytes(format) == Some(4u32),
        (62 <= format <= 71) ==> spec_element_bytes(format) == Some(8u32),
        (72 <= format <= 74) ==> spec_element_bytes(format) == Some(12u32),
        (75 <= format <= 77) ==> spec_element_bytes(format) == Some(16u32),
        !(1 <= format <= 77 || 128 <= format <= 130) ==> spec_element_bytes(format) is None,
{
}

/// Every four-byte format - `20..=61` and `130` - is one the measured 32-bpp swizzle detiles: an
/// image or texture of any of them is detiled, not refused, and every other format is refused.
pub proof fn lemma_four_byte_formats_are_detiled(descriptor: ImageDescriptor, guest: Seq<u32>, window_base: u64)
    ensures
        is_measured_format(descriptor.format) <==> (20 <= descriptor.format <= 61 || descriptor.format == 130),
        (20 <= descriptor.format <= 61 || descriptor.format == 130) ==> texture_outcome(descriptor, guest, window_base)
            == surface_outcome(
            descriptor.base,
            descriptor.width,
            descriptor.height,
            descriptor.tiling,
            guest,
            window_base,
        ),
        !(20 <= descriptor.format <= 61 || descriptor.format == 130) ==> texture_outcome(
            descriptor,
            guest,
            window_base,
        ) == Err::<(u32, u32, Seq<u32>), SurfaceError>(
            SurfaceError::Detile(DetileError::UnsupportedFormat { format: descriptor.format }),
        ),
{
}

/// Detiles the image a descriptor names out of its own words: the extent comes from the
/// descriptor, and a format that is not 32 bpp is refused, since the swizzle is the 32-bpp one.
/// The tiling mode is the caller's to confirm.
pub fn detile_image(descriptor: &ImageDescriptor, tiled: &[u32]) -> (r: Result<Vec<u32>, DetileError>)
    ensures
        detiled_as(
            r,
            if is_measured_format(descriptor.format) {
                detile_outcome(tiled@, descriptor.width, descriptor.height)
            } else {
                Err(DetileError::UnsupportedFormat { format: descriptor.format })
            },
        ),
{
    match element_bytes(descriptor.format) {
        Some(bytes) => {
            if bytes != MEASURED_ELEMENT_BYTES {
                return Err(DetileError::UnsupportedFormat { format: descriptor.format });
            }
        },
        None => {
            return Err(DetileError::UnsupportedFormat { format: descriptor.format });
        },
    }
    detile_64kb_rx_bpp4(tiled, descriptor.width, descriptor.height)
}

/// A detiled surface - a colour target or a texture - its pixels laid out linearly, row-major.
#[derive(Debug, Clone, PartialEq, Eq)]
pub struct Surface {
    /// Width in pixels.
    pub width: u32,
    /// Height in pixels.
    pub height: u32,
    /// `width * height` pixels, row-major.
    pub pixels: Vec<u32>,
}

/// Why a surface could not be detiled out of a guest-memory window.
#[derive(Debug, Clone, PartialEq, Eq, Structural)]
pub enum SurfaceError {
    /// The base or extent was not set - a colour target whose stream wrote neither.
    Incomplete,
    /// The tiling mode is one not detiled here - linear, or a mode not modelled.
    UnsupportedTiling(SwizzleMode),
    /// The surface's base is not inside the guest-memory window given.
    OutsideWindow {
        /// The surface's base address.
        base: u64,
        /// The address the guest slice's first word sits at.
        window_base: u64,
        /// How many words the window holds.
        window_words: usize,
    },
    /// The detile refused: the surface is larger than one block, or the window is too short for it.
    Detile(DetileError),
}

/// What detiling a surface at `base` out of a window at `window_base` gives: its extent and
/// pixels, or the refusal.
pub open spec fn surface_outcome(
    base: u64,
    width: u32,
    height: u32,
    tiling: SwizzleMode,
    guest: Seq<u32>,
    window_base: u64,
) -> Result<(u32, u32, Seq<u32>), SurfaceError> {
    if tiling != SwizzleMode::Tiled64KbRX {
        Err(SurfaceError::UnsupportedTiling(tiling))
    } else if base < window_base || (base - window_base) / 4 > guest.len() {
        Err(
            SurfaceError::OutsideWindow {
                base,
                window_base,
                window_words: guest.len() as usize,
            },
        )
    } else {
        match detile_outcome(guest.skip((base - window_base) / 4), width, height) {
            Ok(pixels) => Ok((width, height, pixels)),
            Err(e) => Err(SurfaceError::Detile(e)),
        }
    }
}

/// Whether a surface result is the outcome expected of it.
pub open spec fn surfaced_as(r: Result<Surface, SurfaceError>, expected: Result<(u32, u32, Seq<u32>), SurfaceError>) -> bool {
    match r {
        Ok(surface) => expected == Ok::<(u32, u32, Seq<u32>), SurfaceError>(
            (surface.width, surface.height, surface.pixels@),
        ),
        Err(e) => expected == Err::<(u32, u32, Seq<u32>), SurfaceError>(e),
    }
}

/// Detiles a surface out of a guest-memory window, given its base, extent and tiling mode: the
/// base is mapped into `guest`, whose first word sits at `window_base`, and the `64KB_R_X` swizzle
/// undone. Any other mode, linear included, is a refusal rather than a wrong swizzle.
fn detile_surface(
    base: u64,
    width: u32,
    height: u32,
    tiling: SwizzleMode,
    guest: &[u32],
    window_base: u64,
) -> (r: Result<Surface, SurfaceError>)
    ensures
        surfaced_as(r, surface_outcome(base, width, height, tiling, guest@, window_base)),
{
    match tiling {
        SwizzleMode::Tiled64KbRX => {},
        _ => {
            return Err(SurfaceError::UnsupportedTiling(tiling));
        },
    }
    let n = guest.len();
    if base < window_base {
        return Err(SurfaceError::OutsideWindow { base, window_base, window_words: n });
    }
    let offset_words = (base - window_base) / 4;
    if offset_words > n as u64 {
        return Err(SurfaceError::OutsideWindow { base, window_base, window_words: n });
    }
    let start = offset_words as usize;
    let words = vstd::slice::slice_subrange(guest, start, n);
    proof {
        assert(words@ =~= guest@.skip(start as int));
    }
    match detile_64kb_rx_bpp4(words, width, height) {
        Ok(pixels) => Ok(Surface { width, height, pixels }),
        Err(e) => Err(SurfaceError::Detile(e)),
    }
}

/// What detiling colour buffer zero gives: `Incomplete` when the stream set no base or extent,
/// or no tiling mode, else the surface at its base.
pub open spec fn colour_target_outcome(
    writes: Seq<RegisterWrite>,
    guest: Seq<u32>,
    window_base: u64,
) -> Result<(u32, u32, Seq<u32>), SurfaceError> {
    match (spec_colour_target_at(writes), latest_value(writes, CB_COLOR0_ATTRIB3)) {
        (Some(target), Some(attrib3)) => surface_outcome(
            target.base,
            target.width,
            target.height,
            spec_decode_swizzle_mode((attrib3 >> 14u32) & 0x1Fu32),
            guest,
            window_base,
        ),
        _ => Err(SurfaceError::Incomplete),
    }
}

/// Detiles colour buffer zero out of a guest-memory window, reading its base, extent and tiling
/// mode from the register writes.
pub fn detile_colour_target(writes: &[RegisterWrite], guest: &[u32], window_base: u64) -> (r: Result<
    Surface,
    SurfaceError,
>)
    ensures
        surfaced_as(r, colour_target_outcome(writes@, guest@, window_base)),
{
    let target = match colour_target_at(writes) {
        Some(target) => target,
        None => {
            return Err(SurfaceError::Incomplete);
        },
    };
    let mode = match colour_swizzle_mode_at(writes) {
        Some(mode) => mode,
        None => {
            return Err(SurfaceError::Incomplete);
        },
    };
    detile_surface(target.base, target.width, target.height, mode, guest, window_base)
}

/// What detiling a texture gives: the format refusal for a non-32-bpp format, before the window
/// is touched, else the surface its descriptor names.
pub open spec fn texture_outcome(
    descriptor: ImageDescriptor,
    guest: Seq<u32>,
    window_base: u64,
) -> Result<(u32, u32, Seq<u32>), SurfaceError> {
    if !is_measured_format(descriptor.format) {
        Err(SurfaceError::Detile(DetileError::UnsupportedFormat { format: descriptor.format }))
    } else {
        surface_outcome(
            descriptor.base,
            descriptor.width,
            descriptor.height,
            descriptor.tiling,
            guest,
            window_base,
        )
    }
}

/// Detiles a texture out of a guest-memory window, from its decoded descriptor. It never returns
/// `Incomplete` - a descriptor always carries base and extent.
pub fn detile_texture(descriptor: &ImageDescriptor, guest: &[u32], window_base: u64) -> (r: Result<
    Surface,
    SurfaceError,
>)
    ensures
        surfaced_as(r, texture_outcome(*descriptor, guest@, window_base)),
{
    let supported = match element_bytes(descriptor.format) {
        Some(bytes) => bytes == MEASURED_ELEMENT_BYTES,
        None => false,
    };
    if !supported {
        return Err(SurfaceError::Detile(DetileError::UnsupportedFormat { format: descriptor.format }));
    }
    detile_surface(
        descriptor.base,
        descriptor.width,
        descriptor.height,
        descriptor.tiling,
        guest,
        window_base,
    )
}


/// Tiling with a map is tiling the mapped image: when `map` is a pure function - the same texel
/// always mapped to the same word - [`tile_surface_64kb_rx_bpp4_mapped`] over `linear` answers as
/// [`tile_surface_64kb_rx_bpp4`] over `mapped`, the image passed through `map` one texel at a time,
/// and leaves the same words in the same tiled words `before`.
pub proof fn lemma_mapped_tiling_is_tiling_the_mapped_image<F: Fn(u32) -> u32>(
    map: F,
    linear: Seq<u32>,
    mapped: Seq<u32>,
    before: Seq<u32>,
    mapped_answer: Result<(), DetileError>,
    mapped_tiled: Seq<u32>,
    plain_answer: Result<(), DetileError>,
    plain_tiled: Seq<u32>,
    width: u32,
    height: u32,
)
    requires
        mapped_answer == tiling_answer(before.len(), linear.len(), width, height),
        plain_answer == tiling_answer(before.len(), mapped.len(), width, height),
        mapped_answer is Err ==> mapped_tiled == before,
        plain_answer is Err ==> plain_tiled == before,
        forall|w: u32, v1: u32, v2: u32|
            #![trigger call_ensures(map, (w,), v1), call_ensures(map, (w,), v2)]
            call_ensures(map, (w,), v1) && call_ensures(map, (w,), v2) ==> v1 == v2,
        linear.len() == width * height,
        mapped.len() == linear.len(),
        forall|i: int| 0 <= i < linear.len() ==> call_ensures(map, (linear[i],), #[trigger] mapped[i]),
        mapped_tiled.len() == before.len(),
        plain_tiled.len() == before.len(),
        mapped_answer is Ok ==> forall|x: u32, y: u32|
            x < width && y < height ==> call_ensures(
                map,
                (linear[y * width + x],),
                #[trigger] mapped_tiled[surface_word(x, y, width) as int],
            ),
        mapped_answer is Ok ==> forall|i: int|
            0 <= i < before.len() && !is_surface_word(i, width, height) ==> mapped_tiled[i] == before[i],
        plain_answer is Ok ==> forall|x: u32, y: u32|
            x < width && y < height ==> #[trigger] plain_tiled[surface_word(x, y, width) as int] == mapped[y
                * width + x],
        plain_answer is Ok ==> forall|i: int|
            0 <= i < before.len() && !is_surface_word(i, width, height) ==> plain_tiled[i] == before[i],
    ensures
        mapped_answer == plain_answer,
        mapped_tiled == plain_tiled,
{
    if mapped_answer is Ok {
        assert forall|i: int| 0 <= i < before.len() implies mapped_tiled[i] == plain_tiled[i] by {
            if is_surface_word(i, width, height) {
                let (x, y) = choose|x: u32, y: u32| x < width && y < height && #[trigger] surface_word(x, y, width) == i;
                assert(0 <= y * width + x < width * height) by (nonlinear_arith)
                    requires
                        x < width,
                        y < height,
                ;
                let k = y * width + x;
                assert(call_ensures(map, (linear[k],), mapped[k]));
                assert(call_ensures(map, (linear[k],), mapped_tiled[surface_word(x, y, width) as int]));
                assert(plain_tiled[surface_word(x, y, width) as int] == mapped[k]);
            }
        }
        assert(mapped_tiled =~= plain_tiled);
    }
}

} // verus!
