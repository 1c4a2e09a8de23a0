//! The driver side of a submit: what a drawer is handed of a colour target, how a drawn frame is
//! written back into the guest's tiled target in its byte order, the page arithmetic lazy copies
//! use, and the record of what the command processor did across a run.
//!
//! A target is read out of guest memory, detiled into linear `Rgba8` - or recognised as one word
//! throughout, a clear, or as unchanged since it was last written or read, so the drawer already
//! holds it - handed to the drawer, and what the drawer answers is tiled back over the target's
//! own contents, padding words kept as memory holds them. A target outside guest memory is never
//! written.
use vstd::prelude::*;
use crate::cp::{
    asked_to_hold, extends, lemma_made_in_turn, lemma_nothing_made, lemma_one_made, made_since, CpExecution,
    CpMemory, MemoryRequest, Stopped,
};
use crate::pipeline::Submission;
use vstd::std_specs::iter::IteratorSpec;
use crate::registers::{ColourTarget, ColourTargetExtent, ColourTargetFormat, ComponentSwap, SwizzleMode};
use crate::tiling::{
    detile_surface_64kb_rx_bpp4_mapped, spec_surface_words, surface_word, surface_words_64kb_rx_bpp4,
    tile_surface_64kb_rx_bpp4_mapped,
};

verus! {

/// Whether a submission's colour target state is one a frame can be written into exactly: a
/// single base, a single resident target of the same extent, `64KB_R_X` tiling, and an
/// `8_8_8_8` `UNORM` element in an order `CB_COLOR0_INFO` names.
pub open spec fn spec_writable_target(submission: Submission) -> Option<(ColourTarget, ComponentSwap)> {
    match (submission.colour_target, submission.colour_target_format) {
        (Some(target), Some(format)) => if submission.colour_target_bases == 1 && submission.targets@.len() == 1
            && (forall|id: u64|
            #[trigger] submission.targets@.contains_key(id) ==> submission.targets@[id] == (ColourTargetExtent {
                width: target.width,
                height: target.height,
            })) && submission.colour_target_tiling == Some(SwizzleMode::Tiled64KbRX)
            && format.spec_is_rgba8_class() {
            Some((target, format.swap))
        } else {
            None
        },
        _ => None,
    }
}

/// The one colour target a submission's draws can be carried out into and written back to
/// exactly, with its byte order; anything else is `None`, and the draws stay unexecuted.
pub fn writable_target(submission: &Submission) -> (r: Option<(ColourTarget, ComponentSwap)>)
    ensures
        r == spec_writable_target(*submission),
{
    broadcast use vstd::std_specs::btree::group_btree_axioms;

    let (target, format) = match (submission.colour_target, submission.colour_target_format) {
        (Some(target), Some(format)) => (target, format),
        _ => {
            return None;
        },
    };
    let count = submission.targets.len();
    let ghost full = vstd::std_specs::btree::spec_btree_map_iter(&submission.targets).remaining();
    let ghost extent = ColourTargetExtent { width: target.width, height: target.height };
    let mut same = true;
    for entry in extents: submission.targets.iter()
        invariant
            count == submission.targets@.len(),
            extents.seq() == full,
            extent == (ColourTargetExtent { width: target.width, height: target.height }),
            same == forall|k: int| 0 <= k < extents.index() ==> *(#[trigger] full[k]).1 == extent,
    {
        let (_, found) = entry;
        proof {
            assert(*found == *full[extents.index() as int].1);
        }
        if found.width != target.width || found.height != target.height {
            same = false;
        }
    }
    let tiled = match submission.colour_target_tiling {
        Some(SwizzleMode::Tiled64KbRX) => true,
        _ => false,
    };
    proof {
        assert(full.len() == submission.targets@.dom().len());
        assert(same == forall|k: int| 0 <= k < full.len() ==> *(#[trigger] full[k]).1 == extent);
        if same {
            assert forall|id: u64| #[trigger] submission.targets@.contains_key(id) implies submission.targets@[id] == extent by {
                assert(full.contains((&id, &submission.targets@[id])));
                let k = choose|k: int| 0 <= k < full.len() && full[k] == (&id, &submission.targets@[id]);
                assert(*full[k].1 == extent);
            }
        } else {
            let k = choose|k: int| 0 <= k < full.len() && !(*(#[trigger] full[k]).1 == extent);
            let id = *full[k].0;
            assert(submission.targets@.contains_key(id) && submission.targets@[id] == *full[k].1);
        }
    }
    if submission.colour_target_bases == 1 && count == 1 && same && tiled && format.is_rgba8_class() {
        Some((target, format.swap))
    } else {
        None
    }
}

/// A word moved between a target's memory order and `Rgba8` order: `SWAP_ALT` exchanges the
/// first and third bytes, any other order exchanges nothing.
pub open spec fn spec_swapped(word: u32, swap: ComponentSwap) -> u32 {
    match swap {
        ComponentSwap::Alternate => (word & 0xff00_ff00u32) | ((word & 0x00ff_0000u32) >> 16u32) | ((
        word & 0x0000_00ffu32) << 16u32),
        _ => word,
    }
}

/// Moves a word between the target's memory order and `Rgba8` order.
pub fn swapped(word: u32, swap: ComponentSwap) -> (r: u32)
    ensures
        r == spec_swapped(word, swap),
{
    match swap {
        ComponentSwap::Alternate => (word & 0xff00_ff00u32) | ((word & 0x00ff_0000u32) >> 16u32) | ((
        word & 0x0000_00ffu32) << 16u32),
        _ => word,
    }
}

/// Swapping is its own inverse: a frame written into a target and read back out comes back as it
/// went in, whatever the target's order.
pub proof fn lemma_swapped_round_trips(word: u32, swap: ComponentSwap)
    ensures
        spec_swapped(spec_swapped(word, swap), swap) == word,
{
    match swap {
        ComponentSwap::Alternate => {
            let s = (word & 0xff00_ff00u32) | ((word & 0x00ff_0000u32) >> 16u32) | ((word
                & 0x0000_00ffu32) << 16u32);
            assert(((s & 0xff00_ff00u32) | ((s & 0x00ff_0000u32) >> 16u32) | ((s & 0x0000_00ffu32)
                << 16u32)) == word) by (bit_vector)
                requires
                    s == (word & 0xff00_ff00u32) | ((word & 0x00ff_0000u32) >> 16u32) | ((word
                        & 0x0000_00ffu32) << 16u32),
            ;
        },
        _ => {},
    }
}

/// A linear `Rgba8` word as a target in `swap` order holds it in memory.
pub fn memory_order(word: u32, swap: ComponentSwap) -> (r: u32)
    ensures
        r == spec_swapped(word, swap),
{
    swapped(word, swap)
}

/// The `SWAP_ALT` exchange, as a function a detile or tile can apply per texel.
fn swap_alternate(word: u32) -> (r: u32)
    ensures
        r == spec_swapped(word, ComponentSwap::Alternate),
{
    swapped(word, ComponentSwap::Alternate)
}

/// No exchange, as a function a detile or tile can apply per texel.
fn keep_order(word: u32) -> (r: u32)
    ensures
        r == word,
{
    word
}

/// What a drawer is handed of a target's contents before its draws.
#[derive(Debug, Clone, Copy, PartialEq, Eq)]
pub enum Before<'a> {
    /// The drawer already holds them: nothing wrote the target since it last drew or was handed
    /// it.
    Held,
    /// These, as linear `Rgba8` words.
    Words(&'a [u32]),
    /// This linear `Rgba8` word in every pixel - a clear.
    Uniform(u32),
}

impl<'a> Before<'a> {
    /// The contents as `pixels` linear `Rgba8` words - a uniform word written out that many
    /// times - or `None` when the drawer holds them already.
    pub fn to_words(self, pixels: usize) -> (r: Option<Vec<u32>>)
        ensures
            match self {
                Before::Held => r is None,
                Before::Words(words) => r is Some && r->0@ == words@,
                Before::Uniform(word) => r is Some && r->0@ == Seq::new(pixels as nat, |i: int| word),
            },
    {
        match self {
            Before::Held => None,
            Before::Words(words) => Some(vstd::slice::slice_to_vec(words)),
            Before::Uniform(word) => {
                let mut out: Vec<u32> = Vec::new();
                let mut i: usize = 0;
                while i < pixels
                    invariant
                        i <= pixels,
                        out@ == Seq::new(i as nat, |k: int| word),
                    decreases pixels - i,
                {
                    out.push(word);
                    proof {
                        assert(out@ =~= Seq::new(i as nat + 1, |k: int| word));
                    }
                    i = i + 1;
                }
                Some(out)
            },
        }
    }
}

/// What reading a colour target found.
#[derive(Debug, Clone, PartialEq, Eq)]
pub enum TargetRead {
    /// Memory holds exactly what was last written or read there: the drawer already has it.
    Unchanged,
    /// Something else wrote it: its contents, as linear `Rgba8`.
    Changed(Vec<u32>),
    /// Something else wrote it with one word throughout - a clear: that word as linear `Rgba8`.
    Uniform(u32),
}

impl TargetRead {
    /// What a drawer is handed of it.
    pub fn before(&self) -> (r: Before<'_>)
        ensures
            match self {
                TargetRead::Unchanged => r is Held,
                TargetRead::Changed(contents) => r matches Before::Words(w) && w@ == contents@,
                TargetRead::Uniform(word) => r == Before::Uniform(*word),
            },
    {
        match self {
            TargetRead::Unchanged => Before::Held,
            TargetRead::Changed(contents) => Before::Words(contents.as_slice()),
            TargetRead::Uniform(word) => Before::Uniform(*word),
        }
    }
}

/// The one word a run of bytes holds throughout, if it is whole words of one value.
pub open spec fn uniform_word(bytes: Seq<u8>) -> Option<u32> {
    if bytes.len() >= 4 && forall|i: int|
        0 <= i < bytes.len() / 4 ==> #[trigger] crate::whole_words(bytes)[i] == crate::whole_words(
            bytes,
        )[0] {
        Some(crate::whole_words(bytes)[0])
    } else {
        None
    }
}

/// Whether `contents` is the linear image the tiled words hold, each texel in `Rgba8` order.
pub open spec fn detiled_in_order(
    contents: Seq<u32>,
    tiled: Seq<u32>,
    width: u32,
    height: u32,
    swap: ComponentSwap,
) -> bool {
    &&& contents.len() == width * height
    &&& forall|x: u32, y: u32|
        x < width && y < height ==> #[trigger] contents[y * width + x] == spec_swapped(
            tiled[surface_word(x, y, width) as int],
            swap,
        )
}

/// Whether a surface of this extent is one these functions can size: its words and texels fit in
/// memory's index.
pub open spec fn representable(width: u32, height: u32) -> bool {
    &&& 4 * spec_surface_words(width, height) <= usize::MAX
    &&& width * height <= usize::MAX
}

/// Whether `r` is what a target's `bytes` read as: the one word throughout, in `Rgba8` order, when
/// they are a clear; otherwise the detiled image in `Rgba8` order.
pub open spec fn read_as(r: TargetRead, bytes: Seq<u8>, width: u32, height: u32, swap: ComponentSwap) -> bool {
    match uniform_word(bytes) {
        Some(word) => r == TargetRead::Uniform(spec_swapped(word, swap)),
        None => r matches TargetRead::Changed(contents) && detiled_in_order(
            contents@,
            crate::whole_words(bytes),
            width,
            height,
            swap,
        ),
    }
}

/// Whether a drawer handed `before` was handed what a target's `bytes` hold: the one word
/// throughout, in `Rgba8` order, when they are a clear; otherwise the detiled image in `Rgba8` order.
pub open spec fn handed_as(before: Before<'_>, bytes: Seq<u8>, width: u32, height: u32, swap: ComponentSwap) -> bool {
    match uniform_word(bytes) {
        Some(word) => before == Before::Uniform(spec_swapped(word, swap)),
        None => before matches Before::Words(words) && detiled_in_order(
            words@,
            crate::whole_words(bytes),
            width,
            height,
            swap,
        ),
    }
}

/// What a target's bytes hand a drawer: the one word throughout in `Rgba8` order when the bytes
/// are a clear, else the detiled image in `Rgba8` order.
pub fn target_contents(bytes: &[u8], width: u32, height: u32, swap: ComponentSwap) -> (r: TargetRead)
    requires
        representable(width, height),
        bytes@.len() >= 4 * spec_surface_words(width, height),
    ensures
        read_as(r, bytes@, width, height, swap),
{
    let words = crate::cp::words_of(bytes);
    let n = words.len();
    if n > 0 {
        let first = words[0];
        let mut same = true;
        let mut i: usize = 0;
        while i < n
            invariant
                n == words@.len(),
                words@ == crate::whole_words(bytes@),
                first == words@[0],
                i <= n,
                same == forall|k: int| 0 <= k < i ==> #[trigger] words@[k] == first,
            decreases n - i,
        {
            if words[i] != first {
                same = false;
            }
            i = i + 1;
        }
        if same {
            return TargetRead::Uniform(swapped(first, swap));
        }
    }
    let contents = match swap {
        ComponentSwap::Alternate => detile_surface_64kb_rx_bpp4_mapped(words.as_slice(), width, height, swap_alternate),
        _ => detile_surface_64kb_rx_bpp4_mapped(words.as_slice(), width, height, keep_order),
    };
    TargetRead::Changed(contents)
}

/// What was last written to or read from a colour target: its base and the bytes memory held
/// then, so a target nothing has written since is recognised as unchanged.
#[derive(Debug, Clone)]
pub struct TargetMemo {
    last: Option<(u64, Vec<u8>)>,
}

impl TargetMemo {
    /// The base and bytes remembered, if any.
    pub closed spec fn spec_last(&self) -> Option<(u64, Seq<u8>)> {
        match &self.last {
            Some((base, bytes)) => Some((*base, bytes@)),
            None => None,
        }
    }

    /// Whether what is remembered is a target at `base`.
    pub open spec fn remembers(&self, base: u64) -> bool {
        match self.spec_last() {
            Some((b, _)) => b == base,
            None => false,
        }
    }

    /// Nothing remembered.
    pub fn new() -> (r: Self)
        ensures
            r.spec_last() is None,
    {
        TargetMemo { last: None }
    }

    /// Forgets what was remembered: a drawer that failed part-way may hold draws the target does
    /// not.
    pub fn forget(&mut self)
        ensures
            final(self).spec_last() is None,
    {
        self.last = None;
    }

    /// Remembers that memory at `base` held `bytes` when it was last written or read.
    pub fn remember(&mut self, base: u64, bytes: Vec<u8>)
        ensures
            final(self).spec_last() == Some((base, bytes@)),
    {
        self.last = Some((base, bytes));
    }

    /// The base of the target remembered, if any.
    pub fn base(&self) -> (r: Option<u64>)
        ensures
            r == (match self.spec_last() {
                Some((b, _)) => Some(b),
                None => None,
            }),
    {
        match &self.last {
            Some((b, _)) => Some(*b),
            None => None,
        }
    }

    /// A copy of the bytes remembered for a target at `base` of `length` bytes, or `None` when
    /// what is remembered is another target or another length.
    pub fn bytes_for(&self, base: u64, length: u64) -> (r: Option<Vec<u8>>)
        ensures
            r is Some <==> (self.spec_last() matches Some((b, bytes)) && b == base && bytes.len()
                == length),
            r matches Some(v) ==> self.spec_last() matches Some((_, bytes)) && v@ == bytes,
    {
        match &self.last {
            Some((b, bytes)) => {
                if *b == base && bytes.len() as u64 == length {
                    Some(vstd::slice::slice_to_vec(bytes.as_slice()))
                } else {
                    None
                }
            },
            None => None,
        }
    }
}

/// Bytes a target's whole tiled surface occupies, when that fits in memory's index.
pub(crate) fn target_bytes(width: u32, height: u32) -> (r: Option<usize>)
    ensures
        r is Some <==> representable(width, height),
        r is Some ==> r->0 == 4 * spec_surface_words(width, height),
{
    let across = (width as u64 + 127) / 128;
    let down = (height as u64 + 127) / 128;
    proof {
        assert(width * height <= 0xFFFF_FFFFu64 * 0xFFFF_FFFFu64) by (nonlinear_arith)
            requires
                width <= 0xFFFF_FFFFu64,
                height <= 0xFFFF_FFFFu64,
        ;
        assert(across * down <= 0x200_0000u64 * 0x200_0000u64) by (nonlinear_arith)
            requires
                across <= 0x200_0000u64,
                down <= 0x200_0000u64,
        ;
    }
    let texels = width as u128 * height as u128;
    let words = across as u128 * down as u128 * 16384;
    proof {
        assert(across * down * 16384 == spec_surface_words(width, height));
    }
    if words * 4 > usize::MAX as u128 || texels > usize::MAX as u128 {
        None
    } else {
        Some((words * 4) as usize)
    }
}

/// Reads `target` out of `memory` as linear `Rgba8` for a drawer to start from, or answers that
/// it is unchanged since it was last written or read, so the drawer already holds it. `None` when
/// the target is not readable or not a size that can be read.
pub fn read_target<M: CpMemory>(memory: &mut M, memo: &mut TargetMemo, target: ColourTarget, swap: ComponentSwap) -> (r:
    Option<TargetRead>)
    ensures
        !representable(target.width, target.height) ==> r is None,
        r is Some && !(r->0 is Unchanged) ==> final(memo).remembers(target.base),
        r is Some && r->0 is Unchanged ==> final(memo).spec_last() == old(memo).spec_last()
            && old(memo).remembers(target.base),
        M::records_requests() ==> extends(old(memory).requests(), final(memory).requests()),
        M::records_requests() && r is Some && r->0 is Unchanged ==> asked_to_hold(
            made_since(old(memory).requests(), final(memory).requests()),
            target.base,
            crate::lazy_copies::memo_bytes(old(memo).spec_last()),
            true,
        ),
        r is Some && !(r->0 is Unchanged) ==> read_as(
            r->0,
            crate::lazy_copies::memo_bytes(final(memo).spec_last()),
            target.width,
            target.height,
            swap,
        ),
        M::records_requests() && r is Some && !(r->0 is Unchanged) ==> made_since(
            old(memory).requests(),
            final(memory).requests(),
        ).len() >= 1,
        M::records_requests() && r is Some && !(r->0 is Unchanged) ==> made_since(
            old(memory).requests(),
            final(memory).requests(),
        ).last() == (MemoryRequest::Read {
            address: target.base,
            length: 4 * spec_surface_words(target.width, target.height),
            answer: Some(crate::lazy_copies::memo_bytes(final(memo).spec_last())),
        }),
{
    let ghost start = memory.requests();
    proof {
        lemma_nothing_made(start);
    }
    let length = match target_bytes(target.width, target.height) {
        Some(length) => length,
        None => {
            return None;
        },
    };
    let unchanged = match &memo.last {
        Some((base, bytes)) => *base == target.base && bytes.len() == length && memory.holds(
            target.base,
            bytes.as_slice(),
        ),
        None => false,
    };
    if unchanged {
        return Some(TargetRead::Unchanged);
    }
    let ghost checked = memory.requests();
    let answer = memory.read(target.base, length);
    proof {
        if M::records_requests() {
            lemma_one_made(
                checked,
                MemoryRequest::Read { address: target.base, length: length as nat, answer: crate::cp::answer_bytes(answer) },
            );
            lemma_made_in_turn(start, checked, memory.requests());
        }
    }
    let bytes = match answer {
        Some(bytes) => bytes,
        None => {
            return None;
        },
    };
    if bytes.len() < length {
        return None;
    }
    let before = target_contents(bytes.as_slice(), target.width, target.height, swap);
    memo.last = Some((target.base, bytes));
    Some(before)
}

/// Little-endian bytes of words.
pub(crate) fn bytes_of(words: &[u32]) -> (r: Vec<u8>)
    ensures
        r@.len() == 4 * words@.len(),
        crate::whole_words(r@) == words@,
{
    let mut out: Vec<u8> = Vec::new();
    let mut i: usize = 0;
    while i < words.len()
        invariant
            i <= words@.len(),
            out@.len() == 4 * i,
            forall|k: int| 0 <= k < i ==> #[trigger] crate::packet::le_word(out@, 4 * k) == words@[k],
        decreases words@.len() - i,
    {
        let w = words[i];
        let ghost before = out@;
        out.push((w & 0xFFu32) as u8);
        out.push(((w >> 8u32) & 0xFFu32) as u8);
        out.push(((w >> 16u32) & 0xFFu32) as u8);
        out.push(((w >> 24u32) & 0xFFu32) as u8);
        proof {
            assert(crate::packet::le_word(out@, 4 * i as int) == w) by {
                let b0 = (w & 0xFFu32) as u8;
                let b1 = ((w >> 8u32) & 0xFFu32) as u8;
                let b2 = ((w >> 16u32) & 0xFFu32) as u8;
                let b3 = ((w >> 24u32) & 0xFFu32) as u8;
                assert(out@[4 * i as int] == b0 && out@[4 * i + 1] == b1 && out@[4 * i + 2] == b2
                    && out@[4 * i + 3] == b3);
                assert((b0 as u32) | ((b1 as u32) << 8u32) | ((b2 as u32) << 16u32) | ((b3 as u32)
                    << 24u32) == w) by (bit_vector)
                    requires
                        b0 == (w & 0xFFu32) as u8,
                        b1 == ((w >> 8u32) & 0xFFu32) as u8,
                        b2 == ((w >> 16u32) & 0xFFu32) as u8,
                        b3 == ((w >> 24u32) & 0xFFu32) as u8,
                ;
            }
            assert forall|k: int| 0 <= k < i + 1 implies #[trigger] crate::packet::le_word(out@, 4 * k)
                == words@[k] by {
                if k < i {
                    assert(out@[4 * k] == before[4 * k] && out@[4 * k + 1] == before[4 * k + 1]
                        && out@[4 * k + 2] == before[4 * k + 2] && out@[4 * k + 3] == before[4 * k
                        + 3]);
                    assert(crate::packet::le_word(before, 4 * k) == words@[k]);
                }
            }
        }
        i = i + 1;
    }
    proof {
        assert(crate::whole_words(out@) =~= words@);
    }
    out
}

/// Tiles `after` over the target's current words in its byte order: every texel at its swizzled
/// word, every padding word as the target held it. `None` when `after` is not one word per texel
/// or the current words do not cover the surface.
pub fn tile_over(after: &[u32], current: &[u32], width: u32, height: u32, swap: ComponentSwap) -> (r: Option<Vec<u32>>)
    requires
        representable(width, height),
    ensures
        (after@.len() == width * height && current@.len() >= spec_surface_words(width, height)) <==> r is Some,
        r is Some ==> r->0@.len() == current@.len(),
        r is Some ==> forall|x: u32, y: u32|
            x < width && y < height ==> #[trigger] r->0@[surface_word(x, y, width) as int] == spec_swapped(
                after@[y * width + x],
                swap,
            ),
        r is Some ==> forall|i: int|
            0 <= i < current@.len() && !crate::tiling::is_surface_word(i, width, height) ==> r->0@[i]
                == current@[i],
{
    let mut tiled = vstd::slice::slice_to_vec(current);
    let done = match swap {
        ComponentSwap::Alternate => tile_surface_64kb_rx_bpp4_mapped(
            after,
            width,
            height,
            tiled.as_mut_slice(),
            swap_alternate,
        ),
        _ => tile_surface_64kb_rx_bpp4_mapped(after, width, height, tiled.as_mut_slice(), keep_order),
    };
    match done {
        Ok(()) => Some(tiled),
        Err(_) => None,
    }
}

/// Tiles `after` over the target in its byte order and writes it where the guest reads it,
/// remembering what was written; the surface's padding words are kept as memory holds them.
/// `false` when the target is unreadable, the size is wrong, or the write refused - and then
/// nothing is remembered.
pub fn write_target<M: CpMemory>(
    memory: &mut M,
    memo: &mut TargetMemo,
    target: ColourTarget,
    swap: ComponentSwap,
    after: &[u32],
) -> (r: bool)
    ensures
        r ==> final(memo).remembers(target.base),
        !r ==> final(memo).spec_last() is None,
        !representable(target.width, target.height) || after@.len() != target.width * target.height
            ==> !r,
        M::records_requests() ==> extends(old(memory).requests(), final(memory).requests()),
        M::records_requests() && r ==> wrote_over(
            made_since(old(memory).requests(), final(memory).requests()),
            target,
            swap,
            after@,
            crate::lazy_copies::memo_bytes(final(memo).spec_last()),
        ),
{
    let ghost start = memory.requests();
    proof {
        lemma_nothing_made(start);
    }
    memo.last = None;
    let length = match target_bytes(target.width, target.height) {
        Some(length) => length,
        None => {
            return false;
        },
    };
    let answer = memory.read(target.base, length);
    let ghost read_done = memory.requests();
    proof {
        if M::records_requests() {
            lemma_one_made(
                start,
                MemoryRequest::Read { address: target.base, length: length as nat, answer: crate::cp::answer_bytes(answer) },
            );
        }
    }
    let current = match answer {
        Some(bytes) => bytes,
        None => {
            return false;
        },
    };
    if current.len() < length {
        return false;
    }
    let words = crate::cp::words_of(current.as_slice());
    let tiled = match tile_over(after, words.as_slice(), target.width, target.height, swap) {
        Some(tiled) => tiled,
        None => {
            return false;
        },
    };
    let written = bytes_of(tiled.as_slice());
    let wrote = memory.write(target.base, written.as_slice());
    proof {
        if M::records_requests() {
            lemma_one_made(read_done, MemoryRequest::Write { address: target.base, bytes: written@, answer: wrote });
            lemma_made_in_turn(start, read_done, memory.requests());
            assert(crate::whole_words(current@) == words@);
        }
    }
    if !wrote {
        return false;
    }
    memo.last = Some((target.base, written));
    true
}

/// Whether `written` is `after` tiled over the target's `current` bytes in its byte order: each
/// texel's word where the swizzle places it, every other word as it was.
pub open spec fn drawn_over(
    written: Seq<u8>,
    current: Seq<u8>,
    after: Seq<u32>,
    width: u32,
    height: u32,
    swap: ComponentSwap,
) -> bool {
    let tiled = crate::whole_words(written);
    let before = crate::whole_words(current);
    &&& written.len() == 4 * before.len()
    &&& forall|x: u32, y: u32|
        x < width && y < height ==> #[trigger] tiled[surface_word(x, y, width) as int] == spec_swapped(
            after[y * width + x],
            swap,
        )
    &&& forall|i: int|
        0 <= i < before.len() && !crate::tiling::is_surface_word(i, width, height) ==> tiled[i] == before[i]
}

/// Whether `made` is how `after` was written over `target`: its current bytes read, then
/// `written` - `after` drawn over them - written back, and the write taken.
pub open spec fn wrote_over(
    made: Seq<MemoryRequest>,
    target: ColourTarget,
    swap: ComponentSwap,
    after: Seq<u32>,
    written: Seq<u8>,
) -> bool {
    &&& made.len() == 2
    &&& match made[0] {
        MemoryRequest::Read { address, length, answer: Some(current) } => {
            &&& address == target.base
            &&& length == 4 * spec_surface_words(target.width, target.height)
            &&& made[1] == (MemoryRequest::Write { address: target.base, bytes: written, answer: true })
            &&& drawn_over(written, current, after, target.width, target.height, swap)
        },
        _ => false,
    }
}

/// Reads `target` out of `memory`, has `draw` turn its `Rgba8` contents into the contents after
/// the draws, and writes that back tiled and in the target's byte order. `false`, with nothing
/// written, when the target is not readable, `draw` declines or answers the wrong size, or the
/// write is refused - a target outside the guest's memory is never written, and then `draw` is
/// never run.
pub fn draw_over<M: CpMemory, F: FnOnce(Before<'_>) -> Option<Vec<u32>>>(
    memory: &mut M,
    memo: &mut TargetMemo,
    target: ColourTarget,
    swap: ComponentSwap,
    draw: F,
) -> (r: bool)
    requires
        forall|before: Before<'_>| call_requires(draw, (before,)),
    ensures
        !representable(target.width, target.height) ==> !r,
        r ==> final(memo).remembers(target.base),
        r ==> exists|before: Before<'_>, after: Vec<u32>|
            call_ensures(draw, (before,), Some(after)) && after@.len() == target.width * target.height && (
            M::records_requests() ==> ({
                let made = made_since(old(memory).requests(), final(memory).requests());
                &&& made.len() >= 2
                &&& wrote_over(
                    made.subrange(made.len() - 2, made.len() as int),
                    target,
                    swap,
                    after@,
                    crate::lazy_copies::memo_bytes(final(memo).spec_last()),
                )
                &&& !(before is Held) ==> made.len() >= 3 && match made[made.len() - 3] {
                    MemoryRequest::Read { address, answer: Some(bytes), .. } => address == target.base
                        && handed_as(before, bytes, target.width, target.height, swap),
                    _ => false,
                }
            })),
        M::records_requests() ==> extends(old(memory).requests(), final(memory).requests()),
{
    let ghost start = memory.requests();
    let read = match read_target(memory, memo, target, swap) {
        Some(read) => read,
        None => {
            return false;
        },
    };
    let ghost read_bytes = crate::lazy_copies::memo_bytes(memo.spec_last());
    let handed = read.before();
    let ghost given = handed;
    proof {
        if !(read is Unchanged) {
            assert(handed_as(given, read_bytes, target.width, target.height, swap));
        }
    }
    let after = match draw(handed) {
        Some(after) => after,
        None => {
            memo.forget();
            return false;
        },
    };
    let ghost read_done = memory.requests();
    let written = write_target(memory, memo, target, swap, after.as_slice());
    proof {
        if M::records_requests() {
            lemma_made_in_turn(start, read_done, memory.requests());
            if written {
                let made = made_since(start, memory.requests());
                assert(made.subrange(made.len() - 2, made.len() as int) =~= made_since(read_done, memory.requests()));
                if !(read is Unchanged) {
                    let first = made_since(start, read_done);
                    assert(made[made.len() - 3] == first[first.len() - 1]);
                }
            }
        }
        if written {
            assert(call_ensures(draw, (given,), Some(after)));
        }
    }
    written
}

/// Whether `[address, address + length)` touches any byte of `target`'s tiled surface, each end
/// saturating at the top of the address space.
pub open spec fn spec_overlaps_target(target: ColourTarget, address: u64, length: u64) -> bool {
    let span = 4 * spec_surface_words(target.width, target.height);
    let target_end = if target.base + span > u64::MAX {
        u64::MAX as int
    } else {
        target.base + span
    };
    let range_end = if address + length > u64::MAX {
        u64::MAX as int
    } else {
        address + length
    };
    address < target_end && target.base < range_end
}

/// Whether `[address, address + length)` touches any byte of `target`'s tiled surface.
pub fn overlaps_target(target: ColourTarget, address: u64, length: u64) -> (r: bool)
    ensures
        r == spec_overlaps_target(target, address, length),
{
    let across = (target.width as u64 + 127) / 128;
    let down = (target.height as u64 + 127) / 128;
    proof {
        assert(across * down <= 0x200_0000u64 * 0x200_0000u64) by (nonlinear_arith)
            requires
                across <= 0x200_0000u64,
                down <= 0x200_0000u64,
        ;
    }
    let span = across as u128 * down as u128 * 65536;
    proof {
        assert(across * down * 16384 == spec_surface_words(target.width, target.height));
        assert(span == 4 * spec_surface_words(target.width, target.height));
    }
    let target_end = if target.base as u128 + span > u64::MAX as u128 {
        u64::MAX
    } else {
        (target.base as u128 + span) as u64
    };
    let range_end = address.saturating_add(length);
    address < target_end && target.base < range_end
}

/// The host page size page protection works in.
pub const HOST_PAGE: u64 = 4096;

/// The bits of an address that name its host page.
pub const PAGE_MASK: u64 = 0xFFFF_FFFF_FFFF_F000;

/// The whole host pages covering `[address, address + length)`, as a base and a length: the start
/// rounded down, the end rounded up, both saturating.
pub open spec fn spec_page_span(address: u64, length: u64) -> (u64, u64) {
    let start = address - address % 4096;
    let end_raw = if address + length + 4095 > u64::MAX {
        u64::MAX as int
    } else {
        address + length + 4095
    };
    let end = end_raw - end_raw % 4096;
    (start as u64, (end - start) as u64)
}

/// The whole host pages covering `[address, address + length)`.
pub fn page_span(address: u64, length: u64) -> (r: (u64, u64))
    ensures
        r == spec_page_span(address, length),
{
    let start = address & PAGE_MASK;
    let e = address.saturating_add(length).saturating_add(HOST_PAGE - 1);
    let end = e & PAGE_MASK;
    proof {
        assert(address & 0xFFFF_FFFF_FFFF_F000u64 == address - address % 4096) by (bit_vector);
        assert(e & 0xFFFF_FFFF_FFFF_F000u64 == e - e % 4096) by (bit_vector);
        assert(e & 0xFFFF_FFFF_FFFF_F000u64 >= address & 0xFFFF_FFFF_FFFF_F000u64) by (bit_vector)
            requires
                e >= address,
        ;
    }
    (start, end - start)
}

/// Whether two `(base, length)` ranges share a byte, each end saturating.
pub open spec fn spec_ranges_overlap(a: (u64, u64), b: (u64, u64)) -> bool {
    let b_end = if b.0 + b.1 > u64::MAX {
        u64::MAX as int
    } else {
        b.0 + b.1
    };
    let a_end = if a.0 + a.1 > u64::MAX {
        u64::MAX as int
    } else {
        a.0 + a.1
    };
    a.0 < b_end && b.0 < a_end
}

/// Whether two `(base, length)` ranges share a byte.
pub fn ranges_overlap(a: (u64, u64), b: (u64, u64)) -> (r: bool)
    ensures
        r == spec_ranges_overlap(a, b),
{
    a.0 < b.0.saturating_add(b.1) && b.0 < a.0.saturating_add(a.1)
}

/// A flipped frame kept on the device for the display: a snapshot the caller owns and releases,
/// and the target and byte order it was drawn for.
#[derive(Debug, Clone, Copy)]
pub struct ShownFrame {
    /// The snapshot, taken or released through the embedder's lazy-copy hooks.
    pub snapshot: u64,
    /// Where the frame belongs in guest memory.
    pub target: ColourTarget,
    /// The target's component order in memory.
    pub swap: ComponentSwap,
}

/// What the command processor did across the run: submissions executed, how many ran to
/// completion, and the last one's detail.
#[derive(Debug, Clone, Copy, Default)]
pub struct ExecutionRecord {
    /// Submissions whose command-processor work was attempted.
    pub submissions: u64,
    /// Of those, the ones that ran to the end with nothing needing the GPU.
    pub completed: u64,
    /// Of those, the ones whose draws were carried out and written back.
    pub drawn: u64,
    /// Bytes written to guest memory across them all.
    pub bytes_written: u64,
    /// The most recent submission's execution.
    pub last: Option<CpExecution>,
}

/// Counts one submission's execution into the run's record.
pub fn record_execution(record: &mut ExecutionRecord, executed: CpExecution)
    requires
        old(record).submissions < u64::MAX,
        old(record).completed < u64::MAX,
        old(record).drawn < u64::MAX,
        old(record).bytes_written + executed.bytes_written <= u64::MAX,
    ensures
        final(record).submissions == old(record).submissions + 1,
        final(record).completed == old(record).completed + (if executed.stopped == Stopped::Completed {
            1int
        } else {
            0int
        }),
        final(record).drawn == old(record).drawn + (if executed.draws > 0 {
            1int
        } else {
            0int
        }),
        final(record).bytes_written == old(record).bytes_written + executed.bytes_written,
        final(record).last == Some(executed),
{
    record.submissions = record.submissions + 1;
    let completed = match executed.stopped {
        Stopped::Completed => true,
        _ => false,
    };
    if completed {
        record.completed = record.completed + 1;
    }
    if executed.draws > 0 {
        record.drawn = record.drawn + 1;
    }
    record.bytes_written = record.bytes_written + executed.bytes_written;
    record.last = Some(executed);
}


/// A ceiling on how many dwords a submit reads out of guest memory, so a wild size field in the
/// descriptor cannot walk the read into unmapped memory: it refuses an absurd descriptor, not a real
/// buffer.
pub const MAX_DCB_DWORDS: u32 = 0x40_0000;

/// The command buffer a 16-byte submit descriptor names - `{gpu_addr: u64, size_dwords: u32,
/// flags: u8, pad}`, little-endian - as an address and a byte length; `None` for a null address, an
/// empty buffer or one over the ceiling.
pub open spec fn spec_submit_descriptor(desc: Seq<u8>) -> Option<(u64, usize)> {
    let address = crate::packet::le_word(desc, 0) as int + crate::packet::le_word(desc, 4) as int
        * 0x1_0000_0000;
    let size_dwords = crate::packet::le_word(desc, 8);
    if address == 0 || size_dwords == 0 || size_dwords > MAX_DCB_DWORDS {
        None
    } else {
        Some((address as u64, (size_dwords * 4) as usize))
    }
}

/// Reads a submit descriptor's bytes into the command buffer's address and byte length.
pub fn submit_descriptor(desc: &[u8; 16]) -> (r: Option<(u64, usize)>)
    ensures
        r == spec_submit_descriptor(desc@),
{
    let bytes = desc.as_slice();
    let low = word_at(bytes, 0);
    let high = word_at(bytes, 4);
    let size_dwords = word_at(bytes, 8);
    let address = crate::cp::address(low, high);
    if address == 0 || size_dwords == 0 || size_dwords > MAX_DCB_DWORDS {
        None
    } else {
        Some((address, size_dwords as usize * 4))
    }
}

/// The little-endian word at byte `at`.
fn word_at(bytes: &[u8], at: usize) -> (r: u32)
    requires
        at + 4 <= bytes@.len(),
    ensures
        r == crate::packet::le_word(bytes@, at as int),
{
    (bytes[at] as u32) | ((bytes[at + 1] as u32) << 8u32) | ((bytes[at + 2] as u32) << 16u32) | ((
    bytes[at + 3] as u32) << 24u32)
}

/// Whether `[address, address + length)` lies wholly inside one of the half-open `(start, end)`
/// regions; a range whose end overflows the address space lies in none.
pub open spec fn spec_regions_contain(regions: Seq<(u64, u64)>, address: u64, length: u64) -> bool {
    address + length <= u64::MAX && exists|i: int|
        0 <= i < regions.len() && address >= (#[trigger] regions[i]).0 && address + length <= regions[i].1
}

/// Whether a range lies wholly inside one of the guest's readable regions.
pub fn regions_contain(regions: &[(u64, u64)], address: u64, length: u64) -> (r: bool)
    ensures
        r == spec_regions_contain(regions@, address, length),
{
    let end = match address.checked_add(length) {
        Some(end) => end,
        None => {
            return false;
        },
    };
    let mut i: usize = 0;
    while i < regions.len()
        invariant
            i <= regions@.len(),
            end == address + length,
            forall|k: int|
                0 <= k < i ==> !(address >= (#[trigger] regions@[k]).0 && end <= regions@[k].1),
        decreases regions@.len() - i,
    {
        let (start, region_end) = regions[i];
        if address >= start && end <= region_end {
            return true;
        }
        i = i + 1;
    }
    false
}

} // verus!
