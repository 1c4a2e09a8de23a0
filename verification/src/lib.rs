//! Guest GPU command streams, decoded into what a host backend needs.
//!
//! The command stream (vendor packet buffers) is walked into packets, the packets into register
//! writes, draws and dispatches, and the register state into the surfaces, shaders and fixed
//! function state a backend renders with. Tiled surfaces are detiled, and guest words are hashed
//! so a shader or texture is recognised again.
use vstd::prelude::*;
use crate::agc::{GUEST_ARG_REGISTERS, OK, words_written};
use crate::guest::GuestWords;
use crate::packet::build::{DISPATCH_DIRECT, spec_command_header};

pub mod agc;
pub mod agc_driver;
pub mod backend;
pub mod cp;
pub mod guest;
pub mod lazy_copies;
pub mod packet;
pub mod perf;
pub mod pipeline;
pub mod registers;
pub mod render;
pub mod tiling;

verus! {

/// The multiplier of [`content_hash`]'s mixing step.
pub const HASH_MULTIPLIER: u64 = 0x9E37_79B9_7F4A_7C15;

/// A 64-bit word rotated left by 29 bits.
pub open spec fn rotl29(x: u64) -> u64 {
    (x << 29u64) | (x >> 35u64)
}

/// One mixing step: the pair folded into the running hash.
pub open spec fn mix(hash: u64, pair: u64) -> u64 {
    rotl29(((hash ^ pair) as u64).wrapping_mul(HASH_MULTIPLIER))
}

/// Two words as the 64-bit value they make in memory, the first in the low half.
pub open spec fn pair_of(first: u32, second: u32) -> u64 {
    (first as u64) | ((second as u64) << 32u64)
}

/// A hasher's state: the running hash and a first word waiting for its partner.
pub type HashState = (u64, Option<u32>);

/// The state a hasher for `count` words starts in.
pub open spec fn initial_state(count: usize) -> HashState {
    ((count as u64).wrapping_mul(HASH_MULTIPLIER), None)
}

/// Feeds one word: it waits for a partner, or completes a pair with the waiting one.
pub open spec fn step(state: HashState, word: u32) -> HashState {
    match state.1 {
        None => (state.0, Some(word)),
        Some(first) => (mix(state.0, pair_of(first, word)), None),
    }
}

/// Feeds words in order.
pub open spec fn feed(state: HashState, words: Seq<u32>) -> HashState
    decreases words.len(),
{
    if words.len() == 0 {
        state
    } else {
        step(feed(state, words.drop_last()), words.last())
    }
}

/// The hash a state ends in: a waiting word is folded in alone, then the halves are folded
/// together.
pub open spec fn finished(state: HashState) -> u64 {
    let hash = match state.1 {
        Some(last) => mix(state.0, last as u64),
        None => state.0,
    };
    hash ^ (hash >> 32u64)
}

/// The content hash of `words`: consecutive pairs folded into a hash seeded by the length.
pub open spec fn spec_content_hash(words: Seq<u32>) -> u64 {
    finished(feed(initial_state(words.len() as usize), words))
}

/// Feeding two runs of words one after the other is feeding them joined.
pub proof fn lemma_feed_joins(state: HashState, first: Seq<u32>, second: Seq<u32>)
    ensures
        feed(feed(state, first), second) == feed(state, first + second),
    decreases second.len(),
{
    if second.len() > 0 {
        lemma_feed_joins(state, first, second.drop_last());
        assert((first + second).drop_last() =~= first + second.drop_last());
        assert((first + second).last() == second.last());
    }
}

/// Streaming gives the same hash however the words are split: a hasher for all the words, fed
/// them as two pieces, finishes with [`content_hash`] of the whole.
pub proof fn lemma_streaming_matches_content_hash(first: Seq<u32>, second: Seq<u32>)
    requires
        first.len() + second.len() <= usize::MAX,
    ensures
        finished(feed(feed(initial_state((first.len() + second.len()) as usize), first), second))
            == spec_content_hash(first + second),
{
    lemma_feed_joins(initial_state((first.len() + second.len()) as usize), first, second);
}

/// A word rotated left by 29 bits.
fn rotate_left_29(x: u64) -> (r: u64)
    ensures
        r == rotl29(x),
{
    (x << 29u64) | (x >> 35u64)
}

/// One mixing step.
fn mix_pair(hash: u64, pair: u64) -> (r: u64)
    ensures
        r == mix(hash, pair),
{
    rotate_left_29((hash ^ pair).wrapping_mul(HASH_MULTIPLIER))
}

/// A content hash of guest words - what a shader or texture is, for recognising it again. A
/// fast, unkeyed hash: every word and the length feed it.
pub fn content_hash(words: &[u32]) -> (r: u64)
    ensures
        r == spec_content_hash(words@),
{
    let mut hasher = ContentHasher::new(words.len());
    let mut i: usize = 0;
    while i < words.len()
        invariant
            i <= words@.len(),
            hasher.state() == feed(initial_state(words@.len() as usize), words@.take(i as int)),
        decreases words@.len() - i,
    {
        proof {
            assert(words@.take(i as int + 1).drop_last() =~= words@.take(i as int));
        }
        hasher.word(words[i]);
        i = i + 1;
    }
    proof {
        assert(words@.take(i as int) =~= words@);
    }
    hasher.finish()
}

/// [`content_hash`], fed a piece at a time, so non-contiguous words such as a pitched texture's
/// rows hash where they lie, to the value their gathered copy would.
#[derive(Debug, Clone, Copy)]
pub struct ContentHasher {
    hash: u64,
    pending: Option<u32>,
}

/// The little-endian words of the whole four-byte groups of `bytes`; a trailing partial word is
/// not one.
pub open spec fn whole_words(bytes: Seq<u8>) -> Seq<u32> {
    Seq::new((bytes.len() / 4) as nat, |i: int| crate::packet::le_word(bytes, 4 * i))
}

impl ContentHasher {
    /// The running hash and the word waiting for its partner.
    pub closed spec fn state(&self) -> HashState {
        (self.hash, self.pending)
    }

    /// A hasher for `words` words in all.
    pub fn new(words: usize) -> (r: Self)
        ensures
            r.state() == initial_state(words),
    {
        ContentHasher { hash: (words as u64).wrapping_mul(HASH_MULTIPLIER), pending: None }
    }

    /// Feeds one word.
    pub fn word(&mut self, word: u32)
        ensures
            final(self).state() == step(old(self).state(), word),
    {
        match self.pending {
            None => {
                self.pending = Some(word);
            },
            Some(first) => {
                let pair = (first as u64) | ((word as u64) << 32u64);
                self.hash = mix_pair(self.hash, pair);
                self.pending = None;
            },
        }
    }

    /// Feeds little-endian words; a trailing partial word is ignored.
    pub fn bytes(&mut self, bytes: &[u8])
        ensures
            final(self).state() == feed(old(self).state(), whole_words(bytes@)),
    {
        let ghost start = self.state();
        let ghost words = whole_words(bytes@);
        let count = bytes.len() / 4;
        let mut i: usize = 0;
        proof {
            assert(words.take(0) =~= Seq::<u32>::empty());
        }
        proof {
            assert(feed(start, words.take(0)) == start);
        }
        if self.pending.is_some() && count > 0 {
            proof {
                assert(words.take(1).drop_last() =~= words.take(0));
                assert(words.take(1).last() == words[0]);
            }
            self.word(word_at(bytes, 0));
            proof {
                assert(feed(start, words.take(0)) == start);
                assert(self.state() == feed(start, words.take(1)));
            }
            i = 1;
        }
        // With no word waiting, whole pairs fold straight into the hash.
        while count - i >= 2
            invariant
                count == words.len(),
                i <= count,
                words == whole_words(bytes@),
                self.state() == feed(start, words.take(i as int)),
                count - i >= 2 ==> self.pending is None,
                self.pending is Some ==> i >= count,
            decreases count - i,
        {
            let first = word_at(bytes, i);
            let second = word_at(bytes, i + 1);
            let pair = (first as u64) | ((second as u64) << 32u64);
            proof {
                let t1 = words.take(i as int + 1);
                let t2 = words.take(i as int + 2);
                assert(t1.drop_last() =~= words.take(i as int));
                assert(t2.drop_last() =~= t1);
                assert(feed(start, t1) == (self.hash, Some(first)));
            }
            self.hash = mix_pair(self.hash, pair);
            i = i + 2;
        }
        if i < count {
            proof {
                assert(words.take(i as int + 1).drop_last() =~= words.take(i as int));
            }
            self.word(word_at(bytes, i));
            i = i + 1;
        }
        proof {
            assert(words.take(i as int) =~= words);
        }
    }

    /// The hash.
    pub fn finish(self) -> (r: u64)
        ensures
            r == finished(self.state()),
    {
        let mut hash = self.hash;
        match self.pending {
            Some(last) => {
                hash = mix_pair(hash, last as u64);
            },
            None => {},
        }
        hash ^ (hash >> 32u64)
    }
}

/// Word `i` of a byte slice, little-endian.
fn word_at(bytes: &[u8], i: usize) -> (r: u32)
    requires
        i < bytes@.len() / 4,
    ensures
        r == whole_words(bytes@)[i as int],
{
    let n = bytes.len();
    let at = 4 * i;
    (bytes[at] as u32) | ((bytes[at + 1] as u32) << 8u32) | ((bytes[at + 2] as u32) << 16u32) | ((
    bytes[at + 3] as u32) << 24u32)
}

/// A rejected argument, as a caller testing `< 0` sees it: the previous generation's dispatch
/// builders are 32-bit calls whose failure is negative.
pub const REJECTED: u64 = 0xFFFF_FFFF_FFFF_FFFF;

/// How many dwords `sceGnmDispatchInitDefaultHardwareState` reserves for the default compute
/// state, and answers.
pub const DEFAULT_HW_STATE_DWORDS: u64 = 0x100;

/// The type-2 filler dword the default compute state is reserved with.
pub const FILLER: u32 = 0x8000_0000;

/// Writes a run of dwords into a guest command buffer, little-endian, one after the other.
pub(crate) fn write_dwords<M: GuestWords>(memory: &mut M, at: u64, dwords: &[u32])
    requires
        4 * dwords@.len() <= u64::MAX,
    ensures
        final(memory).contents() == words_written(
            old(memory).contents(),
            at,
            dwords@,
            dwords@.len(),
        ),
{
    let ghost start = memory.contents();
    let mut i: usize = 0;
    while i < dwords.len()
        invariant
            i <= dwords@.len(),
            4 * dwords@.len() <= u64::MAX,
            memory.contents() == words_written(start, at, dwords@, i as nat),
        decreases dwords@.len() - i,
    {
        memory.write_u32(at.wrapping_add(i as u64 * 4), dwords[i]);
        i = i + 1;
    }
}

/// Whether a command buffer's address can be written through on this machine.
pub open spec fn addressable(cmdbuf: u64) -> bool {
    cmdbuf != 0 && cmdbuf as int <= usize::MAX
}

/// What `sceGnmDispatchInitDefaultHardwareState` answers and leaves: the default compute state
/// reserved as [`DEFAULT_HW_STATE_DWORDS`] type-2 fillers and that count answered, or `0` and
/// nothing written when the buffer is null, unaddressable or smaller than that.
pub open spec fn spec_dispatch_init(m: Map<int, u8>, args: Seq<u64>) -> (u64, Map<int, u8>) {
    if addressable(args[0]) && args[1] >= DEFAULT_HW_STATE_DWORDS {
        (
            DEFAULT_HW_STATE_DWORDS,
            words_written(
                m,
                args[0],
                Seq::new(DEFAULT_HW_STATE_DWORDS as nat, |i: int| FILLER),
                DEFAULT_HW_STATE_DWORDS as nat,
            ),
        )
    } else {
        (0, m)
    }
}

/// `sceGnmDispatchInitDefaultHardwareState(cmdbuf, size_dwords)`: reserves the default compute
/// state. The hardware's own register sequence is not known, so the space holds fillers rather
/// than an invented state, and a count answered always has written dwords behind it.
pub fn dispatch_init_default_hardware_state<M: GuestWords>(
    args: &[u64; GUEST_ARG_REGISTERS],
    memory: &mut M,
) -> (r: u64)
    ensures
        (r, final(memory).contents()) =~~= spec_dispatch_init(old(memory).contents(), args@),
{
    let cmdbuf = args[0];
    let size = args[1];
    if cmdbuf == 0 || size < DEFAULT_HW_STATE_DWORDS {
        return 0;
    }
    if cmdbuf > usize::MAX as u64 {
        return 0;
    }
    let mut fillers: Vec<u32> = Vec::new();
    while fillers.len() < DEFAULT_HW_STATE_DWORDS as usize
        invariant
            fillers@.len() <= DEFAULT_HW_STATE_DWORDS,
            forall|i: int| 0 <= i < fillers@.len() ==> fillers@[i] == FILLER,
        decreases DEFAULT_HW_STATE_DWORDS - fillers@.len(),
    {
        fillers.push(crate::packet::build::filler());
    }
    proof {
        assert(fillers@ =~= Seq::new(DEFAULT_HW_STATE_DWORDS as nat, |i: int| FILLER));
    }
    write_dwords(memory, cmdbuf, fillers.as_slice());
    DEFAULT_HW_STATE_DWORDS
}

/// The five dwords of a direct compute dispatch of `x` by `y` by `z` thread groups.
pub open spec fn dispatch_direct_words(x: u32, y: u32, z: u32) -> Seq<u32> {
    seq![spec_command_header(DISPATCH_DIRECT, 4) | 2u32, x, y, z, 1u32]
}

/// What `sceGnmDispatchDirect` answers and leaves: the five-dword `DISPATCH_DIRECT` packet for
/// arguments two to four written at the buffer and [`OK`] answered, or [`REJECTED`] and nothing
/// written when the buffer is null, unaddressable or holds fewer than five dwords.
pub open spec fn spec_dispatch_direct(m: Map<int, u8>, args: Seq<u64>) -> (u64, Map<int, u8>) {
    if addressable(args[0]) && args[1] >= 5 {
        (
            OK,
            words_written(
                m,
                args[0],
                dispatch_direct_words(args[2] as u32, args[3] as u32, args[4] as u32),
                5,
            ),
        )
    } else {
        (REJECTED, m)
    }
}

/// `sceGnmDispatchDirect(cmdbuf, size_dwords, x, y, z, flags)`: writes a direct compute dispatch
/// of `x` by `y` by `z` thread groups. `flags` is accepted and not modelled, nor is the state the
/// hardware's builder writes around the packet.
pub fn dispatch_direct<M: GuestWords>(args: &[u64; GUEST_ARG_REGISTERS], memory: &mut M) -> (r:
    u64)
    ensures
        (r, final(memory).contents()) =~~= spec_dispatch_direct(old(memory).contents(), args@),
{
    let cmdbuf = args[0];
    let size = args[1];
    let packet = crate::packet::build::dispatch_direct(args[2] as u32, args[3] as u32, args[4] as u32);
    if cmdbuf == 0 || size < 5 {
        return REJECTED;
    }
    if cmdbuf > usize::MAX as u64 {
        return REJECTED;
    }
    write_dwords(memory, cmdbuf, &packet);
    OK
}

/// The previous generation's driver call that answers an implemented name.
#[derive(Debug, Clone, Copy, PartialEq, Eq, Structural)]
pub enum GnmCall {
    /// `sceGnmDispatchInitDefaultHardwareState`.
    DispatchInitDefaultHardwareState,
    /// `sceGnmDispatchDirect`.
    DispatchDirect,
}

impl GnmCall {
    /// Answers the call with `args` over `memory`, as its handler does.
    pub fn answer<M: GuestWords>(self, args: &[u64; GUEST_ARG_REGISTERS], memory: &mut M) -> (r:
        u64)
        ensures
            (r, final(memory).contents()) =~~= (match self {
                GnmCall::DispatchInitDefaultHardwareState => spec_dispatch_init(
                    old(memory).contents(),
                    args@,
                ),
                GnmCall::DispatchDirect => spec_dispatch_direct(old(memory).contents(), args@),
            }),
    {
        match self {
            GnmCall::DispatchInitDefaultHardwareState => dispatch_init_default_hardware_state(
                args,
                memory,
            ),
            GnmCall::DispatchDirect => dispatch_direct(args, memory),
        }
    }
}

/// The command builders this crate implements for the previous generation's driver, by name:
/// they write packets into a guest buffer without touching a GPU.
pub fn implementations() -> (r: [(&'static str, GnmCall); 2])
    ensures
        r@ == seq![
            ("sceGnmDispatchInitDefaultHardwareState", GnmCall::DispatchInitDefaultHardwareState),
            ("sceGnmDispatchDirect", GnmCall::DispatchDirect),
        ],
{
    [
        ("sceGnmDispatchInitDefaultHardwareState", GnmCall::DispatchInitDefaultHardwareState),
        ("sceGnmDispatchDirect", GnmCall::DispatchDirect),
    ]
}


/// The little-endian bytes of `words`, one word after another.
pub open spec fn le_bytes(words: Seq<u32>) -> Seq<u8> {
    Seq::new(4 * words.len(), |i: int| crate::cp::word_byte(words[i / 4], i % 4))
}

/// A word's four little-endian bytes read back are the word.
proof fn lemma_word_bytes_read_back(w: u32)
    ensures
        ((w & 0xFFu32) as u8 as u32) | ((((w >> 8u32) & 0xFFu32) as u8 as u32) << 8u32) | ((((w >> 16u32)
            & 0xFFu32) as u8 as u32) << 16u32) | ((((w >> 24u32) & 0xFFu32) as u8 as u32) << 24u32) == w,
{
    assert(((w & 0xFFu32) as u8 as u32) | ((((w >> 8u32) & 0xFFu32) as u8 as u32) << 8u32) | ((((w >> 16u32)
        & 0xFFu32) as u8 as u32) << 16u32) | ((((w >> 24u32) & 0xFFu32) as u8 as u32) << 24u32) == w)
        by (bit_vector);
}

/// The whole words of words' little-endian bytes are those words: a piece handed over as bytes
/// is the same piece of words.
pub proof fn lemma_whole_words_of_le_bytes(words: Seq<u32>)
    ensures
        whole_words(le_bytes(words)) == words,
{
    let b = le_bytes(words);
    assert forall|i: int| 0 <= i < words.len() implies #[trigger] whole_words(b)[i] == words[i] by {
        assert((4 * i) / 4 == i && (4 * i + 1) / 4 == i && (4 * i + 2) / 4 == i && (4 * i + 3) / 4 == i);
        assert((4 * i) % 4 == 0 && (4 * i + 1) % 4 == 1 && (4 * i + 2) % 4 == 2 && (4 * i + 3) % 4 == 3);
        lemma_word_bytes_read_back(words[i]);
    }
    assert(whole_words(b) =~= words);
}

/// A hasher's state after the words of `piece` were fed one call at a time, first to last.
pub open spec fn stepped(state: HashState, piece: Seq<u32>) -> HashState
    decreases piece.len(),
{
    if piece.len() == 0 {
        state
    } else {
        stepped(step(state, piece[0]), piece.drop_first())
    }
}

/// A hasher's state after one piece was fed: as its little-endian bytes through
/// [`ContentHasher::bytes`] when `as_bytes`, or a word at a time through [`ContentHasher::word`].
pub open spec fn fed_piece(state: HashState, piece: Seq<u32>, as_bytes: bool) -> HashState {
    if as_bytes {
        feed(state, whole_words(le_bytes(piece)))
    } else {
        stepped(state, piece)
    }
}

/// A hasher's state after pieces were fed in order, piece `i` as bytes when `as_bytes[i]`.
pub open spec fn fed_pieces(state: HashState, pieces: Seq<Seq<u32>>, as_bytes: Seq<bool>) -> HashState
    decreases pieces.len(),
{
    if pieces.len() == 0 {
        state
    } else {
        fed_pieces(fed_piece(state, pieces[0], as_bytes[0]), pieces.drop_first(), as_bytes.drop_first())
    }
}

/// Words fed a call at a time are fed in order.
proof fn lemma_stepped_is_fed(state: HashState, piece: Seq<u32>)
    ensures
        stepped(state, piece) == feed(state, piece),
    decreases piece.len(),
{
    if piece.len() > 0 {
        lemma_stepped_is_fed(step(state, piece[0]), piece.drop_first());
        lemma_word_is_a_piece(state, piece[0]);
        lemma_feed_joins(state, seq![piece[0]], piece.drop_first());
        assert(seq![piece[0]] + piece.drop_first() =~= piece);
    }
}

/// Pieces fed either way, one after another, are their words fed in order.
proof fn lemma_fed_pieces_join(state: HashState, pieces: Seq<Seq<u32>>, as_bytes: Seq<bool>)
    requires
        as_bytes.len() == pieces.len(),
    ensures
        fed_pieces(state, pieces, as_bytes) == feed(state, pieces.flatten()),
    decreases pieces.len(),
{
    if pieces.len() > 0 {
        lemma_whole_words_of_le_bytes(pieces[0]);
        lemma_stepped_is_fed(state, pieces[0]);
        lemma_fed_pieces_join(feed(state, pieces[0]), pieces.drop_first(), as_bytes.drop_first());
        lemma_feed_joins(state, pieces[0], pieces.drop_first().flatten());
    }
}

/// Streaming gives the same hash however the words are split: a hasher for all the words, fed
/// them in consecutive pieces of any sizes, each piece either as its little-endian bytes through
/// [`ContentHasher::bytes`] or word by word through [`ContentHasher::word`], finishes with
/// [`content_hash`] of the whole.
pub proof fn lemma_pieces_match_content_hash(pieces: Seq<Seq<u32>>, as_bytes: Seq<bool>)
    requires
        as_bytes.len() == pieces.len(),
        pieces.flatten().len() <= usize::MAX,
    ensures
        finished(fed_pieces(initial_state(pieces.flatten().len() as usize), pieces, as_bytes))
            == spec_content_hash(pieces.flatten()),
{
    lemma_fed_pieces_join(initial_state(pieces.flatten().len() as usize), pieces, as_bytes);
}

/// A hasher's run, step by step: a hasher for all the words goes through `states`, from its first
/// state to its last, each step feeding the next piece - as its little-endian bytes through
/// [`ContentHasher::bytes`] or a word at a time through [`ContentHasher::word`], each call's
/// contract giving the step - and finishes with [`content_hash`] of all the pieces' words. This is
/// the form a loop feeding the pieces keeps as its invariant.
pub proof fn lemma_hasher_run_matches_content_hash(
    pieces: Seq<Seq<u32>>,
    as_bytes: Seq<bool>,
    states: Seq<HashState>,
)
    requires
        as_bytes.len() == pieces.len(),
        states.len() == pieces.len() + 1,
        pieces.flatten().len() <= usize::MAX,
        states[0] == initial_state(pieces.flatten().len() as usize),
        forall|i: int| 0 <= i < pieces.len() ==> #[trigger] states[i + 1] == fed_piece(states[i], pieces[i], as_bytes[i]),
    ensures
        finished(states.last()) == spec_content_hash(pieces.flatten()),
{
    let start = initial_state(pieces.flatten().len() as usize);
    assert forall|n: int| 0 <= n <= pieces.len() implies #[trigger] states[n] == feed(start, pieces.take(n).flatten()) by {
        lemma_run_prefix(pieces, as_bytes, states, start, n);
    }
    assert(pieces.take(pieces.len() as int) =~= pieces);
}

/// The first `n` steps of a run feed the first `n` pieces' words.
proof fn lemma_run_prefix(
    pieces: Seq<Seq<u32>>,
    as_bytes: Seq<bool>,
    states: Seq<HashState>,
    start: HashState,
    n: int,
)
    requires
        as_bytes.len() == pieces.len(),
        states.len() == pieces.len() + 1,
        states[0] == start,
        forall|i: int| 0 <= i < pieces.len() ==> #[trigger] states[i + 1] == fed_piece(states[i], pieces[i], as_bytes[i]),
        0 <= n <= pieces.len(),
    ensures
        states[n] == feed(start, pieces.take(n).flatten()),
    decreases n,
{
    if n == 0 {
        assert(pieces.take(0) =~= Seq::<Seq<u32>>::empty());
        assert(feed(start, Seq::<u32>::empty()) == start);
    } else {
        lemma_run_prefix(pieces, as_bytes, states, start, n - 1);
        let i = n - 1;
        assert(states[i + 1] == fed_piece(states[i], pieces[i], as_bytes[i]));
        lemma_whole_words_of_le_bytes(pieces[i]);
        lemma_stepped_is_fed(states[i], pieces[i]);
        lemma_feed_joins(start, pieces.take(i).flatten(), pieces[i]);
        assert(pieces.take(n) =~= pieces.take(i).push(pieces[i]));
        pieces.take(i).lemma_flatten_push(pieces[i]);
    }
}

/// One word fed alone is that word's step.
pub proof fn lemma_word_is_a_piece(state: HashState, word: u32)
    ensures
        feed(state, seq![word]) == step(state, word),
{
    assert(seq![word].drop_last() =~= Seq::<u32>::empty());
    assert(feed(state, seq![word].drop_last()) == state);
    assert(seq![word].last() == word);
}

} // verus!
