//! Walking a submitted command buffer into packets.
//!
//! A submission is a buffer of dwords for the GPU's command processor. Each packet header says
//! what kind it is and how many dwords follow, so the stream is walked without understanding any
//! command. Unknown packet types are counted and reported, never skipped; a walk that
//! desynchronises says so, and a packet extending past the buffer is reported, not followed.
use vstd::prelude::*;

pub mod build;

verus! {

/// Packet type occupies the top two bits of every header.
pub const TYPE_SHIFT: u32 = 30;
/// Dword count, held one less than the true value.
pub const COUNT_SHIFT: u32 = 16;
/// Mask for the count field.
pub const COUNT_MASK: u32 = 0x3FFF;
/// Type-3 command opcode.
pub const OPCODE_SHIFT: u32 = 8;
/// Mask for the opcode field.
pub const OPCODE_MASK: u32 = 0xFF;
/// Type-0 base register index.
pub const REGISTER_MASK: u32 = 0xFFFF;

/// What kind of packet a header describes.
#[derive(Debug, Clone, Copy, PartialEq, Eq, Structural, PartialOrd, Ord, Hash)]
pub enum PacketKind {
    /// A run of consecutive register writes, starting at a base index.
    RegisterWrite {
        /// First register written.
        base_register: u16,
    },
    /// Filler. Carries no body and exists to pad a buffer.
    Filler,
    /// A command, identified by opcode.
    Command {
        /// Which command.
        opcode: u8,
    },
    /// A header whose type field is reserved: its length is unknown, which makes it a
    /// desynchronising event rather than an unrecognised one.
    Reserved,
}

/// One packet in a submission.
#[derive(Debug, Clone, Copy, PartialEq, Eq, Structural)]
pub struct Packet {
    /// Byte offset within the submitted buffer.
    pub offset: u32,
    /// Total length in bytes, header included.
    pub length: u32,
    /// The header word, kept so a report can quote what was actually seen.
    pub header: u32,
    /// What the header says this is.
    pub kind: PacketKind,
}

impl Packet {
    /// Byte offset of this packet's body.
    pub fn body_offset(&self) -> (r: u32)
        requires
            self.offset <= u32::MAX - 4,
        ensures
            r == self.offset + 4,
    {
        self.offset + 4
    }

    /// Length of the body in bytes.
    pub fn body_length(&self) -> (r: u32)
        ensures
            r == (if self.length >= 4 { self.length - 4 } else { 0 }),
    {
        self.length.saturating_sub(4)
    }
}

/// The result of walking one submission.
#[derive(Debug, Clone, Default)]
pub struct PacketWalk {
    /// Every packet, in order.
    pub packets: Vec<Packet>,
    /// A reserved packet type was encountered, so everything after it is suspect.
    pub desynchronised: bool,
    /// A packet claimed to extend past the end of the buffer.
    pub overran: bool,
    /// Bytes left over that were not a whole dword.
    pub trailing_bytes: usize,
}

/// How many packets of `s` are of kind `kind`.
pub open spec fn count_kind(s: Seq<Packet>, kind: PacketKind) -> nat
    decreases s.len(),
{
    if s.len() == 0 {
        0
    } else {
        count_kind(s.drop_last(), kind) + (if s.last().kind == kind { 1nat } else { 0nat })
    }
}

/// How many command packets of `s` carry `opcode`.
pub open spec fn count_opcode(s: Seq<Packet>, opcode: u8) -> nat {
    count_kind(s, PacketKind::Command { opcode })
}

impl PacketWalk {
    /// Whether this walk can be read as a measurement rather than a lower bound.
    pub open spec fn spec_trustworthy(&self) -> bool {
        !self.desynchronised && !self.overran && self.trailing_bytes == 0
    }

    /// Whether this walk can be read as a measurement rather than a lower bound.
    pub fn is_trustworthy(&self) -> (r: bool)
        ensures
            r == self.spec_trustworthy(),
    {
        !self.desynchronised && !self.overran && self.trailing_bytes == 0
    }

    /// Packets of a given kind.
    pub fn count_of(&self, kind: PacketKind) -> (r: usize)
        ensures
            r == count_kind(self.packets@, kind),
    {
        let mut n: usize = 0;
        let mut i: usize = 0;
        while i < self.packets.len()
            invariant
                i <= self.packets.len(),
                n == count_kind(self.packets@.subrange(0, i as int), kind),
                n <= i,
            decreases self.packets.len() - i,
        {
            proof {
                assert(self.packets@.subrange(0, i as int + 1).drop_last() =~= self.packets@.subrange(0, i as int));
            }
            if self.packets[i].kind == kind {
                n = n + 1;
            }
            i = i + 1;
        }
        proof {
            assert(self.packets@.subrange(0, i as int) =~= self.packets@);
        }
        n
    }

    /// Every distinct command opcode seen, with occurrence counts, in ascending opcode order, so
    /// two walks of the same buffer produce identical reports.
    pub fn command_histogram(&self) -> (r: Vec<(u8, usize)>)
        ensures
            forall|i: int, j: int| 0 <= i < j < r@.len() ==> r@[i].0 < r@[j].0,
            forall|i: int|
                0 <= i < r@.len() ==> r@[i].1 == count_opcode(self.packets@, r@[i].0) && r@[i].1 > 0,
            forall|op: u8|
                count_opcode(self.packets@, op) > 0 ==> exists|i: int| 0 <= i < r@.len() && r@[i].0 == op,
    {
        let mut counts: Vec<usize> = Vec::new();
        let mut k: usize = 0;
        while k < 256
            invariant
                k <= 256,
                counts@.len() == k,
                forall|o: int| 0 <= o < k ==> counts@[o] == 0,
            decreases 256 - k,
        {
            counts.push(0);
            k = k + 1;
        }
        let mut i: usize = 0;
        while i < self.packets.len()
            invariant
                i <= self.packets.len(),
                counts@.len() == 256,
                forall|o: int|
                    0 <= o < 256 ==> counts@[o] == count_opcode(
                        self.packets@.subrange(0, i as int),
                        o as u8,
                    ),
                forall|o: int| 0 <= o < 256 ==> counts@[o] <= i,
            decreases self.packets.len() - i,
        {
            proof {
                assert(self.packets@.subrange(0, i as int + 1).drop_last() =~= self.packets@.subrange(0, i as int));
            }
            let ghost before = counts@;
            match self.packets[i].kind {
                PacketKind::Command { opcode } => {
                    let c = counts[opcode as usize];
                    counts.set(opcode as usize, c + 1);
                },
                _ => {},
            }
            proof {
                assert forall|o: int| 0 <= o < 256 implies counts@[o] == count_opcode(
                    self.packets@.subrange(0, i as int + 1),
                    o as u8,
                ) by {
                    let s = self.packets@.subrange(0, i as int + 1);
                    assert(s.last() == self.packets@[i as int]);
                    assert(o as u8 as int == o);
                }
            }
            i = i + 1;
        }
        proof {
            assert(self.packets@.subrange(0, i as int) =~= self.packets@);
        }
        let mut out: Vec<(u8, usize)> = Vec::new();
        let mut o: usize = 0;
        while o < 256
            invariant
                o <= 256,
                counts@.len() == 256,
                forall|p: int|
                    0 <= p < 256 ==> counts@[p] == count_opcode(self.packets@, p as u8),
                forall|a: int, b: int| 0 <= a < b < out@.len() ==> out@[a].0 < out@[b].0,
                forall|a: int| 0 <= a < out@.len() ==> (out@[a].0 as int) < o,
                forall|a: int|
                    0 <= a < out@.len() ==> out@[a].1 == count_opcode(self.packets@, out@[a].0)
                        && out@[a].1 > 0,
                forall|op: u8|
                    (op as int) < o && #[trigger] count_opcode(self.packets@, op) > 0 ==> exists|a: int|
                        0 <= a < out@.len() && out@[a].0 == op,
            decreases 256 - o,
        {
            let c = counts[o];
            if c > 0 {
                let ghost old_out = out@;
                out.push((o as u8, c));
                proof {
                    assert forall|op: u8|
                        (op as int) < o + 1 && #[trigger] count_opcode(self.packets@, op) > 0 implies exists|a: int|
                        0 <= a < out@.len() && out@[a].0 == op by {
                        if op as int == o {
                            assert(out@[out@.len() - 1].0 == op);
                        } else {
                            let a = choose|a: int| 0 <= a < old_out.len() && old_out[a].0 == op;
                            assert(out@[a] == old_out[a]);
                        }
                    }
                }
            } else {
                proof {
                    assert forall|op: u8|
                        (op as int) < o + 1 && #[trigger] count_opcode(self.packets@, op) > 0 implies exists|a: int|
                        0 <= a < out@.len() && out@[a].0 == op by {
                        if op as int == o {
                            assert(counts@[op as int] == 0);
                        }
                    }
                }
            }
            o = o + 1;
        }
        out
    }
}

/// The smallest a packet can be: a lone header.
pub const MIN_PACKET_BYTES: u32 = 4;

/// The little-endian word at byte `at` of `b`.
pub open spec fn le_word(b: Seq<u8>, at: int) -> u32 {
    (b[at] as u32) | ((b[at + 1] as u32) << 8u32) | ((b[at + 2] as u32) << 16u32) | ((b[at + 3] as u32)
        << 24u32)
}

/// The body dwords a header declares: the count field plus one, except an all-ones count, which is
/// a header-only packet.
pub open spec fn header_body_dwords(header: u32) -> u32 {
    let count = (header >> 16u32) & 0x3FFFu32;
    if count == 0x3FFF {
        0
    } else {
        (count + 1) as u32
    }
}

/// The packet type field of a header.
pub open spec fn header_type(header: u32) -> u32 {
    (header >> 30u32) & 3u32
}

/// What a header says its packet is.
pub open spec fn header_kind(header: u32) -> PacketKind {
    let t = header_type(header);
    if t == 0 {
        PacketKind::RegisterWrite { base_register: (header & 0xFFFFu32) as u16 }
    } else if t == 2 {
        PacketKind::Filler
    } else if t == 3 {
        PacketKind::Command { opcode: ((header >> 8u32) & 0xFFu32) as u8 }
    } else {
        PacketKind::Reserved
    }
}

/// The length in bytes a header gives its packet.
pub open spec fn header_length(header: u32) -> u32 {
    let t = header_type(header);
    if t == 0 || t == 3 {
        (4 + header_body_dwords(header) * 4) as u32
    } else {
        4
    }
}

/// A byte offset as a packet records it: saturated at the largest `u32`.
pub open spec fn recorded_offset(offset: int) -> u32 {
    if offset <= u32::MAX {
        offset as u32
    } else {
        u32::MAX
    }
}

/// The packet whose header starts at byte `offset` of `b`.
pub open spec fn packet_at(b: Seq<u8>, offset: int) -> Packet {
    let header = le_word(b, offset);
    Packet {
        offset: recorded_offset(offset),
        length: header_length(header),
        header,
        kind: header_kind(header),
    }
}

/// The walk of `b` from byte `offset`: the packets found, whether a reserved header was met, and
/// whether a packet overran the buffer.
pub open spec fn walk_from(b: Seq<u8>, offset: int) -> (Seq<Packet>, bool, bool)
    decreases b.len() - offset,
{
    if offset < 0 || offset + 4 > b.len() {
        (Seq::empty(), false, false)
    } else {
        let p = packet_at(b, offset);
        proof {
            lemma_header_fields(le_word(b, offset));
        }
        let reserved = p.kind == PacketKind::Reserved;
        if offset + p.length > b.len() {
            (seq![p], reserved, true)
        } else {
            let rest = walk_from(b, offset + p.length);
            (seq![p] + rest.0, reserved || rest.1, rest.2)
        }
    }
}

/// The header fields stay within their widths, so a packet is at least a header long.
pub proof fn lemma_header_fields(header: u32)
    ensures
        (header >> 16u32) & 0x3FFFu32 <= 0x3FFF,
        header_body_dwords(header) <= 0x3FFF,
        4 <= header_length(header) <= 4 + 4 * 0x3FFF,
        header_type(header) <= 3,
{
    assert((header >> 16u32) & 0x3FFFu32 <= 0x3FFF) by (bit_vector);
    assert((header >> 30u32) & 3u32 <= 3) by (bit_vector);
}

/// Walks a submitted command buffer.
///
/// Never fails. A buffer that cannot be walked is a finding reported through [`PacketWalk`].
pub fn walk(bytes: &[u8]) -> (result: PacketWalk)
    ensures
        result.packets@ == walk_from(bytes@, 0).0,
        result.desynchronised == walk_from(bytes@, 0).1,
        result.overran == walk_from(bytes@, 0).2,
        result.trailing_bytes == bytes@.len() % 4,
{
    let len = bytes.len();
    let mut packets: Vec<Packet> = Vec::new();
    let mut desynchronised = false;
    let mut overran = false;
    let mut offset: usize = 0;
    while !overran && offset <= len && len - offset >= 4
        invariant
            len == bytes@.len(),
            offset <= len,
            !overran ==> packets@ + walk_from(bytes@, offset as int).0 == walk_from(bytes@, 0).0,
            !overran ==> (desynchronised || walk_from(bytes@, offset as int).1) == walk_from(
                bytes@,
                0,
            ).1,
            !overran ==> walk_from(bytes@, offset as int).2 == walk_from(bytes@, 0).2,
            overran ==> packets@ == walk_from(bytes@, 0).0 && desynchronised == walk_from(bytes@, 0).1
                && walk_from(bytes@, 0).2,
        decreases len - offset + (if overran { 0int } else { 1int }),
    {
        let header = (bytes[offset] as u32) | ((bytes[offset + 1] as u32) << 8u32) | ((bytes[offset
            + 2] as u32) << 16u32) | ((bytes[offset + 3] as u32) << 24u32);
        proof {
            lemma_header_fields(header);
        }
        let count = (header >> COUNT_SHIFT) & COUNT_MASK;
        let body_dwords = if count == COUNT_MASK {
            0
        } else {
            count + 1
        };
        let packet_type = (header >> TYPE_SHIFT) & 0x3;
        let (kind, length) = if packet_type == 0 {
            (
                PacketKind::RegisterWrite { base_register: (header & REGISTER_MASK) as u16 },
                4 + body_dwords * 4,
            )
        } else if packet_type == 2 {
            (PacketKind::Filler, MIN_PACKET_BYTES)
        } else if packet_type == 3 {
            (
                PacketKind::Command { opcode: ((header >> OPCODE_SHIFT) & OPCODE_MASK) as u8 },
                4 + body_dwords * 4,
            )
        } else {
            desynchronised = true;
            (PacketKind::Reserved, MIN_PACKET_BYTES)
        };
        let recorded = if offset <= 0xFFFF_FFFF {
            offset as u32
        } else {
            u32::MAX
        };
        let packet = Packet { offset: recorded, length, header, kind };
        proof {
            assert(packet == packet_at(bytes@, offset as int));
        }
        packets.push(packet);
        if length as usize > len - offset {
            overran = true;
            proof {
                assert(packets@ =~= walk_from(bytes@, 0).0);
            }
        } else {
            proof {
                assert(walk_from(bytes@, offset as int).0 =~= seq![packet] + walk_from(
                    bytes@,
                    offset + length,
                ).0);
                assert(packets@ + walk_from(bytes@, offset + length).0 =~= walk_from(bytes@, 0).0);
            }
            offset = offset + length as usize;
        }
    }
    if !overran {
        proof {
            assert(walk_from(bytes@, offset as int).0 =~= Seq::<Packet>::empty());
            assert(packets@ =~= walk_from(bytes@, 0).0);
        }
    }
    PacketWalk { packets, desynchronised, overran, trailing_bytes: len % 4 }
}


/// The bytes a run of packets spans, header and body, one after another.
pub open spec fn total_length(packets: Seq<Packet>) -> int
    decreases packets.len(),
{
    if packets.len() == 0 {
        0
    } else {
        packets[0].length + total_length(packets.drop_first())
    }
}

/// A walk from a word boundary that overran nothing spans exactly the bytes from there on.
proof fn lemma_walk_covers_from(b: Seq<u8>, offset: int)
    requires
        0 <= offset <= b.len(),
        offset % 4 == 0,
        b.len() % 4 == 0,
        !walk_from(b, offset).2,
    ensures
        total_length(walk_from(b, offset).0) == b.len() - offset,
    decreases b.len() - offset,
{
    if offset + 4 <= b.len() {
        let header = le_word(b, offset);
        lemma_header_fields(header);
        let p = packet_at(b, offset);
        assert(p.length % 4 == 0) by {
            assert(header_body_dwords(header) <= 0x3FFF);
        }
        if offset + p.length <= b.len() {
            lemma_walk_covers_from(b, offset + p.length);
            let rest = walk_from(b, offset + p.length).0;
            assert((seq![p] + rest).drop_first() =~= rest);
            assert((seq![p] + rest)[0] == p);
        }
    }
}

/// A trustworthy walk - whole words, nothing overrun - covers the buffer exactly: its packets'
/// lengths add up to the buffer's length, so no byte is left unread or read twice.
pub proof fn lemma_trustworthy_walk_covers(bytes: Seq<u8>)
    requires
        !walk_from(bytes, 0).2,
        bytes.len() % 4 == 0,
    ensures
        total_length(walk_from(bytes, 0).0) == bytes.len(),
{
    lemma_walk_covers_from(bytes, 0);
}

/// The bytes the first `n + 1` packets of a walk span, once the first is followed by `rest`.
proof fn lemma_span_after_first(p: Packet, rest: Seq<Packet>, n: int)
    requires
        0 <= n <= rest.len(),
    ensures
        total_length((seq![p] + rest).take(n + 1)) == p.length + total_length(rest.take(n)),
{
    assert((seq![p] + rest).take(n + 1).drop_first() =~= rest.take(n));
    assert((seq![p] + rest).take(n + 1)[0] == p);
}

/// What a walk's two findings say of its packets: a reserved header was met exactly when a packet
/// is reserved, and a packet overran exactly when one ends past the buffer.
proof fn lemma_walk_findings_from(b: Seq<u8>, offset: int)
    requires
        0 <= offset,
    ensures
        walk_from(b, offset).1 <==> exists|i: int|
            0 <= i < walk_from(b, offset).0.len() && #[trigger] walk_from(b, offset).0[i].kind == PacketKind::Reserved,
        walk_from(b, offset).2 <==> exists|i: int|
            0 <= i < walk_from(b, offset).0.len() && offset + #[trigger] total_length(walk_from(b, offset).0.take(i + 1))
                > b.len(),
    decreases b.len() - offset,
{
    if offset + 4 <= b.len() {
        let header = le_word(b, offset);
        lemma_header_fields(header);
        let p = packet_at(b, offset);
        let w = walk_from(b, offset);
        if offset + p.length > b.len() {
            assert(w.0 == seq![p]);
            lemma_span_after_first(p, Seq::empty(), 0);
            assert(seq![p] + Seq::<Packet>::empty() =~= seq![p]);
            assert(total_length(Seq::<Packet>::empty().take(0)) == 0);
            assert(offset + total_length(w.0.take(1)) > b.len());
            if w.1 {
                assert(w.0[0].kind == PacketKind::Reserved);
            }
        } else {
            let next = offset + p.length;
            lemma_walk_findings_from(b, next);
            let rest = walk_from(b, next);
            assert(w.0 == seq![p] + rest.0);
            if w.1 {
                if p.kind == PacketKind::Reserved {
                    assert(w.0[0].kind == PacketKind::Reserved);
                } else {
                    let j = choose|j: int| 0 <= j < rest.0.len() && #[trigger] rest.0[j].kind == PacketKind::Reserved;
                    assert(w.0[j + 1] == rest.0[j]);
                }
            }
            if exists|i: int| 0 <= i < w.0.len() && #[trigger] w.0[i].kind == PacketKind::Reserved {
                let i = choose|i: int| 0 <= i < w.0.len() && #[trigger] w.0[i].kind == PacketKind::Reserved;
                if i > 0 {
                    assert(rest.0[i - 1] == w.0[i]);
                }
            }
            lemma_span_after_first(p, rest.0, 0);
            assert(total_length(rest.0.take(0)) == 0);
            if w.2 {
                let j = choose|j: int| 0 <= j < rest.0.len() && next + #[trigger] total_length(rest.0.take(j + 1)) > b.len();
                lemma_span_after_first(p, rest.0, j + 1);
                assert(offset + total_length(w.0.take((j + 1) + 1)) > b.len());
            }
            if exists|i: int| 0 <= i < w.0.len() && offset + #[trigger] total_length(w.0.take(i + 1)) > b.len() {
                let i = choose|i: int| 0 <= i < w.0.len() && offset + #[trigger] total_length(w.0.take(i + 1)) > b.len();
                lemma_span_after_first(p, rest.0, i);
                assert(i > 0);
                assert(next + total_length(rest.0.take((i - 1) + 1)) > b.len());
            }
        }
    }
}

/// A walk is trustworthy exactly when the buffer is whole words, no packet is reserved and no packet
/// ends past the buffer - each packet's end being the bytes it and the packets before it span - and
/// then its packets' lengths add up to the buffer's length.
pub proof fn lemma_trustworthy_means_whole_known_packets(bytes: Seq<u8>, walked: PacketWalk)
    requires
        walked.packets@ == walk_from(bytes, 0).0,
        walked.desynchronised == walk_from(bytes, 0).1,
        walked.overran == walk_from(bytes, 0).2,
        walked.trailing_bytes == bytes.len() % 4,
    ensures
        walked.spec_trustworthy() <==> {
            &&& bytes.len() % 4 == 0
            &&& forall|i: int| 0 <= i < walked.packets@.len() ==> #[trigger] walked.packets@[i].kind != PacketKind::Reserved
            &&& forall|i: int|
                0 <= i < walked.packets@.len() ==> #[trigger] total_length(walked.packets@.take(i + 1)) <= bytes.len()
        },
        walked.spec_trustworthy() ==> total_length(walked.packets@) == bytes.len(),
{
    lemma_walk_findings_from(bytes, 0);
    if walked.spec_trustworthy() {
        lemma_trustworthy_walk_covers(bytes);
    }
}

} // verus!
