//! Register writes, and the shader addresses hiding among them.
//!
//! A submission does not contain shaders. It contains *addresses* of shaders, written into
//! hardware registers by ordinary register-write packets.
//!
//! Pulling register writes out of a packet stream is **structural**: a type-0 packet writes
//! consecutive registers from a base in its header, and a `SET_*_REG` packet writes consecutive
//! registers from an index in its first body word. Deciding which register holds which half of
//! which stage's shader address is a **hypothesis**, kept in a [`Vocabulary`] that is data, and
//! what comes out is reported as a *candidate* address rather than as a fact.
use vstd::prelude::*;
use crate::packet::{Packet, PacketKind, PacketWalk};

verus! {

/// One register write observed in a submission.
#[derive(Debug, Clone, Copy, PartialEq, Eq, Structural, PartialOrd, Ord)]
pub struct RegisterWrite {
    /// Byte offset of the packet that wrote it, so a finding can be traced back.
    pub packet_offset: u32,
    /// Register index.
    pub register: u32,
    /// Value written.
    pub value: u32,
}

/// The value of the most recent write to `register` among `writes`, if any.
pub open spec fn latest_value(writes: Seq<RegisterWrite>, register: u32) -> Option<u32>
    decreases writes.len(),
{
    if writes.len() == 0 {
        None
    } else if writes.last().register == register {
        Some(writes.last().value)
    } else {
        latest_value(writes.drop_last(), register)
    }
}

/// The value of the most recent write to `register` among `writes` - the value live after them.
pub fn latest(writes: &[RegisterWrite], register: u32) -> (r: Option<u32>)
    ensures
        r == latest_value(writes@, register),
{
    let mut i = writes.len();
    proof {
        assert(writes@.subrange(0, i as int) =~= writes@);
    }
    while i > 0
        invariant
            i <= writes@.len(),
            latest_value(writes@, register) == latest_value(writes@.subrange(0, i as int), register),
        decreases i,
    {
        proof {
            assert(writes@.subrange(0, i as int).drop_last() =~= writes@.subrange(0, i - 1));
        }
        if writes[i - 1].register == register {
            return Some(writes[i - 1].value);
        }
        i = i - 1;
    }
    None
}

/// The little-endian word at byte `at` of a slice.
pub(crate) fn read_le_word(bytes: &[u8], at: usize) -> (r: u32)
    requires
        at + 4 <= bytes@.len(),
    ensures
        r == crate::packet::le_word(bytes@, at as int),
{
    (bytes[at] as u32) | ((bytes[at + 1] as u32) << 8u32) | ((bytes[at + 2] as u32) << 16u32) | ((
    bytes[at + 3] as u32) << 24u32)
}

/// The body of packet `p` in stream `body`, as the byte range the packet names - `None` when it
/// lies outside the stream.
pub open spec fn body_range(p: Packet, body: Seq<u8>) -> Option<(int, int)> {
    let start = p.offset + 4;
    let length = if p.length >= 4 {
        p.length - 4
    } else {
        0
    };
    if start + length <= body.len() {
        Some((start as int, length as int))
    } else {
        None
    }
}

/// The `i`th whole little-endian word of the `length` bytes at `start`, if it is whole.
pub open spec fn body_word(body: Seq<u8>, start: int, length: int, i: int) -> Option<u32> {
    if 0 <= i && 4 * i + 4 <= length {
        Some(crate::packet::le_word(body, start + 4 * i))
    } else {
        None
    }
}

/// The whole little-endian words of the `length` bytes at `start`.
pub open spec fn body_words(body: Seq<u8>, start: int, length: int) -> Seq<u32> {
    Seq::new((length / 4) as nat, |i: int| crate::packet::le_word(body, start + 4 * i))
}

fn body_word_at(body: &[u8], start: usize, length: usize, i: usize) -> (r: Option<u32>)
    requires
        start + length <= body@.len(),
    ensures
        r == body_word(body@, start as int, length as int, i as int),
{
    let n = body.len();
    if i < length / 4 {
        assert(start + 4 * i + 4 <= n);
        Some(read_le_word(body, start + 4 * i))
    } else {
        None
    }
}

/// Names and mappings for the command stream: opcode names, the base register each
/// register-writing opcode writes from, and which registers carry which half of which stage's
/// shader address.
#[derive(Debug, Clone)]
pub struct Vocabulary {
    /// By opcode: its name, if it has one.
    opcodes: Vec<Option<String>>,
    /// By opcode: the base register it writes from, if it writes registers.
    register_bases: Vec<Option<u32>>,
    /// `(register, stage, is high half)`, ascending by register, one entry per register.
    shader_registers: Vec<(u32, String, bool)>,
}

/// Why a packet vocabulary could not be loaded.
#[derive(Debug)]
pub enum VocabularyError {
    /// The file could not be parsed.
    Malformed(String),
    /// An entry is individually well-formed and means nothing.
    Invalid(String),
}

/// The value the last of `entries` with key `key` gives it, as a map built from them in order
/// holds it.
pub open spec fn entry_for<K, V>(entries: Seq<(K, V)>, key: K) -> Option<V>
    decreases entries.len(),
{
    if entries.len() == 0 {
        None
    } else if entries.last().0 == key {
        Some(entries.last().1)
    } else {
        entry_for(entries.drop_last(), key)
    }
}

/// The shader-address meaning of the last entry naming `register`: its stage and whether it is the
/// high half, when its half reads `"high"`.
pub open spec fn shader_entry_for(entries: Seq<(u32, Seq<char>, bool)>, register: u32) -> Option<
    (Seq<char>, bool),
>
    decreases entries.len(),
{
    if entries.len() == 0 {
        None
    } else if entries.last().0 == register {
        Some((entries.last().1, entries.last().2))
    } else {
        shader_entry_for(entries.drop_last(), register)
    }
}

impl Vocabulary {
    /// The vocabulary is well formed: one slot per opcode, shader registers ascending and unique.
    pub closed spec fn wf(&self) -> bool {
        &&& self.opcodes@.len() == 256
        &&& self.register_bases@.len() == 256
        &&& forall|i: int, j: int|
            0 <= i < j < self.shader_registers@.len() ==> self.shader_registers@[i].0
                < self.shader_registers@[j].0
    }

    /// The name of each opcode that has one.
    pub closed spec fn spec_opcode_name(&self, opcode: u8) -> Option<Seq<char>> {
        match self.opcodes@[opcode as int] {
            Some(name) => Some(name@),
            None => None,
        }
    }

    /// The base register each register-writing opcode writes from.
    pub closed spec fn spec_register_base(&self, opcode: u8) -> Option<u32> {
        self.register_bases@[opcode as int]
    }

    /// What each shader-address register carries: its stage and whether it is the high half.
    pub closed spec fn spec_shader_register(&self, register: u32) -> Option<(Seq<char>, bool)> {
        if exists|i: int|
            0 <= i < self.shader_registers@.len() && self.shader_registers@[i].0 == register {
            let i = choose|i: int|
                0 <= i < self.shader_registers@.len() && self.shader_registers@[i].0 == register;
            Some((self.shader_registers@[i].1@, self.shader_registers@[i].2))
        } else {
            None
        }
    }

    /// Every shader-address register, ascending.
    pub closed spec fn spec_shader_register_ids(&self) -> Seq<u32> {
        self.shader_registers@.map_values(|e: (u32, String, bool)| e.0)
    }

    /// A vocabulary built from its entries, in file order - a later entry for the same opcode or
    /// register replacing an earlier one. Each shader-address entry's half must read `"low"` or
    /// `"high"`: any other value is refused, because a typo would otherwise swap the halves of
    /// every address it touched.
    pub fn from_entries(
        opcodes: Vec<(u8, String)>,
        register_writes: Vec<(u8, u32)>,
        shader_addresses: Vec<(u32, String, String)>,
    ) -> (r: Result<Vocabulary, VocabularyError>)
        ensures
            r is Err <==> exists|i: int|
                0 <= i < shader_addresses@.len() && shader_addresses@[i].2@ != "low"@
                    && shader_addresses@[i].2@ != "high"@,
            r is Ok ==> r->Ok_0.wf(),
            r is Ok ==> forall|op: u8|
                #[trigger] r->Ok_0.spec_opcode_name(op) == entry_for(
                    opcodes@.map_values(|e: (u8, String)| (e.0, e.1@)),
                    op,
                ),
            r is Ok ==> forall|op: u8|
                #[trigger] r->Ok_0.spec_register_base(op) == entry_for(register_writes@, op),
            r is Ok ==> forall|reg: u32|
                #[trigger] r->Ok_0.spec_shader_register(reg) == shader_entry_for(
                    shader_addresses@.map_values(
                        |e: (u32, String, String)| (e.0, e.1@, e.2@ == "high"@),
                    ),
                    reg,
                ),
    {
        proof {
            reveal_strlit("low");
            reveal_strlit("high");
        }
        let low = String::from_str("low");
        let high = String::from_str("high");
        // Shader-address entries first: a bad half refuses the whole vocabulary.
        let mut shader_registers: Vec<(u32, String, bool)> = Vec::new();
        let ghost entries = shader_addresses@.map_values(
            |e: (u32, String, String)| (e.0, e.1@, e.2@ == "high"@),
        );
        let mut i: usize = 0;
        while i < shader_addresses.len()
            invariant
                i <= shader_addresses@.len(),
                low@ == "low"@,
                high@ == "high"@,
                entries == shader_addresses@.map_values(
                    |e: (u32, String, String)| (e.0, e.1@, e.2@ == "high"@),
                ),
                forall|k: int|
                    0 <= k < i ==> shader_addresses@[k].2@ == "low"@ || shader_addresses@[k].2@
                        == "high"@,
                forall|a: int, b: int|
                    0 <= a < b < shader_registers@.len() ==> shader_registers@[a].0
                        < shader_registers@[b].0,
                forall|reg: u32|
                    #[trigger] lists_register(shader_registers@, reg) <==> shader_entry_for(
                        entries.subrange(0, i as int),
                        reg,
                    ) is Some,
                forall|k: int|
                    0 <= k < shader_registers@.len() ==> shader_entry_for(
                        entries.subrange(0, i as int),
                        #[trigger] shader_registers@[k].0,
                    ) == Some((shader_registers@[k].1@, shader_registers@[k].2)),
            decreases shader_addresses@.len() - i,
        {
            let entry = &shader_addresses[i];
            let is_high = if entry.2 == low {
                false
            } else if entry.2 == high {
                true
            } else {
                return Err(VocabularyError::Invalid(describe_invalid_half(entry.0, &entry.2)));
            };
            let ghost before = shader_registers@;
            insert_shader_register(&mut shader_registers, entry.0, entry.1.clone(), is_high);
            proof {
                let sub = entries.subrange(0, i as int + 1);
                assert(sub.drop_last() =~= entries.subrange(0, i as int));
                assert(shader_addresses@[i as int] == *entry);
                assert(entries[i as int] == (entry.0, entry.1@, entry.2@ == "high"@));
                reveal_strlit("low");
                reveal_strlit("high");
                assert("low"@.len() == 3);
                assert("high"@.len() == 4);
                assert(is_high == (entry.2@ == "high"@));
                assert(sub.last() == (entry.0, entry.1@, is_high));
            }
            i = i + 1;
        }
        proof {
            assert(entries.subrange(0, i as int) =~= entries);
        }
        let mut names: Vec<Option<String>> = Vec::new();
        let mut bases: Vec<Option<u32>> = Vec::new();
        let mut k: usize = 0;
        while k < 256
            invariant
                k <= 256,
                names@.len() == k,
                bases@.len() == k,
                forall|o: int| 0 <= o < k ==> names@[o] is None && bases@[o] is None,
            decreases 256 - k,
        {
            names.push(None);
            bases.push(None);
            k = k + 1;
        }
        let ghost named = opcodes@.map_values(|e: (u8, String)| (e.0, e.1@));
        let mut j: usize = 0;
        while j < opcodes.len()
            invariant
                j <= opcodes@.len(),
                names@.len() == 256,
                named == opcodes@.map_values(|e: (u8, String)| (e.0, e.1@)),
                forall|op: u8|
                    match #[trigger] names@[op as int] {
                        Some(n) => entry_for(named.subrange(0, j as int), op) == Some(n@),
                        None => entry_for(named.subrange(0, j as int), op) is None,
                    },
            decreases opcodes@.len() - j,
        {
            let entry = &opcodes[j];
            names.set(entry.0 as usize, Some(entry.1.clone()));
            proof {
                let sub = named.subrange(0, j as int + 1);
                assert(sub.drop_last() =~= named.subrange(0, j as int));
                assert forall|op: u8|
                    match #[trigger] names@[op as int] {
                        Some(n) => entry_for(sub, op) == Some(n@),
                        None => entry_for(sub, op) is None,
                    } by {
                    if op == entry.0 {
                        assert(names@[op as int] == Some(entry.1));
                    }
                }
            }
            j = j + 1;
        }
        proof {
            assert(named.subrange(0, j as int) =~= named);
        }
        let mut j: usize = 0;
        while j < register_writes.len()
            invariant
                j <= register_writes@.len(),
                bases@.len() == 256,
                forall|op: u8|
                    #[trigger] bases@[op as int] == entry_for(
                        register_writes@.subrange(0, j as int),
                        op,
                    ),
            decreases register_writes@.len() - j,
        {
            let entry = register_writes[j];
            bases.set(entry.0 as usize, Some(entry.1));
            proof {
                let sub = register_writes@.subrange(0, j as int + 1);
                assert(sub.drop_last() =~= register_writes@.subrange(0, j as int));
                assert forall|op: u8| #[trigger]
                    bases@[op as int] == entry_for(sub, op) by {
                    if op == entry.0 {
                    }
                }
            }
            j = j + 1;
        }
        proof {
            assert(register_writes@.subrange(0, j as int) =~= register_writes@);
        }
        let vocabulary = Vocabulary { opcodes: names, register_bases: bases, shader_registers };
        proof {
            assert forall|reg: u32| #[trigger]
                vocabulary.spec_shader_register(reg) == shader_entry_for(entries, reg) by {
                assert(vocabulary.shader_registers@ == shader_registers@);
                if lists_register(shader_registers@, reg) {
                    let k = choose|k: int|
                        0 <= k < shader_registers@.len() && shader_registers@[k].0 == reg;
                    assert(shader_entry_for(entries, shader_registers@[k].0) == Some(
                        (shader_registers@[k].1@, shader_registers@[k].2),
                    ));
                    let c = choose|c: int|
                        0 <= c < vocabulary.shader_registers@.len()
                            && vocabulary.shader_registers@[c].0 == reg;
                    if c < k {
                        assert(shader_registers@[c].0 < shader_registers@[k].0);
                    } else if c > k {
                        assert(shader_registers@[k].0 < shader_registers@[c].0);
                    }
                } else {
                    assert(shader_entry_for(entries, reg) is None);
                }
            }
        }
        Ok(vocabulary)
    }

    /// A readable name for a type-3 opcode, or `None` if the table has no entry - a report shows
    /// the raw value for an opcode nobody has named yet rather than an invented name.
    pub fn opcode_name(&self, opcode: u8) -> (r: Option<&str>)
        requires
            self.wf(),
        ensures
            match r {
                Some(name) => self.spec_opcode_name(opcode) == Some(name@),
                None => self.spec_opcode_name(opcode) is None,
            },
    {
        match &self.opcodes[opcode as usize] {
            Some(name) => Some(name.as_str()),
            None => None,
        }
    }

    /// Whether this opcode writes registers, and from what base.
    pub fn register_base(&self, opcode: u8) -> (r: Option<u32>)
        requires
            self.wf(),
        ensures
            r == self.spec_register_base(opcode),
    {
        self.register_bases[opcode as usize]
    }

    /// How many shader address registers are mapped.
    pub fn shader_register_count(&self) -> (r: usize)
        requires
            self.wf(),
        ensures
            r == self.spec_shader_register_ids().len(),
    {
        self.shader_registers.len()
    }

    /// The registers a stage's shader address is written to - every register
    /// [`shader_candidates`] reads - ascending.
    pub fn shader_register_ids(&self) -> (r: Vec<u32>)
        requires
            self.wf(),
        ensures
            r@ == self.spec_shader_register_ids(),
    {
        let mut out: Vec<u32> = Vec::new();
        let mut i: usize = 0;
        while i < self.shader_registers.len()
            invariant
                i <= self.shader_registers@.len(),
                out@ == self.shader_registers@.subrange(0, i as int).map_values(
                    |e: (u32, String, bool)| e.0,
                ),
            decreases self.shader_registers@.len() - i,
        {
            out.push(self.shader_registers[i].0);
            proof {
                assert(self.shader_registers@.subrange(0, i as int + 1).map_values(
                    |e: (u32, String, bool)| e.0,
                ) =~= self.shader_registers@.subrange(0, i as int).map_values(
                    |e: (u32, String, bool)| e.0,
                ).push(self.shader_registers@[i as int].0));
            }
            i = i + 1;
        }
        proof {
            assert(self.shader_registers@.subrange(0, i as int) =~= self.shader_registers@);
        }
        out
    }

    /// Every shader address register, as `(register, stage, is high half)`, ascending by register.
    pub fn shader_registers(&self) -> (r: Vec<(u32, String, bool)>)
        requires
            self.wf(),
        ensures
            r@.len() == self.spec_shader_register_ids().len(),
            forall|i: int|
                0 <= i < r@.len() ==> r@[i].0 == self.spec_shader_register_ids()[i]
                    && self.spec_shader_register(r@[i].0) == Some((r@[i].1@, r@[i].2)),
    {
        let mut out: Vec<(u32, String, bool)> = Vec::new();
        let mut i: usize = 0;
        while i < self.shader_registers.len()
            invariant
                self.wf(),
                i <= self.shader_registers@.len(),
                out@.len() == i,
                forall|k: int|
                    0 <= k < i ==> out@[k].0 == self.shader_registers@[k].0 && out@[k].1@
                        == self.shader_registers@[k].1@ && out@[k].2 == self.shader_registers@[k].2,
            decreases self.shader_registers@.len() - i,
        {
            let entry = &self.shader_registers[i];
            out.push((entry.0, entry.1.clone(), entry.2));
            i = i + 1;
        }
        proof {
            assert forall|k: int| 0 <= k < out@.len() implies out@[k].0
                == self.spec_shader_register_ids()[k] && self.spec_shader_register(out@[k].0) == Some(
                (out@[k].1@, out@[k].2),
            ) by {
                let reg = out@[k].0;
                assert(self.shader_registers@[k].0 == reg);
                let c = choose|c: int|
                    0 <= c < self.shader_registers@.len() && self.shader_registers@[c].0 == reg;
                if c < k {
                    assert(self.shader_registers@[c].0 < self.shader_registers@[k].0);
                } else if c > k {
                    assert(self.shader_registers@[k].0 < self.shader_registers@[c].0);
                }
            }
        }
        out
    }

    /// The register-writing opcode that reaches a given register, and its base: the closest base at
    /// or below the register - the highest opcode among equally close ones - so a register in two
    /// classes' ranges resolves to the nearer one.
    pub fn opcode_for_register(&self, register: u32) -> (r: Option<(u8, u32)>)
        requires
            self.wf(),
        ensures
            r is None <==> forall|op: u8|
                match #[trigger] self.spec_register_base(op) {
                    Some(base) => base > register,
                    None => true,
                },
            r matches Some((op, base)) ==> self.spec_register_base(op) == Some(base) && base
                <= register && forall|o: u8|
                match #[trigger] self.spec_register_base(o) {
                    Some(b) => b <= register ==> b < base || (b == base && o <= op),
                    None => true,
                },
    {
        let mut best: Option<(u8, u32)> = None;
        let mut k: usize = 0;
        while k < 256
            invariant
                self.wf(),
                k <= 256,
                best is None <==> forall|op: u8|
                    (op as int) < k ==> match #[trigger] self.spec_register_base(op) {
                        Some(base) => base > register,
                        None => true,
                    },
                best matches Some((op, base)) ==> (op as int) < k && self.spec_register_base(op)
                    == Some(base) && base <= register && forall|o: u8|
                    (o as int) < k ==> match #[trigger] self.spec_register_base(o) {
                        Some(b) => b <= register ==> b < base || (b == base && o <= op),
                        None => true,
                    },
            decreases 256 - k,
        {
            let op = k as u8;
            proof {
                assert(op as int == k);
            }
            match self.register_bases[k] {
                Some(base) => {
                    if base <= register {
                        let replace = match best {
                            Some((_, current)) => base >= current,
                            None => true,
                        };
                        if replace {
                            best = Some((op, base));
                        }
                    }
                },
                None => {},
            }
            k = k + 1;
        }
        best
    }
}

/// Describes a shader-address entry whose half is neither `"low"` nor `"high"`, naming the register
/// and quoting the half as the file gave it.
#[verifier::external_body]
fn describe_invalid_half(register: u32, half: &String) -> String {
    format!("shader address register {:#x} has half {:?}, expected low or high", register, half)
}

/// Whether a shader-register list has an entry for `register`.
pub open spec fn lists_register(list: Seq<(u32, String, bool)>, register: u32) -> bool {
    exists|k: int| 0 <= k < list.len() && list[k].0 == register
}

/// Inserts one shader-address entry, keeping the list ascending and unique by register: a register
/// already present takes the new meaning.
fn insert_shader_register(
    list: &mut Vec<(u32, String, bool)>,
    register: u32,
    stage: String,
    high: bool,
)
    requires
        forall|a: int, b: int| 0 <= a < b < old(list)@.len() ==> old(list)@[a].0 < old(list)@[b].0,
    ensures
        forall|a: int, b: int| 0 <= a < b < final(list)@.len() ==> final(list)@[a].0 < final(list)@[b].0,
        exists|k: int|
            0 <= k < final(list)@.len() && final(list)@[k].0 == register && final(list)@[k].1@
                == stage@ && final(list)@[k].2 == high,
        forall|reg: u32|
            reg != register ==> (#[trigger] lists_register(final(list)@, reg) <==> lists_register(
                old(list)@,
                reg,
            )),
        forall|k: int|
            0 <= k < final(list)@.len() && final(list)@[k].0 != register ==> exists|j: int|
                0 <= j < old(list)@.len() && old(list)@[j].0 == final(list)@[k].0 && old(list)@[j].1@
                    == final(list)@[k].1@ && old(list)@[j].2 == final(list)@[k].2,
{
    let mut at: usize = 0;
    while at < list.len() && list[at].0 < register
        invariant
            at <= list@.len(),
            forall|a: int| 0 <= a < at ==> list@[a].0 < register,
        decreases list@.len() - at,
    {
        at = at + 1;
    }
    let ghost before = list@;
    if at < list.len() && list[at].0 == register {
        list.set(at, (register, stage, high));
        proof {
            assert forall|reg: u32|
                reg != register implies (#[trigger] lists_register(list@, reg) <==> lists_register(
                before,
                reg,
            )) by {
                if exists|k: int| 0 <= k < before.len() && before[k].0 == reg {
                    let k = choose|k: int| 0 <= k < before.len() && before[k].0 == reg;
                    assert(list@[k].0 == reg);
                }
                if exists|k: int| 0 <= k < list@.len() && list@[k].0 == reg {
                    let k = choose|k: int| 0 <= k < list@.len() && list@[k].0 == reg;
                    assert(before[k].0 == reg);
                }
            }
            assert forall|k: int|
                0 <= k < list@.len() && list@[k].0 != register implies exists|j: int|
                0 <= j < before.len() && before[j].0 == list@[k].0 && before[j].1@ == list@[k].1@
                    && before[j].2 == list@[k].2 by {
                assert(before[k] == list@[k]);
            }
            assert(list@[at as int].0 == register);
        }
    } else {
        list.insert(at, (register, stage, high));
        proof {
            assert forall|a: int, b: int| 0 <= a < b < list@.len() implies list@[a].0 < list@[b].0 by {
                if b < at {
                    assert(list@[a] == before[a] && list@[b] == before[b]);
                } else if b == at {
                    assert(list@[a] == before[a]);
                } else if a == at {
                    assert(list@[b] == before[b - 1]);
                    if b - 1 > at {
                        assert(before[at as int].0 < before[b - 1].0);
                    }
                } else if a < at {
                    assert(list@[a] == before[a] && list@[b] == before[b - 1]);
                    assert(before[a].0 < register);
                    if b - 1 > at {
                        assert(before[at as int].0 < before[b - 1].0);
                    }
                } else {
                    assert(list@[a] == before[a - 1] && list@[b] == before[b - 1]);
                }
            }
            assert forall|reg: u32|
                reg != register implies (#[trigger] lists_register(list@, reg) <==> lists_register(
                before,
                reg,
            )) by {
                if exists|k: int| 0 <= k < before.len() && before[k].0 == reg {
                    let k = choose|k: int| 0 <= k < before.len() && before[k].0 == reg;
                    if k < at {
                        assert(list@[k].0 == reg);
                    } else {
                        assert(list@[k + 1].0 == reg);
                    }
                }
                if exists|k: int| 0 <= k < list@.len() && list@[k].0 == reg {
                    let k = choose|k: int| 0 <= k < list@.len() && list@[k].0 == reg;
                    if k < at {
                        assert(before[k].0 == reg);
                    } else {
                        assert(before[k - 1].0 == reg);
                    }
                }
            }
            assert forall|k: int|
                0 <= k < list@.len() && list@[k].0 != register implies exists|j: int|
                0 <= j < before.len() && before[j].0 == list@[k].0 && before[j].1@ == list@[k].1@
                    && before[j].2 == list@[k].2 by {
                if k < at {
                    assert(before[k] == list@[k]);
                } else {
                    assert(before[k - 1] == list@[k]);
                }
            }
            assert(list@[at as int].0 == register);
        }
    }
}


/// The register writes packet `p` makes, given the stream `body` it sits in: a type-0 packet writes
/// its body to consecutive registers from the base in its header; a register-writing command writes
/// its body after the first word to consecutive registers from its base plus the low sixteen bits
/// of that first word; nothing else writes registers, and neither does a packet whose body lies
/// outside the stream.
pub open spec fn packet_writes(p: Packet, body: Seq<u8>, vocabulary: Vocabulary) -> Seq<RegisterWrite> {
    match body_range(p, body) {
        None => Seq::empty(),
        Some((start, length)) => {
            let words = body_words(body, start, length);
            match p.kind {
                PacketKind::RegisterWrite { base_register } => Seq::new(
                    words.len(),
                    |i: int|
                        RegisterWrite {
                            packet_offset: p.offset,
                            register: (base_register as u32 + i) as u32,
                            value: words[i],
                        },
                ),
                PacketKind::Command { opcode } => match vocabulary.spec_register_base(opcode) {
                    Some(base) => if words.len() == 0 {
                        Seq::empty()
                    } else {
                        Seq::new(
                            (words.len() - 1) as nat,
                            |i: int|
                                RegisterWrite {
                                    packet_offset: p.offset,
                                    register: base.wrapping_add(words[0] & 0xffffu32).wrapping_add(
                                        i as u32,
                                    ),
                                    value: words[i + 1],
                                },
                        )
                    },
                    None => Seq::empty(),
                },
                _ => Seq::empty(),
            }
        },
    }
}

/// Every register write the packets make, in packet order.
pub open spec fn all_writes(packets: Seq<Packet>, body: Seq<u8>, vocabulary: Vocabulary) -> Seq<
    RegisterWrite,
>
    decreases packets.len(),
{
    if packets.len() == 0 {
        Seq::empty()
    } else {
        all_writes(packets.drop_last(), body, vocabulary) + packet_writes(
            packets.last(),
            body,
            vocabulary,
        )
    }
}

/// Every packet's body offset is representable.
pub open spec fn offsets_representable(walk: &PacketWalk) -> bool {
    forall|i: int| 0 <= i < walk.packets@.len() ==> #[trigger] walk.packets@[i].offset <= u32::MAX - 4
}

/// The byte range of a packet's body within the stream, if it lies inside it.
fn packet_body(packet: &Packet, body: &[u8]) -> (r: Option<(usize, usize)>)
    requires
        packet.offset <= u32::MAX - 4,
    ensures
        match r {
            Some((start, length)) => body_range(*packet, body@) == Some((start as int, length as int)),
            None => body_range(*packet, body@) is None,
        },
{
    let start = packet.body_offset() as usize;
    let length = packet.body_length() as usize;
    let n = body.len();
    if start <= n && length <= n - start {
        Some((start, length))
    } else {
        None
    }
}

/// Pulls every register write out of a walked submission, in order.
///
/// `body` is the full submitted buffer, needed because a packet's values live after its header and
/// [`PacketWalk`] records positions rather than copying them.
pub fn register_writes(walk: &PacketWalk, body: &[u8], vocabulary: &Vocabulary) -> (r: Vec<
    RegisterWrite,
>)
    requires
        vocabulary.wf(),
        offsets_representable(walk),
    ensures
        r@ == all_writes(walk.packets@, body@, *vocabulary),
{
    let mut writes: Vec<RegisterWrite> = Vec::new();
    let blen = body.len();
    let mut k: usize = 0;
    while k < walk.packets.len()
        invariant
            blen == body@.len(),
            vocabulary.wf(),
            offsets_representable(walk),
            k <= walk.packets@.len(),
            writes@ == all_writes(walk.packets@.subrange(0, k as int), body@, *vocabulary),
        decreases walk.packets@.len() - k,
    {
        let packet = &walk.packets[k];
        let ghost before = writes@;
        let ghost expected = packet_writes(*packet, body@, *vocabulary);
        proof {
            let sub = walk.packets@.subrange(0, k as int + 1);
            assert(sub.drop_last() =~= walk.packets@.subrange(0, k as int));
            assert(sub.last() == *packet);
            assert(walk.packets@[k as int].offset <= u32::MAX - 4);
        }
        match packet_body(packet, body) {
            None => {
                proof {
                    assert(expected =~= Seq::<RegisterWrite>::empty());
                    assert(writes@ =~= before + expected);
                }
            },
            Some((start, length)) => {
                let count = length / 4;
                match packet.kind {
                    PacketKind::RegisterWrite { base_register } => {
                        let mut i: usize = 0;
                        while i < count
                            invariant
                                i <= count,
                                count == length / 4,
                                start + length <= body@.len(),
                                blen == body@.len(),
                                body_range(*packet, body@) == Some((start as int, length as int)),
                                packet.kind == (PacketKind::RegisterWrite { base_register }),
                                expected == packet_writes(*packet, body@, *vocabulary),
                                writes@ == before + expected.subrange(0, i as int),
                            decreases count - i,
                        {
                            let value = read_le_word(body, start + 4 * i);
                            writes.push(
                                RegisterWrite {
                                    packet_offset: packet.offset,
                                    register: base_register as u32 + i as u32,
                                    value,
                                },
                            );
                            proof {
                                assert(expected.subrange(0, i as int + 1) =~= expected.subrange(
                                    0,
                                    i as int,
                                ).push(expected[i as int]));
                            }
                            i = i + 1;
                        }
                        proof {
                            assert(expected.subrange(0, i as int) =~= expected);
                        }
                    },
                    PacketKind::Command { opcode } => {
                        match vocabulary.register_base(opcode) {
                            None => {
                                proof {
                                    assert(expected =~= Seq::<RegisterWrite>::empty());
                                    assert(writes@ =~= before + expected);
                                }
                            },
                            Some(base) => {
                                if count == 0 {
                                    proof {
                                        assert(expected =~= Seq::<RegisterWrite>::empty());
                                        assert(writes@ =~= before + expected);
                                    }
                                } else {
                                    let first = read_le_word(body, start) & 0xffffu32;
                                    let mut i: usize = 1;
                                    proof {
                                        assert(expected.subrange(0, 0) =~= Seq::<RegisterWrite>::empty());
                                        assert(writes@ =~= before + expected.subrange(0, 0));
                                    }
                                    while i < count
                                        invariant
                                            1 <= i <= count,
                                            count == length / 4,
                                            start + length <= body@.len(),
                                            blen == body@.len(),
                                blen == body@.len(),
                                            body_range(*packet, body@) == Some((start as int, length as int)),
                                            packet.kind == (PacketKind::Command { opcode }),
                                            vocabulary.spec_register_base(opcode) == Some(base),
                                            first == crate::packet::le_word(body@, start as int) & 0xffffu32,
                                            expected == packet_writes(*packet, body@, *vocabulary),
                                            writes@ == before + expected.subrange(0, i - 1),
                                        decreases count - i,
                                    {
                                        let value = read_le_word(body, start + 4 * i);
                                        writes.push(
                                            RegisterWrite {
                                                packet_offset: packet.offset,
                                                register: base.wrapping_add(first).wrapping_add(
                                                    (i - 1) as u32,
                                                ),
                                                value,
                                            },
                                        );
                                        proof {
                                            assert(expected.subrange(0, i as int) =~= expected.subrange(
                                                0,
                                                i - 1,
                                            ).push(expected[i - 1]));
                                        }
                                        i = i + 1;
                                    }
                                    proof {
                                        assert(expected.subrange(0, i - 1) =~= expected);
                                    }
                                }
                            },
                        }
                    },
                    _ => {
                        proof {
                            assert(expected =~= Seq::<RegisterWrite>::empty());
                            assert(writes@ =~= before + expected);
                        }
                    },
                }
            },
        }
        k = k + 1;
    }
    proof {
        assert(walk.packets@.subrange(0, k as int) =~= walk.packets@);
    }
    writes
}


/// A shader address recovered from a pair of register writes - a candidate rather than an
/// address, because the register mapping it rests on is unverified.
#[derive(Debug, Clone, PartialEq, Eq)]
pub struct ShaderCandidate {
    /// Pipeline stage the mapping attributes it to. Reported, never dispatched on.
    pub stage: String,
    /// The reassembled address.
    pub address: u64,
    /// Where the low half was written.
    pub packet_offset: u32,
}

/// Whether byte string `a` sorts strictly before `b`, comparing bytes from the first and a proper
/// prefix first - the order strings sort in.
pub open spec fn bytes_less(a: Seq<u8>, b: Seq<u8>) -> bool {
    exists|i: int|
        0 <= i <= a.len() && i <= b.len() && a.subrange(0, i) == b.subrange(0, i) && ((i == a.len()
            && i < b.len()) || (i < a.len() && i < b.len() && a[i] < b[i]))
}

/// The bytes a stage name sorts by: its UTF-8 encoding.
pub open spec fn stage_key(stage: Seq<char>) -> Seq<u8> {
    vstd::utf8::encode_utf8(stage)
}

proof fn lemma_bytes_less_irreflexive(a: Seq<u8>, b: Seq<u8>)
    requires
        bytes_less(a, b),
    ensures
        a != b,
        !bytes_less(b, a),
{
    let i = choose|i: int|
        0 <= i <= a.len() && i <= b.len() && a.subrange(0, i) == b.subrange(0, i) && ((i == a.len()
            && i < b.len()) || (i < a.len() && i < b.len() && a[i] < b[i]));
    if bytes_less(b, a) {
        let j = choose|j: int|
            0 <= j <= b.len() && j <= a.len() && b.subrange(0, j) == a.subrange(0, j) && ((j
                == b.len() && j < a.len()) || (j < b.len() && j < a.len() && b[j] < a[j]));
        if i < j {
            assert(b.subrange(0, j)[i] == a.subrange(0, j)[i]);
        } else if j < i {
            assert(b.subrange(0, i)[j] == a.subrange(0, i)[j]);
        }
    }
}

proof fn lemma_bytes_less_transitive(a: Seq<u8>, b: Seq<u8>, c: Seq<u8>)
    requires
        bytes_less(a, b),
        bytes_less(b, c),
    ensures
        bytes_less(a, c),
{
    let i = choose|i: int|
        0 <= i <= a.len() && i <= b.len() && a.subrange(0, i) == b.subrange(0, i) && ((i == a.len()
            && i < b.len()) || (i < a.len() && i < b.len() && a[i] < b[i]));
    let j = choose|j: int|
        0 <= j <= b.len() && j <= c.len() && b.subrange(0, j) == c.subrange(0, j) && ((j == b.len()
            && j < c.len()) || (j < b.len() && j < c.len() && b[j] < c[j]));
    if i < j {
        assert(a.subrange(0, i) =~= c.subrange(0, i)) by {
            assert forall|k: int| 0 <= k < i implies #[trigger] a.subrange(0, i)[k] == c.subrange(0, i)[k] by {
                assert(a.subrange(0, i)[k] == b.subrange(0, i)[k]);
                assert(b.subrange(0, j)[k] == c.subrange(0, j)[k]);
            }
        }
        assert(b.subrange(0, j)[i] == c.subrange(0, j)[i]);
    } else if j < i {
        assert(a.subrange(0, j) =~= c.subrange(0, j)) by {
            assert forall|k: int| 0 <= k < j implies #[trigger] a.subrange(0, j)[k] == c.subrange(0, j)[k] by {
                assert(a.subrange(0, i)[k] == b.subrange(0, i)[k]);
                assert(b.subrange(0, j)[k] == c.subrange(0, j)[k]);
            }
        }
        assert(a.subrange(0, i)[j] == b.subrange(0, i)[j]);
    } else {
        assert(a.subrange(0, i) =~= c.subrange(0, i)) by {
            assert forall|k: int| 0 <= k < i implies #[trigger] a.subrange(0, i)[k] == c.subrange(0, i)[k] by {
                assert(a.subrange(0, i)[k] == b.subrange(0, i)[k]);
                assert(b.subrange(0, j)[k] == c.subrange(0, j)[k]);
            }
        }
    }
}

/// Which way two byte strings sort.
pub enum Rank {
    /// The first sorts before the second.
    Before,
    /// They are equal.
    Same,
    /// The first sorts after the second.
    After,
}

fn compare_bytes(a: &[u8], b: &[u8]) -> (r: Rank)
    ensures
        r is Same <==> a@ == b@,
        r is Before <==> bytes_less(a@, b@),
        r is After <==> bytes_less(b@, a@),
{
    let mut i: usize = 0;
    while i < a.len() && i < b.len()
        invariant
            i <= a@.len(),
            i <= b@.len(),
            a@.subrange(0, i as int) == b@.subrange(0, i as int),
        decreases a@.len() - i,
    {
        if a[i] < b[i] {
            proof {
                assert(bytes_less(a@, b@));
                lemma_bytes_less_irreflexive(a@, b@);
            }
            return Rank::Before;
        }
        if a[i] > b[i] {
            proof {
                assert(b@.subrange(0, i as int) == a@.subrange(0, i as int));
                assert(bytes_less(b@, a@));
                lemma_bytes_less_irreflexive(b@, a@);
            }
            return Rank::After;
        }
        proof {
            assert(a@.subrange(0, i + 1) =~= b@.subrange(0, i + 1)) by {
                assert forall|k: int| 0 <= k < i + 1 implies #[trigger] a@.subrange(0, i + 1)[k] == b@.subrange(
                    0,
                    i + 1,
                )[k] by {
                    if k < i {
                        assert(a@.subrange(0, i as int)[k] == b@.subrange(0, i as int)[k]);
                    }
                }
            }
        }
        i = i + 1;
    }
    if a.len() < b.len() {
        proof {
            assert(bytes_less(a@, b@));
            lemma_bytes_less_irreflexive(a@, b@);
        }
        Rank::Before
    } else if b.len() < a.len() {
        proof {
            assert(b@.subrange(0, i as int) == a@.subrange(0, i as int));
            assert(bytes_less(b@, a@));
            lemma_bytes_less_irreflexive(b@, a@);
        }
        Rank::After
    } else {
        proof {
            assert(a@.subrange(0, i as int) =~= a@);
            assert(b@.subrange(0, i as int) =~= b@);
            if bytes_less(a@, b@) {
                lemma_bytes_less_irreflexive(a@, b@);
            }
            if bytes_less(b@, a@) {
                lemma_bytes_less_irreflexive(b@, a@);
            }
        }
        Rank::Same
    }
}

proof fn lemma_stage_key_injective(s: Seq<char>, t: Seq<char>)
    requires
        stage_key(s) == stage_key(t),
    ensures
        s == t,
{
    vstd::utf8::encode_utf8_decode_utf8(s);
    vstd::utf8::encode_utf8_decode_utf8(t);
}

fn key_of(stage: &String) -> (r: &[u8])
    ensures
        r@ == stage_key(stage@),
{
    stage.as_str().as_bytes()
}

/// The most recent write among `writes` to a register the vocabulary maps to `stage`'s low half
/// (`high` false) or high half (`high` true).
pub open spec fn last_half(
    writes: Seq<RegisterWrite>,
    vocabulary: Vocabulary,
    stage: Seq<char>,
    high: bool,
) -> Option<RegisterWrite>
    decreases writes.len(),
{
    if writes.len() == 0 {
        None
    } else if vocabulary.spec_shader_register(writes.last().register) == Some((stage, high)) {
        Some(writes.last())
    } else {
        last_half(writes.drop_last(), vocabulary, stage, high)
    }
}

/// A shader address from its register halves: the registers hold it in 256-byte units.
pub open spec fn candidate_address(low: u32, high: u32) -> u64 {
    (((high as u64) << 32u64) | (low as u64)) << 8u64
}

/// Whether the candidates are exactly the stages with both halves written, one each, in stage
/// order, each from the most recent write to each half.
pub open spec fn candidates_of(
    r: Seq<ShaderCandidate>,
    writes: Seq<RegisterWrite>,
    vocabulary: Vocabulary,
) -> bool {
    &&& forall|i: int, j: int|
        0 <= i < j < r.len() ==> bytes_less(stage_key(r[i].stage@), stage_key(r[j].stage@))
    &&& forall|i: int|
        #![trigger r[i]]
        0 <= i < r.len() ==> {
            let low = last_half(writes, vocabulary, r[i].stage@, false);
            let high = last_half(writes, vocabulary, r[i].stage@, true);
            &&& low is Some
            &&& high is Some
            &&& r[i].address == candidate_address(low->0.value, high->0.value)
            &&& r[i].packet_offset == low->0.packet_offset
        }
    &&& forall|stage: Seq<char>|
        #[trigger] last_half(writes, vocabulary, stage, false) is Some && last_half(
            writes,
            vocabulary,
            stage,
            true,
        ) is Some ==> exists|i: int| 0 <= i < r.len() && r[i].stage@ == stage
}

impl Vocabulary {
    /// The stage and half a register carries, if it is a shader-address register.
    fn shader_register_of(&self, register: u32) -> (r: Option<(&String, bool)>)
        requires
            self.wf(),
        ensures
            match r {
                Some((stage, high)) => self.spec_shader_register(register) == Some((stage@, high)),
                None => self.spec_shader_register(register) is None,
            },
    {
        let mut i: usize = 0;
        while i < self.shader_registers.len()
            invariant
                self.wf(),
                i <= self.shader_registers@.len(),
                forall|k: int| 0 <= k < i ==> self.shader_registers@[k].0 != register,
            decreases self.shader_registers@.len() - i,
        {
            if self.shader_registers[i].0 == register {
                proof {
                    let c = choose|c: int|
                        0 <= c < self.shader_registers@.len() && self.shader_registers@[c].0
                            == register;
                    if c < i {
                    } else if c > i {
                        assert(self.shader_registers@[i as int].0 < self.shader_registers@[c].0);
                    }
                }
                return Some((&self.shader_registers[i].1, self.shader_registers[i].2));
            }
            i = i + 1;
        }
        None
    }
}

/// The stage groups a shader-candidate search keeps: each stage's name, its low half's value and
/// offset, and its high half's value.
pub type StageHalves = Vec<(String, Option<(u32, u32)>, Option<u32>)>;

/// The groups are strictly ascending by stage name.
pub open spec fn halves_sorted(halves: Seq<(String, Option<(u32, u32)>, Option<u32>)>) -> bool {
    forall|a: int, b: int|
        0 <= a < b < halves.len() ==> bytes_less(stage_key(halves[a].0@), stage_key(halves[b].0@))
}

/// Where a stage's group is (`Ok`), or where it belongs (`Err`).
fn find_stage(halves: &StageHalves, key: &[u8]) -> (r: Result<usize, usize>)
    requires
        halves_sorted(halves@),
    ensures
        r matches Ok(i) ==> i < halves@.len() && stage_key(halves@[i as int].0@) == key@,
        r matches Err(i) ==> i <= halves@.len() && (forall|a: int|
            0 <= a < i ==> bytes_less(stage_key(halves@[a].0@), key@)) && (forall|a: int|
            i <= a < halves@.len() ==> bytes_less(key@, stage_key(halves@[a].0@))),
{
    let mut at: usize = 0;
    while at < halves.len()
        invariant
            halves_sorted(halves@),
            at <= halves@.len(),
            forall|a: int| 0 <= a < at ==> bytes_less(stage_key(halves@[a].0@), key@),
        decreases halves@.len() - at,
    {
        match compare_bytes(key_of(&halves[at].0), key) {
            Rank::Before => {},
            Rank::Same => {
                return Ok(at);
            },
            Rank::After => {
                proof {
                    assert forall|a: int| at <= a < halves@.len() implies bytes_less(
                        key@,
                        stage_key(halves@[a].0@),
                    ) by {
                        if a > at {
                            lemma_bytes_less_transitive(
                                key@,
                                stage_key(halves@[at as int].0@),
                                stage_key(halves@[a].0@),
                            );
                        }
                    }
                }
                return Err(at);
            },
        }
        at = at + 1;
    }
    Err(at)
}

/// The groups after a prefix of the writes: each group's halves are the most recent writes to that
/// stage's halves, and every stage with a half written has a group.
pub open spec fn halves_track(
    halves: Seq<(String, Option<(u32, u32)>, Option<u32>)>,
    prefix: Seq<RegisterWrite>,
    vocabulary: Vocabulary,
) -> bool {
    &&& forall|a: int|
        #![trigger halves[a]]
        0 <= a < halves.len() ==> {
            &&& halves[a].1 == match last_half(prefix, vocabulary, halves[a].0@, false) {
                Some(w) => Some((w.value, w.packet_offset)),
                None => None,
            }
            &&& halves[a].2 == match last_half(prefix, vocabulary, halves[a].0@, true) {
                Some(w) => Some(w.value),
                None => None,
            }
        }
    &&& forall|stage: Seq<char>|
        (#[trigger] last_half(prefix, vocabulary, stage, false) is Some || last_half(
            prefix,
            vocabulary,
            stage,
            true,
        ) is Some) ==> exists|a: int| 0 <= a < halves.len() && halves[a].0@ == stage
}

proof fn lemma_sorted_distinct(halves: Seq<(String, Option<(u32, u32)>, Option<u32>)>, a: int, b: int)
    requires
        halves_sorted(halves),
        0 <= a < halves.len(),
        0 <= b < halves.len(),
        a != b,
    ensures
        halves[a].0@ != halves[b].0@,
{
    if a < b {
        lemma_bytes_less_irreflexive(stage_key(halves[a].0@), stage_key(halves[b].0@));
    } else {
        lemma_bytes_less_irreflexive(stage_key(halves[b].0@), stage_key(halves[a].0@));
    }
}

/// Records one shader-address write in the stage groups.
fn record_half(
    halves: &mut StageHalves,
    write: RegisterWrite,
    stage: &String,
    is_high: bool,
    Ghost(prefix): Ghost<Seq<RegisterWrite>>,
    Ghost(vocabulary): Ghost<Vocabulary>,
)
    requires
        halves_sorted(old(halves)@),
        halves_track(old(halves)@, prefix, vocabulary),
        vocabulary.spec_shader_register(write.register) == Some((stage@, is_high)),
    ensures
        halves_sorted(final(halves)@),
        halves_track(final(halves)@, prefix.push(write), vocabulary),
{
    let ghost next = prefix.push(write);
    proof {
        assert(next.drop_last() =~= prefix);
        assert(next.last() == write);
    }
    let key = key_of(stage);
    let ghost old_halves = halves@;
    match find_stage(halves, key) {
        Ok(i) => {
            proof {
                lemma_stage_key_injective(halves@[i as int].0@, stage@);
            }
            let name = halves[i].0.clone();
            let low = if is_high {
                halves[i].1
            } else {
                Some((write.value, write.packet_offset))
            };
            let high = if is_high {
                Some(write.value)
            } else {
                halves[i].2
            };
            halves.set(i, (name, low, high));
            proof {
                assert forall|a: int| 0 <= a < halves@.len() && a != i implies halves@[a].0@
                    != stage@ by {
                    lemma_sorted_distinct(old_halves, a, i as int);
                }
                assert forall|stage2: Seq<char>|
                    (#[trigger] last_half(next, vocabulary, stage2, false) is Some || last_half(
                        next,
                        vocabulary,
                        stage2,
                        true,
                    ) is Some) implies exists|a: int|
                    0 <= a < halves@.len() && halves@[a].0@ == stage2 by {
                    if stage2 == stage@ {
                        assert(halves@[i as int].0@ == stage2);
                    } else {
                        assert(last_half(prefix, vocabulary, stage2, false) is Some || last_half(
                            prefix,
                            vocabulary,
                            stage2,
                            true,
                        ) is Some);
                        let a = choose|a: int|
                            0 <= a < old_halves.len() && old_halves[a].0@ == stage2;
                        assert(halves@[a].0@ == stage2);
                    }
                }
            }
        },
        Err(p) => {
            proof {
                if last_half(prefix, vocabulary, stage@, false) is Some || last_half(
                    prefix,
                    vocabulary,
                    stage@,
                    true,
                ) is Some {
                    let a = choose|a: int| 0 <= a < old_halves.len() && old_halves[a].0@ == stage@;
                    if a < p {
                        lemma_bytes_less_irreflexive(stage_key(old_halves[a].0@), key@);
                    } else {
                        lemma_bytes_less_irreflexive(key@, stage_key(old_halves[a].0@));
                    }
                }
            }
            let low = if is_high {
                None
            } else {
                Some((write.value, write.packet_offset))
            };
            let high = if is_high {
                Some(write.value)
            } else {
                None
            };
            halves.insert(p, (stage.clone(), low, high));
            proof {
                assert forall|a: int, b: int| 0 <= a < b < halves@.len() implies bytes_less(
                    stage_key(halves@[a].0@),
                    stage_key(halves@[b].0@),
                ) by {
                    if b < p {
                        assert(halves@[a] == old_halves[a] && halves@[b] == old_halves[b]);
                    } else if b == p {
                        assert(halves@[a] == old_halves[a]);
                    } else if a == p {
                        assert(halves@[b] == old_halves[b - 1]);
                    } else if a < p {
                        assert(halves@[a] == old_halves[a] && halves@[b] == old_halves[b - 1]);
                    } else {
                        assert(halves@[a] == old_halves[a - 1] && halves@[b] == old_halves[b - 1]);
                    }
                }
                assert forall|a: int| 0 <= a < halves@.len() && a != p implies halves@[a].0@
                    != stage@ by {
                    if a < p {
                        assert(halves@[a] == old_halves[a]);
                        lemma_bytes_less_irreflexive(stage_key(old_halves[a].0@), key@);
                    } else {
                        assert(halves@[a] == old_halves[a - 1]);
                        lemma_bytes_less_irreflexive(key@, stage_key(old_halves[a - 1].0@));
                    }
                }
                assert forall|a: int| 0 <= a < halves@.len() implies {
                    &&& halves@[a].1 == match last_half(next, vocabulary, halves@[a].0@, false) {
                        Some(w) => Some((w.value, w.packet_offset)),
                        None => None,
                    }
                    &&& halves@[a].2 == match last_half(next, vocabulary, halves@[a].0@, true) {
                        Some(w) => Some(w.value),
                        None => None,
                    }
                } by {
                    if a < p {
                        assert(halves@[a] == old_halves[a]);
                    } else if a > p {
                        assert(halves@[a] == old_halves[a - 1]);
                    }
                }
                assert forall|stage2: Seq<char>|
                    (#[trigger] last_half(next, vocabulary, stage2, false) is Some || last_half(
                        next,
                        vocabulary,
                        stage2,
                        true,
                    ) is Some) implies exists|a: int|
                    0 <= a < halves@.len() && halves@[a].0@ == stage2 by {
                    if stage2 == stage@ {
                        assert(halves@[p as int].0@ == stage2);
                    } else {
                        assert(last_half(prefix, vocabulary, stage2, false) is Some || last_half(
                            prefix,
                            vocabulary,
                            stage2,
                            true,
                        ) is Some);
                        let a = choose|a: int|
                            0 <= a < old_halves.len() && old_halves[a].0@ == stage2;
                        if a < p {
                            assert(halves@[a].0@ == stage2);
                        } else {
                            assert(halves@[a + 1].0@ == stage2);
                        }
                    }
                }
            }
        },
    }
}

/// Reassembles shader addresses from register writes.
///
/// An address needs both halves: a stage with only one half seen is **skipped rather than
/// half-formed**, since an address missing its high word would look like an ordinary low address.
/// Later writes win, because a submission legitimately rebinds a stage several times. Stages come
/// out in the order their names sort.
pub fn shader_candidates(writes: &[RegisterWrite], vocabulary: &Vocabulary) -> (r: Vec<ShaderCandidate>)
    requires
        vocabulary.wf(),
    ensures
        candidates_of(r@, writes@, *vocabulary),
{
    let mut halves: StageHalves = Vec::new();
    let mut k: usize = 0;
    while k < writes.len()
        invariant
            vocabulary.wf(),
            k <= writes@.len(),
            halves_sorted(halves@),
            halves_track(halves@, writes@.subrange(0, k as int), *vocabulary),
        decreases writes@.len() - k,
    {
        let write = writes[k];
        let ghost prefix = writes@.subrange(0, k as int);
        proof {
            assert(writes@.subrange(0, k as int + 1) =~= prefix.push(write));
        }
        match vocabulary.shader_register_of(write.register) {
            None => {
                proof {
                    let next = prefix.push(write);
                    assert(next.drop_last() =~= prefix);
                    assert(forall|stage: Seq<char>, high: bool|
                        #[trigger] last_half(next, *vocabulary, stage, high) == last_half(
                            prefix,
                            *vocabulary,
                            stage,
                            high,
                        ));
                }
            },
            Some((stage, is_high)) => {
                record_half(&mut halves, write, stage, is_high, Ghost(prefix), Ghost(*vocabulary));
            },
        }
        k = k + 1;
    }
    proof {
        assert(writes@.subrange(0, k as int) =~= writes@);
    }
    let mut out: Vec<ShaderCandidate> = Vec::new();
    let ghost mut from: Seq<int> = Seq::empty();
    let mut g: usize = 0;
    while g < halves.len()
        invariant
            vocabulary.wf(),
            g <= halves@.len(),
            halves_sorted(halves@),
            halves_track(halves@, writes@, *vocabulary),
            from.len() == out@.len(),
            forall|j: int| 0 <= j < from.len() ==> 0 <= #[trigger] from[j] < g,
            forall|j1: int, j2: int| 0 <= j1 < j2 < from.len() ==> from[j1] < from[j2],
            forall|j: int|
                0 <= j < out@.len() ==> out@[j].stage@ == halves@[#[trigger] from[j]].0@ && {
                    let low = last_half(writes@, *vocabulary, out@[j].stage@, false);
                    let high = last_half(writes@, *vocabulary, out@[j].stage@, true);
                    &&& low is Some
                    &&& high is Some
                    &&& out@[j].address == candidate_address(low->0.value, high->0.value)
                    &&& out@[j].packet_offset == low->0.packet_offset
                },
            forall|a: int|
                0 <= a < g && halves@[a].1 is Some && halves@[a].2 is Some ==> exists|j: int|
                    0 <= j < out@.len() && out@[j].stage@ == halves@[a].0@,
        decreases halves@.len() - g,
    {
        let entry = &halves[g];
        let ghost old_out = out@;
        match (entry.1, entry.2) {
            (Some((low, offset)), Some(high)) => {
                let address = ((high as u64) << 32u64 | low as u64) << 8u64;
                out.push(
                    ShaderCandidate { stage: entry.0.clone(), address, packet_offset: offset },
                );
                proof {
                    from = from.push(g as int);
                    assert forall|a: int|
                        0 <= a < g + 1 && halves@[a].1 is Some && halves@[a].2 is Some implies exists|
                        j: int,
                    | 0 <= j < out@.len() && out@[j].stage@ == halves@[a].0@ by {
                        if a == g {
                            assert(out@[out@.len() - 1].stage@ == halves@[a].0@);
                        } else {
                            let j = choose|j: int|
                                0 <= j < old_out.len() && old_out[j].stage@ == halves@[a].0@;
                            assert(out@[j] == old_out[j]);
                        }
                    }
                }
            },
            _ => {},
        }
        g = g + 1;
    }
    proof {
        assert forall|i: int, j: int| 0 <= i < j < out@.len() implies bytes_less(
            stage_key(out@[i].stage@),
            stage_key(out@[j].stage@),
        ) by {
            assert(from[i] < from[j]);
            assert(out@[i].stage@ == halves@[from[i]].0@);
            assert(out@[j].stage@ == halves@[from[j]].0@);
        }
        assert forall|stage: Seq<char>|
            #[trigger] last_half(writes@, *vocabulary, stage, false) is Some && last_half(
                writes@,
                *vocabulary,
                stage,
                true,
            ) is Some implies exists|i: int| 0 <= i < out@.len() && out@[i].stage@ == stage by {
            let a = choose|a: int| 0 <= a < halves@.len() && halves@[a].0@ == stage;
            let h = halves@[a];
            assert(h.1 is Some && h.2 is Some);
        }
        assert forall|i: int| 0 <= i < out@.len() implies {
            let low = last_half(writes@, *vocabulary, #[trigger] out@[i].stage@, false);
            let high = last_half(writes@, *vocabulary, out@[i].stage@, true);
            &&& low is Some
            &&& high is Some
            &&& out@[i].address == candidate_address(low->0.value, high->0.value)
            &&& out@[i].packet_offset == low->0.packet_offset
        } by {
            assert(out@[i].stage@ == halves@[from[i]].0@);
        }
    }
    out
}

/// The shader addresses in force at a packet: [`shader_candidates`] over only the writes made in
/// earlier packets, so a stream that changes a stage's program between draws attributes each draw
/// the program bound before it.
pub fn shader_candidates_before(writes: &[RegisterWrite], vocabulary: &Vocabulary, before: u32) -> (r:
    Vec<ShaderCandidate>)
    requires
        vocabulary.wf(),
    ensures
        candidates_of(r@, writes@.filter(|w: RegisterWrite| w.packet_offset < before), *vocabulary),
{
    let earlier = writes_before(writes, before);
    shader_candidates(earlier.as_slice(), vocabulary)
}

/// The writes made in packets before `before`, in order.
fn writes_before(writes: &[RegisterWrite], before: u32) -> (r: Vec<RegisterWrite>)
    ensures
        r@ == writes@.filter(|w: RegisterWrite| w.packet_offset < before),
{
    let mut out: Vec<RegisterWrite> = Vec::new();
    let mut i: usize = 0;
    while i < writes.len()
        invariant
            i <= writes@.len(),
            out@ == writes@.subrange(0, i as int).filter(|w: RegisterWrite| w.packet_offset < before),
        decreases writes@.len() - i,
    {
        proof {
            let sub = writes@.subrange(0, i as int + 1);
            assert(sub.drop_last() =~= writes@.subrange(0, i as int));
            assert(sub.last() == writes@[i as int]);
            writes@.subrange(0, i as int).lemma_filter_push(
                writes@[i as int],
                |w: RegisterWrite| w.packet_offset < before,
            );
            assert(sub =~= writes@.subrange(0, i as int).push(writes@[i as int]));
        }
        if writes[i].packet_offset < before {
            out.push(writes[i]);
        }
        i = i + 1;
    }
    proof {
        assert(writes@.subrange(0, i as int) =~= writes@);
    }
    out
}


/// A buffer resource descriptor - a "V#" - decoded from its four dwords: base address in bits
/// 47:0, stride in 61:48, record count in 95:64, swizzle-enable at bit 63 and add-thread-id at
/// bit 119.
#[derive(Debug, Clone, Copy, PartialEq, Eq, Structural)]
pub struct BufferDescriptor {
    /// Byte address of the buffer's base.
    pub base: u64,
    /// Bytes per record, `0..=0x3FFF`. Zero is a raw buffer whose `records` is a byte count.
    pub stride: u32,
    /// Records when there is a stride, otherwise bytes.
    pub records: u32,
    /// Whether the descriptor asks for addressing this project does not model - swizzled records or
    /// add-thread-id - so a host refuses it rather than binding a plain range.
    pub unsupported: bool,
}

impl BufferDescriptor {
    /// The buffer's length in bytes: `records * stride` for a structured buffer, or `records` bytes
    /// for a raw one (stride zero).
    pub fn byte_len(&self) -> (r: u64)
        ensures
            r == (if self.stride == 0 {
                self.records as int
            } else {
                self.records * self.stride
            }),
    {
        if self.stride == 0 {
            self.records as u64
        } else {
            proof {
                assert(self.records * self.stride <= u32::MAX * u32::MAX) by (nonlinear_arith);
            }
            self.records as u64 * self.stride as u64
        }
    }
}

/// The buffer descriptor four dwords encode.
pub open spec fn spec_decode_buffer_descriptor(words: [u32; 4]) -> BufferDescriptor {
    BufferDescriptor {
        base: (words[0] as u64) | (((words[1] & 0xFFFFu32) as u64) << 32u64),
        stride: (words[1] >> 16u32) & 0x3FFFu32,
        records: words[2],
        unsupported: (words[1] & 0x8000_0000u32) != 0 || (words[3] & 0x0080_0000u32) != 0,
    }
}

/// Decodes a buffer resource descriptor from its four dwords, in register order.
pub fn decode_buffer_descriptor(words: [u32; 4]) -> (r: BufferDescriptor)
    ensures
        r == spec_decode_buffer_descriptor(words),
{
    let base_low = words[0];
    let mid = words[1];
    let records = words[2];
    let flags = words[3];
    BufferDescriptor {
        base: (base_low as u64) | (((mid & 0xFFFFu32) as u64) << 32u64),
        stride: (mid >> 16u32) & 0x3FFFu32,
        records,
        unsupported: (mid & 0x8000_0000u32) != 0 || (flags & 0x0080_0000u32) != 0,
    }
}

/// The buffer descriptor a guest left in four consecutive registers starting at `first`, from the
/// most recent write to each, or `None` when any of the four was never written.
pub open spec fn spec_buffer_descriptor_at(writes: Seq<RegisterWrite>, first: u32) -> Option<
    BufferDescriptor,
> {
    if first as int + 3 > u32::MAX {
        None
    } else {
        match (
            latest_value(writes, first),
            latest_value(writes, (first + 1) as u32),
            latest_value(writes, (first + 2) as u32),
            latest_value(writes, (first + 3) as u32),
        ) {
            (Some(a), Some(b), Some(c), Some(d)) => Some(
                spec_decode_buffer_descriptor([a, b, c, d]),
            ),
            _ => None,
        }
    }
}

/// Decodes the buffer descriptor a guest left in four consecutive registers starting at `first`,
/// from the writes that set them - `None` when any of the four registers was never written.
pub fn buffer_descriptor_at(writes: &[RegisterWrite], first: u32) -> (r: Option<BufferDescriptor>)
    requires
        first as int + 3 <= u32::MAX,
    ensures
        r == spec_buffer_descriptor_at(writes@, first),
{
    let a = latest(writes, first);
    let b = latest(writes, first + 1);
    let c = latest(writes, first + 2);
    let d = latest(writes, first + 3);
    match (a, b, c, d) {
        (Some(a), Some(b), Some(c), Some(d)) => Some(decode_buffer_descriptor([a, b, c, d])),
        _ => None,
    }
}

/// A colour render target's pixel dimensions, decoded from `CB_COLOR0_ATTRIB2`.
#[derive(Debug, Clone, Copy, PartialEq, Eq, Structural)]
pub struct ColourTargetExtent {
    /// Width in pixels.
    pub width: u32,
    /// Height in pixels.
    pub height: u32,
}

/// `CB_COLOR0_ATTRIB2`, the register that carries a colour target's dimensions.
pub const CB_COLOR0_ATTRIB2: u32 = 0xA3B0;

/// The extent a `CB_COLOR0_ATTRIB2` value encodes: width minus one in bits 27:14 and height minus
/// one in bits 13:0.
pub open spec fn spec_decode_colour_target_extent(attrib2: u32) -> ColourTargetExtent {
    ColourTargetExtent {
        width: (((attrib2 >> 14u32) & 0x3FFFu32) + 1) as u32,
        height: ((attrib2 & 0x3FFFu32) + 1) as u32,
    }
}

/// Decodes a colour target's dimensions from a `CB_COLOR0_ATTRIB2` value. The stored values are one
/// below the pixel counts, so a target is at least one pixel on a side.
pub fn decode_colour_target_extent(attrib2: u32) -> (r: ColourTargetExtent)
    ensures
        r == spec_decode_colour_target_extent(attrib2),
        1 <= r.width <= 0x4000,
        1 <= r.height <= 0x4000,
{
    proof {
        assert((attrib2 >> 14u32) & 0x3FFFu32 <= 0x3FFF) by (bit_vector);
        assert(attrib2 & 0x3FFFu32 <= 0x3FFF) by (bit_vector);
    }
    ColourTargetExtent {
        width: ((attrib2 >> 14u32) & 0x3FFFu32) + 1,
        height: (attrib2 & 0x3FFFu32) + 1,
    }
}

/// The colour target's dimensions, from the live value of `CB_COLOR0_ATTRIB2` among the writes, or
/// `None` when the stream never sets it - a size this would otherwise have to guess.
pub fn colour_target_extent_at(writes: &[RegisterWrite]) -> (r: Option<ColourTargetExtent>)
    ensures
        r == (match latest_value(writes@, CB_COLOR0_ATTRIB2) {
            Some(v) => Some(spec_decode_colour_target_extent(v)),
            None => None,
        }),
{
    match latest(writes, CB_COLOR0_ATTRIB2) {
        Some(value) => Some(decode_colour_target_extent(value)),
        None => None,
    }
}

/// `CB_COLOR0_BASE`, the register carrying colour buffer zero's base address in 256-byte units.
pub const CB_COLOR0_BASE: u32 = 0xA318;

/// Colour buffer zero, as a submission set it up: where it is and how big.
#[derive(Debug, Clone, Copy, PartialEq, Eq, Structural)]
pub struct ColourTarget {
    /// Base byte address of the surface in guest memory.
    pub base: u64,
    /// Width in pixels.
    pub width: u32,
    /// Height in pixels.
    pub height: u32,
}

/// The colour target the writes set up: the live base and extent, or `None` unless both were set.
pub open spec fn spec_colour_target_at(writes: Seq<RegisterWrite>) -> Option<ColourTarget> {
    match (latest_value(writes, CB_COLOR0_BASE), latest_value(writes, CB_COLOR0_ATTRIB2)) {
        (Some(base), Some(attrib2)) => Some(
            ColourTarget {
                base: (base as u64) << 8u64,
                width: spec_decode_colour_target_extent(attrib2).width,
                height: spec_decode_colour_target_extent(attrib2).height,
            },
        ),
        _ => None,
    }
}

/// The colour target a submission set up, from the live values of `CB_COLOR0_BASE` and
/// `CB_COLOR0_ATTRIB2` - `None` unless both were set, since a target missing either can be neither
/// placed nor sized.
pub fn colour_target_at(writes: &[RegisterWrite]) -> (r: Option<ColourTarget>)
    ensures
        r == spec_colour_target_at(writes@),
{
    let base = match latest(writes, CB_COLOR0_BASE) {
        Some(base) => base,
        None => return None,
    };
    let extent = match colour_target_extent_at(writes) {
        Some(extent) => extent,
        None => return None,
    };
    Some(ColourTarget { base: (base as u64) << 8u64, width: extent.width, height: extent.height })
}

/// `CB_TARGET_MASK`, the register carrying which colour targets are written, on which channels.
pub const CB_TARGET_MASK: u32 = 0xA08E;

/// Which of the eight colour targets a submission writes, and on which channels: one four-bit
/// channel mask per target (bit 0 red, 1 green, 2 blue, 3 alpha).
#[derive(Debug, Clone, Copy, PartialEq, Eq)]
pub struct TargetMask {
    /// Per-target channel write mask, indexed by target `0..8`; each is four bits.
    pub targets: [u32; 8],
}

/// How many of the first `n` targets write at least one channel.
pub open spec fn active_among(targets: Seq<u32>, n: int) -> nat
    decreases n,
{
    if n <= 0 {
        0
    } else {
        active_among(targets, n - 1) + (if targets[n - 1] != 0 { 1nat } else { 0nat })
    }
}

impl TargetMask {
    /// Whether colour target `index` writes any channel.
    pub fn writes_target(&self, index: usize) -> (r: bool)
        ensures
            r == (index < 8 && self.targets@[index as int] != 0),
    {
        index < 8 && self.targets[index] != 0
    }

    /// How many colour targets write at least one channel.
    pub fn active_targets(&self) -> (r: usize)
        ensures
            r == active_among(self.targets@, 8),
    {
        let mut n: usize = 0;
        let mut i: usize = 0;
        while i < 8
            invariant
                i <= 8,
                n == active_among(self.targets@, i as int),
                n <= i,
            decreases 8 - i,
        {
            if self.targets[i] != 0 {
                n = n + 1;
            }
            i = i + 1;
        }
        n
    }
}

/// The eight four-bit channel masks a `CB_TARGET_MASK` value holds.
pub open spec fn spec_decode_target_mask(value: u32) -> Seq<u32> {
    Seq::new(8, |i: int| (value >> (4 * i) as u32) & 0xFu32)
}

/// Decodes `CB_TARGET_MASK` into its eight per-target channel masks.
pub fn decode_target_mask(value: u32) -> (r: TargetMask)
    ensures
        r.targets@ == spec_decode_target_mask(value),
{
    let mut targets = [0u32; 8];
    let mut i: usize = 0;
    while i < 8
        invariant
            i <= 8,
            targets@.len() == 8,
            forall|k: int| 0 <= k < i ==> targets@[k] == (value >> (4 * k) as u32) & 0xFu32,
        decreases 8 - i,
    {
        targets[i] = (value >> (4 * i as u32)) & 0xFu32;
        i = i + 1;
    }
    assert(targets@ =~= spec_decode_target_mask(value));
    TargetMask { targets }
}

/// The colour write mask a submission set, from the live value of `CB_TARGET_MASK` - `None` when
/// the stream never sets it, rather than defaulted to "all" or "none".
pub fn target_mask_at(writes: &[RegisterWrite]) -> (r: Option<TargetMask>)
    ensures
        match latest_value(writes@, CB_TARGET_MASK) {
            Some(v) => r is Some && r->Some_0.targets@ == spec_decode_target_mask(v),
            None => r is None,
        },
{
    match latest(writes, CB_TARGET_MASK) {
        Some(value) => Some(decode_target_mask(value)),
        None => None,
    }
}


/// A depth or stencil comparison - the `CompareFrag` enum every test field in `DB_DEPTH_CONTROL`
/// selects from (`FRAG_NEVER` 0 through `FRAG_ALWAYS` 7).
#[derive(Debug, Clone, Copy, PartialEq, Eq, Structural)]
pub enum CompareFunc {
    /// The test never passes.
    Never,
    /// Passes when the fragment value is less than the stored one.
    Less,
    /// Passes on equality.
    Equal,
    /// Passes when less than or equal.
    LessEqual,
    /// Passes when greater than.
    Greater,
    /// Passes on inequality.
    NotEqual,
    /// Passes when greater than or equal.
    GreaterEqual,
    /// The test always passes.
    Always,
}

/// The comparison a three-bit `CompareFrag` field selects.
pub open spec fn spec_decode_compare_func(field: u32) -> CompareFunc {
    let f = field & 7u32;
    if f == 0 {
        CompareFunc::Never
    } else if f == 1 {
        CompareFunc::Less
    } else if f == 2 {
        CompareFunc::Equal
    } else if f == 3 {
        CompareFunc::LessEqual
    } else if f == 4 {
        CompareFunc::Greater
    } else if f == 5 {
        CompareFunc::NotEqual
    } else if f == 6 {
        CompareFunc::GreaterEqual
    } else {
        CompareFunc::Always
    }
}

/// Decodes a three-bit `CompareFrag` field into its comparison; every value is one of the eight.
pub fn decode_compare_func(field: u32) -> (r: CompareFunc)
    ensures
        r == spec_decode_compare_func(field),
{
    let f = field & 7u32;
    if f == 0 {
        CompareFunc::Never
    } else if f == 1 {
        CompareFunc::Less
    } else if f == 2 {
        CompareFunc::Equal
    } else if f == 3 {
        CompareFunc::LessEqual
    } else if f == 4 {
        CompareFunc::Greater
    } else if f == 5 {
        CompareFunc::NotEqual
    } else if f == 6 {
        CompareFunc::GreaterEqual
    } else {
        CompareFunc::Always
    }
}

/// Whether `func` passes a fragment value `fragment` against the stored value `stored`, by the
/// comparison its name says.
pub open spec fn compares(func: CompareFunc, fragment: int, stored: int) -> bool {
    match func {
        CompareFunc::Never => false,
        CompareFunc::Less => fragment < stored,
        CompareFunc::Equal => fragment == stored,
        CompareFunc::LessEqual => fragment <= stored,
        CompareFunc::Greater => fragment > stored,
        CompareFunc::NotEqual => fragment != stored,
        CompareFunc::GreaterEqual => fragment >= stored,
        CompareFunc::Always => true,
    }
}

/// A `CompareFrag` field is three pass bits: bit 0 passes a fragment value below the stored one,
/// bit 1 an equal one, bit 2 a greater one. The comparison it decodes to passes exactly the values
/// its bits pass - so 4 is greater, 6 greater or equal, and every one of the eight is told apart.
pub proof fn lemma_compare_field_is_pass_bits(field: u32, fragment: int, stored: int)
    ensures
        compares(spec_decode_compare_func(field), fragment, stored) == (((field & 1u32) != 0 && fragment
            < stored) || ((field & 2u32) != 0 && fragment == stored) || ((field & 4u32) != 0 && fragment
            > stored)),
{
    assert(field & 7u32 < 8) by (bit_vector);
    assert(((field & 1u32) != 0) == ((field & 7u32) == 1 || (field & 7u32) == 3 || (field & 7u32) == 5 || (
    field & 7u32) == 7)) by (bit_vector);
    assert(((field & 2u32) != 0) == ((field & 7u32) == 2 || (field & 7u32) == 3 || (field & 7u32) == 6 || (
    field & 7u32) == 7)) by (bit_vector);
    assert(((field & 4u32) != 0) == ((field & 7u32) == 4 || (field & 7u32) == 5 || (field & 7u32) == 6 || (
    field & 7u32) == 7)) by (bit_vector);
}

/// `DB_DEPTH_CONTROL`, a context register.
pub const DB_DEPTH_CONTROL: u32 = 0xA200;

/// The depth- and stencil-test state a draw runs under, decoded from `DB_DEPTH_CONTROL`.
#[derive(Debug, Clone, Copy, PartialEq, Eq, Structural)]
pub struct DepthControl {
    /// `Z_ENABLE` (bit 1): the depth test runs.
    pub depth_test_enable: bool,
    /// `Z_WRITE_ENABLE` (bit 2): a passing fragment updates the depth buffer.
    pub depth_write_enable: bool,
    /// `ZFUNC` (bits 4:6): how a fragment's depth is compared with the stored value.
    pub depth_func: CompareFunc,
    /// `DEPTH_BOUNDS_ENABLE` (bit 3): the depth-bounds test runs.
    pub depth_bounds_test_enable: bool,
    /// `STENCIL_ENABLE` (bit 0): the stencil test runs.
    pub stencil_test_enable: bool,
    /// `STENCILFUNC` (bits 8:10): the front-face stencil comparison.
    pub stencil_func: CompareFunc,
    /// `BACKFACE_ENABLE` (bit 7): back faces use their own stencil state.
    pub backface_enable: bool,
    /// `STENCILFUNC_BF` (bits 20:22): the back-face stencil comparison.
    pub stencil_func_backface: CompareFunc,
}

/// The test state a `DB_DEPTH_CONTROL` value encodes.
pub open spec fn spec_decode_depth_control(value: u32) -> DepthControl {
    DepthControl {
        depth_test_enable: (value >> 1u32) & 1u32 != 0,
        depth_write_enable: (value >> 2u32) & 1u32 != 0,
        depth_func: spec_decode_compare_func(value >> 4u32),
        depth_bounds_test_enable: (value >> 3u32) & 1u32 != 0,
        stencil_test_enable: value & 1u32 != 0,
        stencil_func: spec_decode_compare_func(value >> 8u32),
        backface_enable: (value >> 7u32) & 1u32 != 0,
        stencil_func_backface: spec_decode_compare_func(value >> 20u32),
    }
}

/// Decodes `DB_DEPTH_CONTROL` into its depth- and stencil-test state.
pub fn decode_depth_control(value: u32) -> (r: DepthControl)
    ensures
        r == spec_decode_depth_control(value),
{
    DepthControl {
        depth_test_enable: (value >> 1u32) & 1u32 != 0,
        depth_write_enable: (value >> 2u32) & 1u32 != 0,
        depth_func: decode_compare_func(value >> 4u32),
        depth_bounds_test_enable: (value >> 3u32) & 1u32 != 0,
        stencil_test_enable: value & 1u32 != 0,
        stencil_func: decode_compare_func(value >> 8u32),
        backface_enable: (value >> 7u32) & 1u32 != 0,
        stencil_func_backface: decode_compare_func(value >> 20u32),
    }
}

/// The depth- and stencil-test state a submission set, from the live value of `DB_DEPTH_CONTROL`;
/// `None` when the stream never sets it.
pub fn depth_control_at(writes: &[RegisterWrite]) -> (r: Option<DepthControl>)
    ensures
        r == (match latest_value(writes@, DB_DEPTH_CONTROL) {
            Some(v) => Some(spec_decode_depth_control(v)),
            None => None,
        }),
{
    match latest(writes, DB_DEPTH_CONTROL) {
        Some(value) => Some(decode_depth_control(value)),
        None => None,
    }
}

/// A stencil operation - the `StencilOp` enum each of `DB_STENCIL_CONTROL`'s six fields selects
/// (`STENCIL_KEEP` 0 through `STENCIL_XNOR` 15).
#[derive(Debug, Clone, Copy, PartialEq, Eq, Structural)]
pub enum StencilOp {
    /// Keep the current value.
    Keep,
    /// Set to zero.
    Zero,
    /// Set to all-ones.
    Ones,
    /// Replace with the reference, and test.
    ReplaceTest,
    /// Replace with the reference.
    ReplaceOp,
    /// Increment, clamping at the maximum.
    AddClamp,
    /// Decrement, clamping at zero.
    SubClamp,
    /// Bitwise invert.
    Invert,
    /// Increment, wrapping.
    AddWrap,
    /// Decrement, wrapping.
    SubWrap,
    /// Bitwise AND with the reference.
    And,
    /// Bitwise OR.
    Or,
    /// Bitwise XOR.
    Xor,
    /// Bitwise NAND.
    Nand,
    /// Bitwise NOR.
    Nor,
    /// Bitwise XNOR.
    Xnor,
}

/// The operation a four-bit `StencilOp` field selects.
pub open spec fn spec_decode_stencil_op(field: u32) -> StencilOp {
    let f = field & 0xFu32;
    if f == 0 {
        StencilOp::Keep
    } else if f == 1 {
        StencilOp::Zero
    } else if f == 2 {
        StencilOp::Ones
    } else if f == 3 {
        StencilOp::ReplaceTest
    } else if f == 4 {
        StencilOp::ReplaceOp
    } else if f == 5 {
        StencilOp::AddClamp
    } else if f == 6 {
        StencilOp::SubClamp
    } else if f == 7 {
        StencilOp::Invert
    } else if f == 8 {
        StencilOp::AddWrap
    } else if f == 9 {
        StencilOp::SubWrap
    } else if f == 10 {
        StencilOp::And
    } else if f == 11 {
        StencilOp::Or
    } else if f == 12 {
        StencilOp::Xor
    } else if f == 13 {
        StencilOp::Nand
    } else if f == 14 {
        StencilOp::Nor
    } else {
        StencilOp::Xnor
    }
}

/// Decodes a four-bit `StencilOp` field; every value `0..16` is defined.
pub fn decode_stencil_op(field: u32) -> (r: StencilOp)
    ensures
        r == spec_decode_stencil_op(field),
{
    let f = field & 0xFu32;
    if f == 0 {
        StencilOp::Keep
    } else if f == 1 {
        StencilOp::Zero
    } else if f == 2 {
        StencilOp::Ones
    } else if f == 3 {
        StencilOp::ReplaceTest
    } else if f == 4 {
        StencilOp::ReplaceOp
    } else if f == 5 {
        StencilOp::AddClamp
    } else if f == 6 {
        StencilOp::SubClamp
    } else if f == 7 {
        StencilOp::Invert
    } else if f == 8 {
        StencilOp::AddWrap
    } else if f == 9 {
        StencilOp::SubWrap
    } else if f == 10 {
        StencilOp::And
    } else if f == 11 {
        StencilOp::Or
    } else if f == 12 {
        StencilOp::Xor
    } else if f == 13 {
        StencilOp::Nand
    } else if f == 14 {
        StencilOp::Nor
    } else {
        StencilOp::Xnor
    }
}

/// `DB_STENCIL_CONTROL`, a context register.
pub const DB_STENCIL_CONTROL: u32 = 0xA10B;

/// The stencil operations a draw applies on each test outcome, front and back.
#[derive(Debug, Clone, Copy, PartialEq, Eq, Structural)]
pub struct StencilControl {
    /// `STENCILFAIL` (bits 0:3): front-face op when the stencil test fails.
    pub fail_op: StencilOp,
    /// `STENCILZPASS` (bits 4:7): front-face op when stencil and depth both pass.
    pub depth_pass_op: StencilOp,
    /// `STENCILZFAIL` (bits 8:11): front-face op when stencil passes but depth fails.
    pub depth_fail_op: StencilOp,
    /// `STENCILFAIL_BF` (bits 12:15): back-face op when the stencil test fails.
    pub back_fail_op: StencilOp,
    /// `STENCILZPASS_BF` (bits 16:19): back-face op when stencil and depth both pass.
    pub back_depth_pass_op: StencilOp,
    /// `STENCILZFAIL_BF` (bits 20:23): back-face op when stencil passes but depth fails.
    pub back_depth_fail_op: StencilOp,
}

/// The six operations a `DB_STENCIL_CONTROL` value encodes.
pub open spec fn spec_decode_stencil_control(value: u32) -> StencilControl {
    StencilControl {
        fail_op: spec_decode_stencil_op(value),
        depth_pass_op: spec_decode_stencil_op(value >> 4u32),
        depth_fail_op: spec_decode_stencil_op(value >> 8u32),
        back_fail_op: spec_decode_stencil_op(value >> 12u32),
        back_depth_pass_op: spec_decode_stencil_op(value >> 16u32),
        back_depth_fail_op: spec_decode_stencil_op(value >> 20u32),
    }
}

/// Decodes `DB_STENCIL_CONTROL` into its six stencil operations.
pub fn decode_stencil_control(value: u32) -> (r: StencilControl)
    ensures
        r == spec_decode_stencil_control(value),
{
    StencilControl {
        fail_op: decode_stencil_op(value),
        depth_pass_op: decode_stencil_op(value >> 4u32),
        depth_fail_op: decode_stencil_op(value >> 8u32),
        back_fail_op: decode_stencil_op(value >> 12u32),
        back_depth_pass_op: decode_stencil_op(value >> 16u32),
        back_depth_fail_op: decode_stencil_op(value >> 20u32),
    }
}

/// The stencil operations a submission set, from the live value of `DB_STENCIL_CONTROL`; `None`
/// when the stream never sets it.
pub fn stencil_control_at(writes: &[RegisterWrite]) -> (r: Option<StencilControl>)
    ensures
        r == (match latest_value(writes@, DB_STENCIL_CONTROL) {
            Some(v) => Some(spec_decode_stencil_control(v)),
            None => None,
        }),
{
    match latest(writes, DB_STENCIL_CONTROL) {
        Some(value) => Some(decode_stencil_control(value)),
        None => None,
    }
}

/// A blend factor - the `BlendOp` enum each source/destination field of `CB_BLEND0_CONTROL`
/// selects (`BLEND_ZERO` 0 through `BLEND_ONE_MINUS_CONSTANT_ALPHA` 20); the reserved `21..32` are
/// kept raw.
#[derive(Debug, Clone, Copy, PartialEq, Eq, Structural, Hash)]
pub enum BlendFactor {
    /// Multiply by zero.
    Zero,
    /// Multiply by one.
    One,
    /// The source colour.
    SrcColor,
    /// One minus the source colour.
    OneMinusSrcColor,
    /// The source alpha.
    SrcAlpha,
    /// One minus the source alpha.
    OneMinusSrcAlpha,
    /// The destination alpha.
    DstAlpha,
    /// One minus the destination alpha.
    OneMinusDstAlpha,
    /// The destination colour.
    DstColor,
    /// One minus the destination colour.
    OneMinusDstColor,
    /// The source alpha, saturated.
    SrcAlphaSaturate,
    /// Both source alpha.
    BothSrcAlpha,
    /// Both inverse source alpha.
    BothInvSrcAlpha,
    /// The blend constant colour.
    ConstantColor,
    /// One minus the blend constant colour.
    OneMinusConstantColor,
    /// The second dual-source colour.
    Src1Color,
    /// One minus the second dual-source colour.
    InvSrc1Color,
    /// The second dual-source alpha.
    Src1Alpha,
    /// One minus the second dual-source alpha.
    InvSrc1Alpha,
    /// The blend constant alpha.
    ConstantAlpha,
    /// One minus the blend constant alpha.
    OneMinusConstantAlpha,
    /// A reserved encoding (`21..32`), kept raw rather than guessed.
    Other(u32),
}

/// The factor a five-bit `BlendOp` field selects.
pub open spec fn spec_decode_blend_factor(field: u32) -> BlendFactor {
    let f = field & 0x1Fu32;
    if f == 0 {
        BlendFactor::Zero
    } else if f == 1 {
        BlendFactor::One
    } else if f == 2 {
        BlendFactor::SrcColor
    } else if f == 3 {
        BlendFactor::OneMinusSrcColor
    } else if f == 4 {
        BlendFactor::SrcAlpha
    } else if f == 5 {
        BlendFactor::OneMinusSrcAlpha
    } else if f == 6 {
        BlendFactor::DstAlpha
    } else if f == 7 {
        BlendFactor::OneMinusDstAlpha
    } else if f == 8 {
        BlendFactor::DstColor
    } else if f == 9 {
        BlendFactor::OneMinusDstColor
    } else if f == 10 {
        BlendFactor::SrcAlphaSaturate
    } else if f == 11 {
        BlendFactor::BothSrcAlpha
    } else if f == 12 {
        BlendFactor::BothInvSrcAlpha
    } else if f == 13 {
        BlendFactor::ConstantColor
    } else if f == 14 {
        BlendFactor::OneMinusConstantColor
    } else if f == 15 {
        BlendFactor::Src1Color
    } else if f == 16 {
        BlendFactor::InvSrc1Color
    } else if f == 17 {
        BlendFactor::Src1Alpha
    } else if f == 18 {
        BlendFactor::InvSrc1Alpha
    } else if f == 19 {
        BlendFactor::ConstantAlpha
    } else if f == 20 {
        BlendFactor::OneMinusConstantAlpha
    } else {
        BlendFactor::Other(f)
    }
}

/// Decodes a five-bit `BlendOp` field into its blend factor.
pub fn decode_blend_factor(field: u32) -> (r: BlendFactor)
    ensures
        r == spec_decode_blend_factor(field),
{
    let f = field & 0x1Fu32;
    if f == 0 {
        BlendFactor::Zero
    } else if f == 1 {
        BlendFactor::One
    } else if f == 2 {
        BlendFactor::SrcColor
    } else if f == 3 {
        BlendFactor::OneMinusSrcColor
    } else if f == 4 {
        BlendFactor::SrcAlpha
    } else if f == 5 {
        BlendFactor::OneMinusSrcAlpha
    } else if f == 6 {
        BlendFactor::DstAlpha
    } else if f == 7 {
        BlendFactor::OneMinusDstAlpha
    } else if f == 8 {
        BlendFactor::DstColor
    } else if f == 9 {
        BlendFactor::OneMinusDstColor
    } else if f == 10 {
        BlendFactor::SrcAlphaSaturate
    } else if f == 11 {
        BlendFactor::BothSrcAlpha
    } else if f == 12 {
        BlendFactor::BothInvSrcAlpha
    } else if f == 13 {
        BlendFactor::ConstantColor
    } else if f == 14 {
        BlendFactor::OneMinusConstantColor
    } else if f == 15 {
        BlendFactor::Src1Color
    } else if f == 16 {
        BlendFactor::InvSrc1Color
    } else if f == 17 {
        BlendFactor::Src1Alpha
    } else if f == 18 {
        BlendFactor::InvSrc1Alpha
    } else if f == 19 {
        BlendFactor::ConstantAlpha
    } else if f == 20 {
        BlendFactor::OneMinusConstantAlpha
    } else {
        BlendFactor::Other(f)
    }
}

/// A blend combine function - the `CombFunc` enum (`COMB_DST_PLUS_SRC` 0 through
/// `COMB_DST_MINUS_SRC` 4); the reserved `5..8` are kept raw.
#[derive(Debug, Clone, Copy, PartialEq, Eq, Structural, Hash)]
pub enum CombineFunc {
    /// `dst + src` (additive blend).
    DstPlusSrc,
    /// `src - dst`.
    SrcMinusDst,
    /// `min(dst, src)`.
    MinDstSrc,
    /// `max(dst, src)`.
    MaxDstSrc,
    /// `dst - src`.
    DstMinusSrc,
    /// A reserved encoding (`5..8`), kept raw rather than guessed.
    Other(u32),
}

/// The combine function a three-bit `CombFunc` field selects.
pub open spec fn spec_decode_combine_func(field: u32) -> CombineFunc {
    let f = field & 7u32;
    if f == 0 {
        CombineFunc::DstPlusSrc
    } else if f == 1 {
        CombineFunc::SrcMinusDst
    } else if f == 2 {
        CombineFunc::MinDstSrc
    } else if f == 3 {
        CombineFunc::MaxDstSrc
    } else if f == 4 {
        CombineFunc::DstMinusSrc
    } else {
        CombineFunc::Other(f)
    }
}

/// Decodes a three-bit `CombFunc` field into its combine function.
pub fn decode_combine_func(field: u32) -> (r: CombineFunc)
    ensures
        r == spec_decode_combine_func(field),
{
    let f = field & 7u32;
    if f == 0 {
        CombineFunc::DstPlusSrc
    } else if f == 1 {
        CombineFunc::SrcMinusDst
    } else if f == 2 {
        CombineFunc::MinDstSrc
    } else if f == 3 {
        CombineFunc::MaxDstSrc
    } else if f == 4 {
        CombineFunc::DstMinusSrc
    } else {
        CombineFunc::Other(f)
    }
}

/// `CB_BLEND0_CONTROL`, a context register.
pub const CB_BLEND0_CONTROL: u32 = 0xA1E0;

/// The colour-blend state for colour target zero, decoded from `CB_BLEND0_CONTROL`.
#[derive(Debug, Clone, Copy, PartialEq, Eq, Structural, Hash)]
pub struct BlendControl {
    /// `COLOR_SRCBLEND` (bits 0:4): the source factor for colour.
    pub color_src: BlendFactor,
    /// `COLOR_COMB_FCN` (bits 5:7): how colour source and destination are combined.
    pub color_combine: CombineFunc,
    /// `COLOR_DESTBLEND` (bits 8:12): the destination factor for colour.
    pub color_dst: BlendFactor,
    /// `ALPHA_SRCBLEND` (bits 16:20): the source factor for alpha.
    pub alpha_src: BlendFactor,
    /// `ALPHA_COMB_FCN` (bits 21:23): how alpha source and destination are combined.
    pub alpha_combine: CombineFunc,
    /// `ALPHA_DESTBLEND` (bits 24:28): the destination factor for alpha.
    pub alpha_dst: BlendFactor,
    /// `SEPARATE_ALPHA_BLEND` (bit 29): alpha uses its own factors rather than colour's.
    pub separate_alpha_blend: bool,
    /// `ENABLE` (bit 30): blending runs for this target.
    pub enable: bool,
    /// `DISABLE_ROP3` (bit 31): the raster-op-3 path is off.
    pub disable_rop3: bool,
}

/// The blend state a `CB_BLEND0_CONTROL` value encodes.
pub open spec fn spec_decode_blend_control(value: u32) -> BlendControl {
    BlendControl {
        color_src: spec_decode_blend_factor(value),
        color_combine: spec_decode_combine_func(value >> 5u32),
        color_dst: spec_decode_blend_factor(value >> 8u32),
        alpha_src: spec_decode_blend_factor(value >> 16u32),
        alpha_combine: spec_decode_combine_func(value >> 21u32),
        alpha_dst: spec_decode_blend_factor(value >> 24u32),
        separate_alpha_blend: (value >> 29u32) & 1u32 != 0,
        enable: (value >> 30u32) & 1u32 != 0,
        disable_rop3: (value >> 31u32) & 1u32 != 0,
    }
}

/// Decodes `CB_BLEND0_CONTROL` into its colour and alpha blend state.
pub fn decode_blend_control(value: u32) -> (r: BlendControl)
    ensures
        r == spec_decode_blend_control(value),
{
    BlendControl {
        color_src: decode_blend_factor(value),
        color_combine: decode_combine_func(value >> 5u32),
        color_dst: decode_blend_factor(value >> 8u32),
        alpha_src: decode_blend_factor(value >> 16u32),
        alpha_combine: decode_combine_func(value >> 21u32),
        alpha_dst: decode_blend_factor(value >> 24u32),
        separate_alpha_blend: (value >> 29u32) & 1u32 != 0,
        enable: (value >> 30u32) & 1u32 != 0,
        disable_rop3: (value >> 31u32) & 1u32 != 0,
    }
}

/// The blend state for colour target zero a submission set, from the live value of
/// `CB_BLEND0_CONTROL`; `None` when the stream never sets it.
pub fn blend_control_at(writes: &[RegisterWrite]) -> (r: Option<BlendControl>)
    ensures
        r == (match latest_value(writes@, CB_BLEND0_CONTROL) {
            Some(v) => Some(spec_decode_blend_control(v)),
            None => None,
        }),
{
    match latest(writes, CB_BLEND0_CONTROL) {
        Some(value) => Some(decode_blend_control(value)),
        None => None,
    }
}

/// `CB_COLOR0_ATTRIB3`, the register carrying colour buffer zero's tiling attributes.
pub const CB_COLOR0_ATTRIB3: u32 = 0xA3B8;

/// `ADDR_SW_LINEAR`, the un-swizzled mode.
pub const ADDR_SW_LINEAR: u32 = 0;

/// `ADDR_SW_64KB_R_X`, the mode [`crate::tiling`] detiles.
pub const ADDR_SW_64KB_R_X: u32 = 27;

/// The tiling (swizzle) mode of a surface. Only linear and `64KB_R_X` are named; any other mode
/// is carried by its raw five-bit value, so an unhandled tiling is refused downstream.
#[derive(Debug, Clone, Copy, PartialEq, Eq, Structural)]
pub enum SwizzleMode {
    /// No swizzle; pixels are row-major (`ADDR_SW_LINEAR`).
    Linear,
    /// 64KB_R_X, the mode [`crate::tiling`] detiles (`ADDR_SW_64KB_R_X`).
    Tiled64KbRX,
    /// A mode not modelled, carried by its raw five-bit swizzle-mode value.
    Other(u32),
}

/// The mode a five-bit `SW_MODE` field selects.
pub open spec fn spec_decode_swizzle_mode(field: u32) -> SwizzleMode {
    let f = field & 0x1Fu32;
    if f == ADDR_SW_LINEAR {
        SwizzleMode::Linear
    } else if f == ADDR_SW_64KB_R_X {
        SwizzleMode::Tiled64KbRX
    } else {
        SwizzleMode::Other(f)
    }
}

/// Decodes a five-bit `SW_MODE` field into a [`SwizzleMode`].
pub fn decode_swizzle_mode(field: u32) -> (r: SwizzleMode)
    ensures
        r == spec_decode_swizzle_mode(field),
{
    let f = field & 0x1Fu32;
    if f == ADDR_SW_LINEAR {
        SwizzleMode::Linear
    } else if f == ADDR_SW_64KB_R_X {
        SwizzleMode::Tiled64KbRX
    } else {
        SwizzleMode::Other(f)
    }
}

/// Decodes `CB_COLOR0_ATTRIB3`'s `COLOR_SW_MODE` (bits 18:14) into a swizzle mode.
pub fn decode_colour_swizzle_mode(attrib3: u32) -> (r: SwizzleMode)
    ensures
        r == spec_decode_swizzle_mode((attrib3 >> 14u32) & 0x1Fu32),
{
    decode_swizzle_mode((attrib3 >> 14u32) & 0x1Fu32)
}

/// The colour target's tiling mode, from the live value of `CB_COLOR0_ATTRIB3`; `None` when the
/// stream never sets it, since a surface of unknown tiling must be read as neither.
pub fn colour_swizzle_mode_at(writes: &[RegisterWrite]) -> (r: Option<SwizzleMode>)
    ensures
        r == (match latest_value(writes@, CB_COLOR0_ATTRIB3) {
            Some(v) => Some(spec_decode_swizzle_mode((v >> 14u32) & 0x1Fu32)),
            None => None,
        }),
{
    match latest(writes, CB_COLOR0_ATTRIB3) {
        Some(value) => Some(decode_colour_swizzle_mode(value)),
        None => None,
    }
}


/// `CB_COLOR0_INFO`, colour target zero's element layout.
pub const CB_COLOR0_INFO: u32 = 0xA31C;

/// `ColorFormat` `COLOR_8_8_8_8`.
pub const COLOR_8_8_8_8: u32 = 10;

/// `SurfaceNumber` `NUMBER_UNORM`.
pub const NUMBER_UNORM: u32 = 0;

/// Which memory byte each of a four-channel colour target's shader outputs lands in
/// (`CB_COLOR0_INFO.COMP_SWAP`).
#[derive(Debug, Clone, Copy, PartialEq, Eq, Structural)]
pub enum ComponentSwap {
    /// `SWAP_STD` (0): memory order R, G, B, A.
    Standard,
    /// `SWAP_ALT` (1): memory order B, G, R, A.
    Alternate,
    /// `SWAP_STD_REV` (2) or `SWAP_ALT_REV` (3), by raw value.
    Other(u32),
}

/// Colour target zero's element layout: `CB_COLOR0_INFO`'s `FORMAT` (bits 6:2), `NUMBER_TYPE`
/// (10:8) and `COMP_SWAP` (12:11).
#[derive(Debug, Clone, Copy, PartialEq, Eq, Structural)]
pub struct ColourTargetFormat {
    /// The `ColorFormat` code.
    pub format: u32,
    /// The `SurfaceNumber` code.
    pub number_type: u32,
    /// The component order in memory.
    pub swap: ComponentSwap,
}

impl ColourTargetFormat {
    /// Whether this layout is a four-byte `8_8_8_8` `UNORM` target in a named order.
    pub open spec fn spec_is_rgba8_class(&self) -> bool {
        &&& self.format == COLOR_8_8_8_8
        &&& self.number_type == NUMBER_UNORM
        &&& (self.swap is Standard || self.swap is Alternate)
    }

    /// Whether this is a four-byte `8_8_8_8` `UNORM` target in an order [`Self::swap`] names - the
    /// layout a rendered `Rgba8` frame can be written into exactly.
    pub fn is_rgba8_class(&self) -> (r: bool)
        ensures
            r == self.spec_is_rgba8_class(),
    {
        self.format == COLOR_8_8_8_8 && self.number_type == NUMBER_UNORM && match self.swap {
            ComponentSwap::Standard => true,
            ComponentSwap::Alternate => true,
            ComponentSwap::Other(_) => false,
        }
    }
}

/// The element layout a `CB_COLOR0_INFO` value encodes.
pub open spec fn spec_decode_colour_target_format(info: u32) -> ColourTargetFormat {
    let swap = (info >> 11u32) & 0x3u32;
    ColourTargetFormat {
        format: (info >> 2u32) & 0x1Fu32,
        number_type: (info >> 8u32) & 0x7u32,
        swap: if swap == 0 {
            ComponentSwap::Standard
        } else if swap == 1 {
            ComponentSwap::Alternate
        } else {
            ComponentSwap::Other(swap)
        },
    }
}

/// Decodes a `CB_COLOR0_INFO` value.
pub fn decode_colour_target_format(info: u32) -> (r: ColourTargetFormat)
    ensures
        r == spec_decode_colour_target_format(info),
{
    let swap = (info >> 11u32) & 0x3u32;
    ColourTargetFormat {
        format: (info >> 2u32) & 0x1Fu32,
        number_type: (info >> 8u32) & 0x7u32,
        swap: if swap == 0 {
            ComponentSwap::Standard
        } else if swap == 1 {
            ComponentSwap::Alternate
        } else {
            ComponentSwap::Other(swap)
        },
    }
}

/// Colour target zero's element layout from the live `CB_COLOR0_INFO` among the writes; `None`
/// when the stream never set it.
pub fn colour_target_format_at(writes: &[RegisterWrite]) -> (r: Option<ColourTargetFormat>)
    ensures
        r == (match latest_value(writes@, CB_COLOR0_INFO) {
            Some(v) => Some(spec_decode_colour_target_format(v)),
            None => None,
        }),
{
    match latest(writes, CB_COLOR0_INFO) {
        Some(value) => Some(decode_colour_target_format(value)),
        None => None,
    }
}

/// The set of values written to `CB_COLOR0_BASE` among `writes`.
pub open spec fn colour_target_bases(writes: Seq<RegisterWrite>) -> Set<u32>
    decreases writes.len(),
{
    if writes.len() == 0 {
        Set::empty()
    } else if writes.last().register == CB_COLOR0_BASE {
        colour_target_bases(writes.drop_last()).insert(writes.last().value)
    } else {
        colour_target_bases(writes.drop_last())
    }
}

/// How many distinct colour target zero base addresses a stream wrote. A submission written back
/// as one frame must have drawn into one target, so more than one is a refusal.
pub fn colour_target_bases_in(writes: &[RegisterWrite]) -> (r: usize)
    ensures
        r == colour_target_bases(writes@).len(),
{
    let mut seen: Vec<u32> = Vec::new();
    let mut i: usize = 0;
    while i < writes.len()
        invariant
            i <= writes@.len(),
            seen@.no_duplicates(),
            seen@.to_set() == colour_target_bases(writes@.subrange(0, i as int)),
            seen@.len() <= i,
        decreases writes@.len() - i,
    {
        let w = writes[i];
        proof {
            assert(writes@.subrange(0, i as int + 1).drop_last() =~= writes@.subrange(0, i as int));
            assert(writes@.subrange(0, i as int + 1).last() == w);
        }
        if w.register == CB_COLOR0_BASE {
            let mut found = false;
            let mut k: usize = 0;
            while k < seen.len()
                invariant
                    k <= seen@.len(),
                    found <==> exists|j: int| 0 <= j < k && seen@[j] == w.value,
                decreases seen@.len() - k,
            {
                if seen[k] == w.value {
                    found = true;
                }
                k = k + 1;
            }
            let ghost old_seen = seen@;
            if !found {
                seen.push(w.value);
                proof {
                    assert(seen@.to_set() =~= old_seen.to_set().insert(w.value)) by {
                        assert forall|v: u32| seen@.to_set().contains(v) <==> old_seen.to_set().insert(
                            w.value,
                        ).contains(v) by {
                            if v != w.value && seen@.contains(v) {
                                let j = choose|j: int| 0 <= j < seen@.len() && seen@[j] == v;
                                assert(old_seen[j] == v);
                            }
                            if old_seen.contains(v) {
                                let j = choose|j: int| 0 <= j < old_seen.len() && old_seen[j] == v;
                                assert(seen@[j] == v);
                            }
                            assert(seen@[old_seen.len() as int] == w.value);
                        }
                    }
                    assert forall|a: int, b: int|
                        0 <= a < seen@.len() && 0 <= b < seen@.len() && a != b implies seen@[a]
                        != seen@[b] by {
                        if a < old_seen.len() && b < old_seen.len() {
                            assert(old_seen[a] == seen@[a] && old_seen[b] == seen@[b]);
                        } else if a == old_seen.len() {
                            assert(seen@[b] == old_seen[b]);
                        } else {
                            assert(seen@[a] == old_seen[a]);
                        }
                    }
                }
            } else {
                proof {
                    let j = choose|j: int| 0 <= j < k && seen@[j] == w.value;
                    assert(seen@.to_set().contains(w.value)) by {
                        assert(seen@.contains(w.value));
                    }
                    assert(seen@.to_set() =~= seen@.to_set().insert(w.value));
                }
            }
        }
        i = i + 1;
    }
    proof {
        assert(writes@.subrange(0, i as int) =~= writes@);
        seen@.unique_seq_to_set();
    }
    seen.len()
}

/// `VGT_GS_OUT_PRIM_TYPE`, whose `OUTPRIM_TYPE` field is the primitive a draw produces.
pub const VGT_GS_OUT_PRIM_TYPE: u32 = 0xA29B;

/// The primitive a draw's geometry produces, from `VGT_GS_OUT_PRIM_TYPE.OUTPRIM_TYPE`. Only the
/// values with a meaning here are named; anything else is carried by its raw field so an unhandled
/// topology is refused downstream.
#[derive(Debug, Clone, Copy, PartialEq, Eq, Structural)]
pub enum PrimitiveTopology {
    /// A list of points (POINTLIST).
    PointList,
    /// A connected strip of lines (LINESTRIP).
    LineStrip,
    /// A connected strip of triangles (TRISTRIP).
    TriangleStrip,
    /// A list of screen-space rectangles (RECTLIST).
    RectangleList,
    /// A value not in `VGT_GS_OUTPRIM_TYPE`, carried by its raw six-bit field.
    Other(u32),
}

/// The character of a decimal digit.
pub open spec fn digit_char(d: nat) -> char {
    (48 + d) as char
}

/// The decimal rendering of a natural number, most significant digit first.
pub open spec fn decimal(n: nat) -> Seq<char>
    decreases n,
{
    if n < 10 {
        seq![digit_char(n)]
    } else {
        decimal(n / 10).push(digit_char(n % 10))
    }
}

/// The text of one decimal digit.
fn digit_text(d: u32) -> (r: &'static str)
    requires
        d < 10,
    ensures
        r@ == seq![digit_char(d as nat)],
{
    proof {
        reveal_strlit("0");
        reveal_strlit("1");
        reveal_strlit("2");
        reveal_strlit("3");
        reveal_strlit("4");
        reveal_strlit("5");
        reveal_strlit("6");
        reveal_strlit("7");
        reveal_strlit("8");
        reveal_strlit("9");
    }
    if d == 0 {
        "0"
    } else if d == 1 {
        "1"
    } else if d == 2 {
        "2"
    } else if d == 3 {
        "3"
    } else if d == 4 {
        "4"
    } else if d == 5 {
        "5"
    } else if d == 6 {
        "6"
    } else if d == 7 {
        "7"
    } else if d == 8 {
        "8"
    } else {
        "9"
    }
}

/// A number in decimal, most significant digit first, with no leading zeros.
fn decimal_text(n: u32) -> (r: String)
    ensures
        r@ == decimal(n as nat),
    decreases n,
{
    if n < 10 {
        String::from_str(digit_text(n))
    } else {
        let mut text = decimal_text(n / 10);
        text.append(digit_text(n % 10));
        text
    }
}

/// Names a topology value that `VGT_GS_OUTPRIM_TYPE` does not define, by the field's name and the
/// value in decimal.
fn describe_other_topology(value: u32) -> (r: String)
    ensures
        r@ == "VGT_GS_OUTPRIM_TYPE "@ + decimal(value as nat),
{
    let mut text = String::from_str("VGT_GS_OUTPRIM_TYPE ");
    let digits = decimal_text(value);
    text.append(digits.as_str());
    text
}

impl PrimitiveTopology {
    /// A short name for a report.
    pub open spec fn spec_label(self) -> Seq<char> {
        match self {
            PrimitiveTopology::PointList => "point list"@,
            PrimitiveTopology::LineStrip => "line strip"@,
            PrimitiveTopology::TriangleStrip => "triangle strip"@,
            PrimitiveTopology::RectangleList => "rectangle list"@,
            PrimitiveTopology::Other(value) => "VGT_GS_OUTPRIM_TYPE "@ + decimal(value as nat),
        }
    }

    /// A short name for a report - what a reader sees when a submission's topology is surfaced.
    pub fn label(self) -> (r: String)
        ensures
            r@ == self.spec_label(),
    {
        match self {
            PrimitiveTopology::PointList => String::from_str("point list"),
            PrimitiveTopology::LineStrip => String::from_str("line strip"),
            PrimitiveTopology::TriangleStrip => String::from_str("triangle strip"),
            PrimitiveTopology::RectangleList => String::from_str("rectangle list"),
            PrimitiveTopology::Other(value) => describe_other_topology(value),
        }
    }
}

/// The topology a six-bit `OUTPRIM_TYPE` field selects.
pub open spec fn spec_decode_primitive_topology(field: u32) -> PrimitiveTopology {
    let f = field & 0x3Fu32;
    if f == 0 {
        PrimitiveTopology::PointList
    } else if f == 1 {
        PrimitiveTopology::LineStrip
    } else if f == 2 {
        PrimitiveTopology::TriangleStrip
    } else if f == 3 {
        PrimitiveTopology::RectangleList
    } else {
        PrimitiveTopology::Other(f)
    }
}

/// Decodes `VGT_GS_OUT_PRIM_TYPE.OUTPRIM_TYPE` (bits 5:0) into a topology.
pub fn decode_primitive_topology(field: u32) -> (r: PrimitiveTopology)
    ensures
        r == spec_decode_primitive_topology(field),
{
    let f = field & 0x3Fu32;
    if f == 0 {
        PrimitiveTopology::PointList
    } else if f == 1 {
        PrimitiveTopology::LineStrip
    } else if f == 2 {
        PrimitiveTopology::TriangleStrip
    } else if f == 3 {
        PrimitiveTopology::RectangleList
    } else {
        PrimitiveTopology::Other(f)
    }
}

/// The primitive a draw produces, from the live value of `VGT_GS_OUT_PRIM_TYPE`; `None` when the
/// stream never sets it - a draw whose topology is unknown must not be assumed a triangle list.
pub fn primitive_topology_at(writes: &[RegisterWrite]) -> (r: Option<PrimitiveTopology>)
    ensures
        r == (match latest_value(writes@, VGT_GS_OUT_PRIM_TYPE) {
            Some(v) => Some(spec_decode_primitive_topology(v)),
            None => None,
        }),
{
    match latest(writes, VGT_GS_OUT_PRIM_TYPE) {
        Some(value) => Some(decode_primitive_topology(value)),
        None => None,
    }
}

/// `VGT_SHADER_STAGES_EN`; its bit 22, `GS_W32_EN`, makes the primitive shader thirty-two wide.
pub const VGT_SHADER_STAGES_EN: u32 = 0xA2D5;

/// `GS_W32_EN`.
pub const GS_W32_EN: u32 = 0x40_0000;

/// `SPI_PS_IN_CONTROL`; its bit 15, `PS_W32_EN`, makes the pixel shader thirty-two wide.
pub const SPI_PS_IN_CONTROL: u32 = 0xA1B6;

/// `PS_W32_EN`.
pub const PS_W32_EN: u32 = 0x8000;

/// Which of a draw's stages run thirty-two lanes wide. A clear bit - or a register the stream
/// never wrote, whose reset value is zero - is the sixty-four-lane wave.
#[derive(Debug, Clone, Copy, PartialEq, Eq, Structural)]
pub struct WaveWidths {
    /// The primitive shader (the host's mesh stage) is thirty-two lanes wide.
    pub primitive_w32: bool,
    /// The pixel shader is thirty-two lanes wide.
    pub pixel_w32: bool,
}

impl Default for WaveWidths {
    /// Both stages sixty-four lanes wide, the registers' reset value.
    fn default() -> (r: Self)
        ensures
            r == (WaveWidths { primitive_w32: false, pixel_w32: false }),
    {
        WaveWidths { primitive_w32: false, pixel_w32: false }
    }
}

/// The value live in `register` after `writes`, or its reset value zero.
pub open spec fn live_or_reset(writes: Seq<RegisterWrite>, register: u32) -> u32 {
    match latest_value(writes, register) {
        Some(v) => v,
        None => 0,
    }
}

/// The stages' wave widths, from the live values of `VGT_SHADER_STAGES_EN` and
/// `SPI_PS_IN_CONTROL` among the writes.
pub fn wave_widths_at(writes: &[RegisterWrite]) -> (r: WaveWidths)
    ensures
        r.primitive_w32 == (live_or_reset(writes@, VGT_SHADER_STAGES_EN) & GS_W32_EN != 0),
        r.pixel_w32 == (live_or_reset(writes@, SPI_PS_IN_CONTROL) & PS_W32_EN != 0),
{
    let stages = match latest(writes, VGT_SHADER_STAGES_EN) {
        Some(v) => v,
        None => 0,
    };
    let pixel = match latest(writes, SPI_PS_IN_CONTROL) {
        Some(v) => v,
        None => 0,
    };
    WaveWidths { primitive_w32: stages & GS_W32_EN != 0, pixel_w32: pixel & PS_W32_EN != 0 }
}

/// A scissor rectangle - the region a guest restricts rasterisation to - decoded from the
/// `GENERIC_SCISSOR` top-left and bottom-right register pair.
#[derive(Debug, Clone, Copy, PartialEq, Eq, Structural)]
pub struct Scissor {
    /// Left edge, in pixels.
    pub x: u32,
    /// Top edge, in pixels.
    pub y: u32,
    /// Width in pixels: bottom-right minus top-left, clamped at zero for an empty rectangle.
    pub width: u32,
    /// Height in pixels.
    pub height: u32,
}

/// `PA_SC_GENERIC_SCISSOR_TL`, the application scissor's top-left corner.
pub const PA_SC_GENERIC_SCISSOR_TL: u32 = 0xA090;

/// `PA_SC_GENERIC_SCISSOR_BR`, the application scissor's bottom-right corner.
pub const PA_SC_GENERIC_SCISSOR_BR: u32 = 0xA091;

/// `b - a`, or zero when `b` is below `a`.
pub open spec fn clamped_difference(b: u32, a: u32) -> u32 {
    if b >= a {
        (b - a) as u32
    } else {
        0
    }
}

/// The rectangle a top-left and bottom-right value encode: x in bits 14:0, y in bits 30:16 (the
/// top-left's bit 31 is a flag, not part of the rectangle), the extent the corners' clamped
/// difference.
pub open spec fn spec_decode_scissor(top_left: u32, bottom_right: u32) -> Scissor {
    let tl_x = top_left & 0x7FFFu32;
    let tl_y = (top_left >> 16u32) & 0x7FFFu32;
    let br_x = bottom_right & 0x7FFFu32;
    let br_y = (bottom_right >> 16u32) & 0x7FFFu32;
    Scissor {
        x: tl_x,
        y: tl_y,
        width: clamped_difference(br_x, tl_x),
        height: clamped_difference(br_y, tl_y),
    }
}

/// Decodes a scissor rectangle from its top-left and bottom-right register values; a bottom-right
/// above or left of the top-left is an empty rectangle rather than an underflow.
pub fn decode_scissor(top_left: u32, bottom_right: u32) -> (r: Scissor)
    ensures
        r == spec_decode_scissor(top_left, bottom_right),
{
    let tl_x = top_left & 0x7FFFu32;
    let tl_y = (top_left >> 16u32) & 0x7FFFu32;
    let br_x = bottom_right & 0x7FFFu32;
    let br_y = (bottom_right >> 16u32) & 0x7FFFu32;
    Scissor {
        x: tl_x,
        y: tl_y,
        width: if br_x >= tl_x { br_x - tl_x } else { 0 },
        height: if br_y >= tl_y { br_y - tl_y } else { 0 },
    }
}

/// The scissor from the live `GENERIC_SCISSOR` writes, or `None` when the stream set only one
/// corner or neither.
pub fn scissor_at(writes: &[RegisterWrite]) -> (r: Option<Scissor>)
    ensures
        r == (match (
            latest_value(writes@, PA_SC_GENERIC_SCISSOR_TL),
            latest_value(writes@, PA_SC_GENERIC_SCISSOR_BR),
        ) {
            (Some(tl), Some(br)) => Some(spec_decode_scissor(tl, br)),
            _ => None,
        }),
{
    let tl = latest(writes, PA_SC_GENERIC_SCISSOR_TL);
    let br = latest(writes, PA_SC_GENERIC_SCISSOR_BR);
    match (tl, br) {
        (Some(tl), Some(br)) => Some(decode_scissor(tl, br)),
        _ => None,
    }
}

/// An image resource descriptor - a "T#" - decoded from its eight dwords.
#[derive(Debug, Clone, Copy, PartialEq, Eq, Structural)]
pub struct ImageDescriptor {
    /// Byte address of the texture's pixels.
    pub base: u64,
    /// Width in texels.
    pub width: u32,
    /// Height in texels.
    pub height: u32,
    /// The image format, as the GFX10 format code.
    pub format: u32,
    /// The tiling mode the pixels are stored under.
    pub tiling: SwizzleMode,
}

/// The image descriptor eight dwords encode: the base in 256-byte units across dword 0 and dword
/// 1's low byte; the format in dword 1 bits 28:20; the width one below its size across dword 1
/// bits 31:30 (low) and dword 2 bits 11:0 (high); the height one below its size in dword 2 bits
/// 27:14; the tiling mode in dword 3 bits 24:20.
pub open spec fn spec_decode_image_descriptor(words: [u32; 8]) -> ImageDescriptor {
    ImageDescriptor {
        base: ((words[0] as int + (words[1] & 0xFFu32) as int * 0x1_0000_0000) * 256) as u64,
        width: (((words[1] >> 30u32) & 0x3u32) as int + (words[2] & 0xFFFu32) as int * 4 + 1) as u32,
        height: (((words[2] >> 14u32) & 0x3FFFu32) as int + 1) as u32,
        format: (words[1] >> 20u32) & 0x1FFu32,
        tiling: spec_decode_swizzle_mode((words[3] >> 20u32) & 0x1Fu32),
    }
}

/// Decodes an image resource descriptor from its eight dwords, in register order. The last four
/// hold mip levels and array bounds, which are not modelled.
pub fn decode_image_descriptor(words: [u32; 8]) -> (r: ImageDescriptor)
    ensures
        r == spec_decode_image_descriptor(words),
{
    let base_low = words[0];
    let mid = words[1];
    let extent = words[2];
    let tiling_word = words[3];
    let high = mid & 0xFFu32;
    let base = ((base_low as u64) | ((high as u64) << 32u64)) << 8u64;
    proof {
        assert(high <= 0xFF) by (bit_vector)
            requires
                high == mid & 0xFFu32,
        ;
        assert(((base_low as u64) | ((high as u64) << 32u64)) << 8u64 == ((base_low as int + high
            * 0x1_0000_0000) * 256) as u64) by (bit_vector)
            requires
                high <= 0xFF,
        ;
    }
    let low_bits = (mid >> 30u32) & 0x3u32;
    let high_bits = extent & 0xFFFu32;
    proof {
        assert(low_bits <= 3 && high_bits <= 0xFFF) by (bit_vector)
            requires
                low_bits == (mid >> 30u32) & 0x3u32,
                high_bits == extent & 0xFFFu32,
        ;
        assert((low_bits | (high_bits << 2u32)) == low_bits + high_bits * 4) by (bit_vector)
            requires
                low_bits <= 3,
                high_bits <= 0xFFF,
        ;
    }
    let width = (low_bits | (high_bits << 2u32)) + 1;
    let rows = (extent >> 14u32) & 0x3FFFu32;
    proof {
        assert(rows <= 0x3FFF) by (bit_vector)
            requires
                rows == (extent >> 14u32) & 0x3FFFu32,
        ;
    }
    ImageDescriptor {
        base,
        width,
        height: rows + 1,
        format: (mid >> 20u32) & 0x1FFu32,
        tiling: decode_swizzle_mode((tiling_word >> 20u32) & 0x1Fu32),
    }
}


/// One draw a submission asked for.
#[derive(Debug, Clone, Copy, PartialEq, Eq, Structural)]
pub struct DrawCall {
    /// Byte offset of the packet that asked for it.
    pub packet_offset: u32,
    /// Instances, from the most recent instance-count packet before it.
    pub instances: u32,
    /// How the draw sources the vertices it issues.
    pub kind: DrawKind,
}

/// How a draw sources the vertices it issues.
#[derive(Debug, Clone, Copy, PartialEq, Eq, Structural)]
pub enum DrawKind {
    /// Auto-generated indices (`DRAW_INDEX_AUTO`): the count is the draw's own and no index
    /// buffer is read.
    Auto {
        /// Vertices per instance.
        vertices: u32,
    },
    /// Indexed (`DRAW_INDEX_2`): `indices` values are fetched from the index buffer at `address`,
    /// both carried in the draw packet's own body.
    Indexed {
        /// Indices per instance.
        indices: u32,
        /// Base address of the index buffer the draw reads.
        address: u64,
    },
}

/// Body word `i` of command packet `p` with opcode `opcode`, when the packet is that command, its
/// body lies inside the stream and the word is whole.
pub open spec fn command_word(p: Packet, body: Seq<u8>, opcode: u8, i: int) -> Option<u32> {
    match (p.kind, body_range(p, body)) {
        (PacketKind::Command { opcode: op }, Some((start, length))) => if op == opcode {
            body_word(body, start, length, i)
        } else {
            None
        },
        _ => None,
    }
}

/// The instance count in force after `packets`: the first body word of the last instance-count
/// packet that has one, or one when there is none.
pub open spec fn instances_after(packets: Seq<Packet>, body: Seq<u8>) -> u32
    decreases packets.len(),
{
    if packets.len() == 0 {
        1
    } else {
        match command_word(packets.last(), body, crate::packet::build::measured::NUM_INSTANCES, 0) {
            Some(count) => count,
            None => instances_after(packets.drop_last(), body),
        }
    }
}

/// The draw packet `p` asks for, given the instance count in force before it: an auto-indexed
/// draw with a first body word, or an indexed draw whose body holds words 1 to 3.
pub open spec fn packet_draw(p: Packet, body: Seq<u8>, instances: u32) -> Seq<DrawCall> {
    match command_word(p, body, crate::packet::build::measured::DRAW_INDEX_AUTO, 0) {
        Some(vertices) => seq![
            DrawCall { packet_offset: p.offset, instances, kind: DrawKind::Auto { vertices } },
        ],
        None => {
            let op = crate::packet::build::measured::DRAW_INDEX_2;
            match (command_word(p, body, op, 1), command_word(p, body, op, 2), command_word(p, body, op, 3)) {
                (Some(lo), Some(hi), Some(indices)) => seq![
                    DrawCall {
                        packet_offset: p.offset,
                        instances,
                        kind: DrawKind::Indexed {
                            indices,
                            address: (lo as int + hi as int * 0x1_0000_0000) as u64,
                        },
                    },
                ],
                _ => Seq::empty(),
            }
        },
    }
}

/// Every draw `packets` ask for, in order.
pub open spec fn draws_of(packets: Seq<Packet>, body: Seq<u8>) -> Seq<DrawCall>
    decreases packets.len(),
{
    if packets.len() == 0 {
        Seq::empty()
    } else {
        draws_of(packets.drop_last(), body) + packet_draw(
            packets.last(),
            body,
            instances_after(packets.drop_last(), body),
        )
    }
}

/// The little-endian word of body word `i`, read from the stream.
fn word_of(body: &[u8], start: usize, length: usize, i: usize) -> (r: Option<u32>)
    requires
        start + length <= body@.len(),
    ensures
        r == body_word(body@, start as int, length as int, i as int),
{
    body_word_at(body, start, length, i)
}

/// Every draw a submission asked for, in order. The auto-indexed draw's first body word is its
/// vertex count and the instance-count packet's first is the number of instances, one until a
/// stream says otherwise; the indexed draw's body is `[max_size, addr_lo, addr_hi, index_count,
/// initiator]`. A body too short for the words a draw needs is dropped rather than read past.
pub fn draw_calls(walk: &PacketWalk, body: &[u8]) -> (r: Vec<DrawCall>)
    requires
        offsets_representable(walk),
    ensures
        r@ == draws_of(walk.packets@, body@),
{
    let mut draws: Vec<DrawCall> = Vec::new();
    let mut instances: u32 = 1;
    let mut k: usize = 0;
    while k < walk.packets.len()
        invariant
            offsets_representable(walk),
            k <= walk.packets@.len(),
            draws@ == draws_of(walk.packets@.subrange(0, k as int), body@),
            instances == instances_after(walk.packets@.subrange(0, k as int), body@),
        decreases walk.packets@.len() - k,
    {
        let packet = &walk.packets[k];
        let ghost prefix = walk.packets@.subrange(0, k as int);
        proof {
            let sub = walk.packets@.subrange(0, k as int + 1);
            assert(sub.drop_last() =~= prefix);
            assert(sub.last() == *packet);
            assert(walk.packets@[k as int].offset <= u32::MAX - 4);
        }
        let ghost expected = packet_draw(*packet, body@, instances);
        if let PacketKind::Command { opcode } = packet.kind {
            if let Some((start, length)) = packet_body(packet, body) {
                if opcode == crate::packet::build::measured::NUM_INSTANCES {
                    if let Some(count) = word_of(body, start, length, 0) {
                        instances = count;
                    }
                    proof {
                        assert(expected =~= Seq::<DrawCall>::empty());
                        assert(draws@ =~= draws@ + expected);
                    }
                } else if opcode == crate::packet::build::measured::DRAW_INDEX_AUTO {
                    if let Some(vertices) = word_of(body, start, length, 0) {
                        draws.push(
                            DrawCall {
                                packet_offset: packet.offset,
                                instances,
                                kind: DrawKind::Auto { vertices },
                            },
                        );
                    }
                } else if opcode == crate::packet::build::measured::DRAW_INDEX_2 {
                    let lo = word_of(body, start, length, 1);
                    let hi = word_of(body, start, length, 2);
                    let count = word_of(body, start, length, 3);
                    match (lo, hi, count) {
                        (Some(lo), Some(hi), Some(indices)) => {
                            let address = (lo as u64) | ((hi as u64) << 32u64);
                            proof {
                                assert((lo as u64) | ((hi as u64) << 32u64) == (lo as int + hi as int
                                    * 0x1_0000_0000) as u64) by (bit_vector);
                            }
                            draws.push(
                                DrawCall {
                                    packet_offset: packet.offset,
                                    instances,
                                    kind: DrawKind::Indexed { indices, address },
                                },
                            );
                        },
                        _ => {},
                    }
                }
            }
        }
        proof {
            assert(draws@ =~= draws_of(walk.packets@.subrange(0, k as int + 1), body@));
        }
        k = k + 1;
    }
    proof {
        assert(walk.packets@.subrange(0, k as int) =~= walk.packets@);
    }
    draws
}

/// A compute dispatch a submission asked for.
#[derive(Debug, Clone, Copy, PartialEq, Eq)]
pub struct DispatchCall {
    /// Byte offset of the packet that asked for it.
    pub packet_offset: u32,
    /// Workgroup counts on X, Y and Z.
    pub groups: [u32; 3],
}

/// The dispatch packet `p` asks for: a direct dispatch whose body holds its first three words.
pub open spec fn packet_dispatch(p: Packet, body: Seq<u8>) -> Seq<DispatchCall> {
    let op = crate::packet::build::DISPATCH_DIRECT;
    match (command_word(p, body, op, 0), command_word(p, body, op, 1), command_word(p, body, op, 2)) {
        (Some(x), Some(y), Some(z)) => seq![DispatchCall { packet_offset: p.offset, groups: [x, y, z] }],
        _ => Seq::empty(),
    }
}

/// Every dispatch `packets` ask for, in order.
pub open spec fn dispatches_of(packets: Seq<Packet>, body: Seq<u8>) -> Seq<DispatchCall>
    decreases packets.len(),
{
    if packets.len() == 0 {
        Seq::empty()
    } else {
        dispatches_of(packets.drop_last(), body) + packet_dispatch(packets.last(), body)
    }
}

/// Every compute dispatch a submission asked for, in order. `DISPATCH_DIRECT`'s body is `[x, y,
/// z, initiator]`; a body too short to hold the three counts is dropped rather than read past.
pub fn dispatch_calls(walk: &PacketWalk, body: &[u8]) -> (r: Vec<DispatchCall>)
    requires
        offsets_representable(walk),
    ensures
        r@ == dispatches_of(walk.packets@, body@),
{
    let mut dispatches: Vec<DispatchCall> = Vec::new();
    let mut k: usize = 0;
    while k < walk.packets.len()
        invariant
            offsets_representable(walk),
            k <= walk.packets@.len(),
            dispatches@ == dispatches_of(walk.packets@.subrange(0, k as int), body@),
        decreases walk.packets@.len() - k,
    {
        let packet = &walk.packets[k];
        let ghost prefix = walk.packets@.subrange(0, k as int);
        proof {
            let sub = walk.packets@.subrange(0, k as int + 1);
            assert(sub.drop_last() =~= prefix);
            assert(sub.last() == *packet);
            assert(walk.packets@[k as int].offset <= u32::MAX - 4);
        }
        if let PacketKind::Command { opcode } = packet.kind {
            if opcode == crate::packet::build::DISPATCH_DIRECT {
                if let Some((start, length)) = packet_body(packet, body) {
                    let x = word_of(body, start, length, 0);
                    let y = word_of(body, start, length, 1);
                    let z = word_of(body, start, length, 2);
                    match (x, y, z) {
                        (Some(x), Some(y), Some(z)) => {
                            dispatches.push(DispatchCall { packet_offset: packet.offset, groups: [x, y, z] });
                        },
                        _ => {},
                    }
                }
            }
        }
        proof {
            assert(dispatches@ =~= dispatches_of(walk.packets@.subrange(0, k as int + 1), body@));
        }
        k = k + 1;
    }
    proof {
        assert(walk.packets@.subrange(0, k as int) =~= walk.packets@);
    }
    dispatches
}


/// A draw or a dispatch - whichever unit of GPU work a correlation record is about.
#[derive(Debug, Clone, Copy, PartialEq, Eq)]
pub enum DrawOrDispatch {
    /// A draw (`DRAW_INDEX_AUTO` or `DRAW_INDEX_2`).
    Draw(DrawCall),
    /// A compute dispatch (`DISPATCH_DIRECT`).
    Dispatch(DispatchCall),
}

impl DrawOrDispatch {
    /// Byte offset of the packet that asked for this work.
    pub open spec fn spec_packet_offset(&self) -> u32 {
        match self {
            DrawOrDispatch::Draw(draw) => draw.packet_offset,
            DrawOrDispatch::Dispatch(dispatch) => dispatch.packet_offset,
        }
    }

    /// Byte offset of the packet that asked for this work - what orders it within the stream.
    pub fn packet_offset(&self) -> (r: u32)
        ensures
            r == self.spec_packet_offset(),
    {
        match self {
            DrawOrDispatch::Draw(draw) => draw.packet_offset,
            DrawOrDispatch::Dispatch(dispatch) => dispatch.packet_offset,
        }
    }
}

/// A draw or dispatch, paired with the shader addresses live when it issued.
#[derive(Debug, Clone, PartialEq, Eq)]
pub struct DrawCorrelation {
    /// The draw or dispatch, with its own decoded fields.
    pub work: DrawOrDispatch,
    /// The shader addresses live when it issued; empty when the stream bound none before it.
    pub shaders: Vec<ShaderCandidate>,
}

/// The index of the first of `units` asked for by a packet after `offset`, or their length.
pub open spec fn first_later(units: Seq<DrawOrDispatch>, offset: u32) -> nat
    decreases units.len(),
{
    if units.len() == 0 {
        0
    } else if units[0].spec_packet_offset() > offset {
        0
    } else {
        1 + first_later(units.drop_first(), offset)
    }
}

/// `units` stably ordered by packet offset: each is placed after every earlier one at or before
/// its offset.
pub open spec fn ordered_by_offset(units: Seq<DrawOrDispatch>) -> Seq<DrawOrDispatch>
    decreases units.len(),
{
    if units.len() == 0 {
        Seq::empty()
    } else {
        let placed = ordered_by_offset(units.drop_last());
        placed.insert(first_later(placed, units.last().spec_packet_offset()) as int, units.last())
    }
}

/// Every draw, then every dispatch, `packets` ask for.
pub open spec fn work_of(packets: Seq<Packet>, body: Seq<u8>) -> Seq<DrawOrDispatch> {
    draws_of(packets, body).map_values(|d: DrawCall| DrawOrDispatch::Draw(d)) + dispatches_of(
        packets,
        body,
    ).map_values(|d: DispatchCall| DrawOrDispatch::Dispatch(d))
}

/// The first later unit's index is the one a scan finds: the first whose offset exceeds `offset`.
proof fn lemma_first_later_at(units: Seq<DrawOrDispatch>, offset: u32, k: int)
    requires
        0 <= k <= units.len(),
        forall|j: int| 0 <= j < k ==> #[trigger] units[j].spec_packet_offset() <= offset,
        k < units.len() ==> units[k].spec_packet_offset() > offset,
    ensures
        first_later(units, offset) == k,
    decreases k,
{
    if k > 0 {
        let rest = units.drop_first();
        assert forall|j: int| 0 <= j < k - 1 implies #[trigger] rest[j].spec_packet_offset() <= offset by {
            assert(rest[j] == units[j + 1]);
        }
        if k < units.len() {
            assert(rest[k - 1] == units[k]);
        }
        assert(units[0].spec_packet_offset() <= offset);
        lemma_first_later_at(rest, offset, k - 1);
    }
}

/// Every unit before the first later one is at or before `offset`; the rest are after it when
/// `units` are ordered.
proof fn lemma_first_later_bounds(units: Seq<DrawOrDispatch>, offset: u32)
    ensures
        first_later(units, offset) <= units.len(),
        forall|j: int|
            0 <= j < first_later(units, offset) ==> #[trigger] units[j].spec_packet_offset() <= offset,
        first_later(units, offset) < units.len() ==> units[first_later(units, offset) as int].spec_packet_offset()
            > offset,
    decreases units.len(),
{
    if units.len() > 0 && units[0].spec_packet_offset() <= offset {
        let rest = units.drop_first();
        lemma_first_later_bounds(rest, offset);
        assert forall|j: int|
            0 <= j < first_later(units, offset) implies #[trigger] units[j].spec_packet_offset() <= offset by {
            if j > 0 {
                assert(units[j] == rest[j - 1]);
            }
        }
        if first_later(units, offset) < units.len() {
            assert(units[first_later(units, offset) as int] == rest[first_later(rest, offset) as int]);
        }
    }
}

/// Whether `units` are in packet-offset order.
pub open spec fn offsets_ascending(units: Seq<DrawOrDispatch>) -> bool {
    forall|i: int, j: int|
        0 <= i < j < units.len() ==> #[trigger] units[i].spec_packet_offset()
            <= #[trigger] units[j].spec_packet_offset()
}

/// Correlated work comes out in stream order: ordering by packet offset leaves every unit at or
/// before the ones after it, and keeps every unit.
pub proof fn lemma_ordered_by_offset_ascends(units: Seq<DrawOrDispatch>)
    ensures
        offsets_ascending(ordered_by_offset(units)),
        ordered_by_offset(units).len() == units.len(),
    decreases units.len(),
{
    if units.len() > 0 {
        let placed = ordered_by_offset(units.drop_last());
        lemma_ordered_by_offset_ascends(units.drop_last());
        let x = units.last();
        let off = x.spec_packet_offset();
        let k = first_later(placed, off) as int;
        lemma_first_later_bounds(placed, off);
        let out = placed.insert(k, x);
        assert(out == ordered_by_offset(units));
        assert forall|i: int, j: int| 0 <= i < j < out.len() implies #[trigger] out[i].spec_packet_offset()
            <= #[trigger] out[j].spec_packet_offset() by {
            if j < k {
                assert(out[i] == placed[i] && out[j] == placed[j]);
            } else if j == k {
                assert(out[i] == placed[i]);
            } else if i < k {
                assert(out[i] == placed[i] && out[j] == placed[j - 1]);
            } else if i == k {
                assert(out[j] == placed[j - 1]);
                if k < placed.len() {
                    assert(placed[k].spec_packet_offset() <= placed[j - 1].spec_packet_offset());
                }
            } else {
                assert(out[i] == placed[i - 1] && out[j] == placed[j - 1]);
            }
        }
    }
}

/// Places `unit` after every unit already placed at or before its packet offset.
fn place_by_offset(placed: &mut Vec<DrawOrDispatch>, unit: DrawOrDispatch)
    ensures
        final(placed)@ == old(placed)@.insert(
            first_later(old(placed)@, unit.spec_packet_offset()) as int,
            unit,
        ),
{
    let offset = unit.packet_offset();
    let mut k: usize = 0;
    let mut scanning = true;
    while scanning && k < placed.len()
        invariant
            k <= placed@.len(),
            placed@ == old(placed)@,
            forall|j: int| 0 <= j < k ==> #[trigger] placed@[j].spec_packet_offset() <= offset,
            !scanning ==> k < placed@.len() && placed@[k as int].spec_packet_offset() > offset,
        decreases (placed@.len() - k) * 2 + (if scanning { 1int } else { 0int }),
    {
        if placed[k].packet_offset() > offset {
            scanning = false;
        } else {
            k = k + 1;
        }
    }
    proof {
        lemma_first_later_at(placed@, offset, k as int);
    }
    placed.insert(k, unit);
}

/// Correlates every draw and dispatch in a stream with the shader addresses live at it: the
/// units ordered by where they sit in the stream, each with the shader candidates the register
/// writes in the packets before its own reassemble.
pub fn correlate_draws(walk: &PacketWalk, body: &[u8], vocabulary: &Vocabulary) -> (r: Vec<
    DrawCorrelation,
>)
    requires
        vocabulary.wf(),
        offsets_representable(walk),
    ensures
        r@.len() == ordered_by_offset(work_of(walk.packets@, body@)).len(),
        forall|i: int|
            0 <= i < r@.len() ==> {
                let unit = #[trigger] ordered_by_offset(work_of(walk.packets@, body@))[i];
                &&& r@[i].work == unit
                &&& candidates_of(
                    r@[i].shaders@,
                    all_writes(walk.packets@, body@, *vocabulary).filter(
                        |w: RegisterWrite| w.packet_offset < unit.spec_packet_offset(),
                    ),
                    *vocabulary,
                )
            },
{
    let writes = register_writes(walk, body, vocabulary);
    let draws = draw_calls(walk, body);
    let dispatches = dispatch_calls(walk, body);
    let ghost units = work_of(walk.packets@, body@);
    let ghost draw_units = draws@.map_values(|d: DrawCall| DrawOrDispatch::Draw(d));
    let mut placed: Vec<DrawOrDispatch> = Vec::new();
    let mut i: usize = 0;
    while i < draws.len()
        invariant
            i <= draws@.len(),
            placed@ == ordered_by_offset(draw_units.subrange(0, i as int)),
            draw_units == draws@.map_values(|d: DrawCall| DrawOrDispatch::Draw(d)),
        decreases draws@.len() - i,
    {
        proof {
            let sub = draw_units.subrange(0, i as int + 1);
            assert(sub.drop_last() =~= draw_units.subrange(0, i as int));
            assert(sub.last() == DrawOrDispatch::Draw(draws@[i as int]));
        }
        place_by_offset(&mut placed, DrawOrDispatch::Draw(draws[i]));
        i = i + 1;
    }
    proof {
        assert(draw_units.subrange(0, i as int) =~= draw_units);
    }
    let ghost dispatch_units = dispatches@.map_values(|d: DispatchCall| DrawOrDispatch::Dispatch(d));
    let mut j: usize = 0;
    while j < dispatches.len()
        invariant
            j <= dispatches@.len(),
            placed@ == ordered_by_offset(draw_units + dispatch_units.subrange(0, j as int)),
            dispatch_units == dispatches@.map_values(|d: DispatchCall| DrawOrDispatch::Dispatch(d)),
        decreases dispatches@.len() - j,
    {
        proof {
            let sub = draw_units + dispatch_units.subrange(0, j as int + 1);
            assert(sub.drop_last() =~= draw_units + dispatch_units.subrange(0, j as int));
            assert(sub.last() == DrawOrDispatch::Dispatch(dispatches@[j as int]));
        }
        place_by_offset(&mut placed, DrawOrDispatch::Dispatch(dispatches[j]));
        j = j + 1;
    }
    proof {
        assert(draw_units + dispatch_units.subrange(0, j as int) =~= units);
    }
    let ghost all = writes@;
    let mut out: Vec<DrawCorrelation> = Vec::new();
    let mut n: usize = 0;
    while n < placed.len()
        invariant
            vocabulary.wf(),
            n <= placed@.len(),
            placed@ == ordered_by_offset(units),
            writes@ == all,
            all == all_writes(walk.packets@, body@, *vocabulary),
            out@.len() == n,
            forall|m: int|
                0 <= m < n ==> {
                    let unit = #[trigger] placed@[m];
                    &&& out@[m].work == unit
                    &&& candidates_of(
                        out@[m].shaders@,
                        all.filter(|w: RegisterWrite| w.packet_offset < unit.spec_packet_offset()),
                        *vocabulary,
                    )
                },
        decreases placed@.len() - n,
    {
        let unit = placed[n];
        let offset = unit.packet_offset();
        let before = writes_before(writes.as_slice(), offset);
        let shaders = shader_candidates(before.as_slice(), vocabulary);
        out.push(DrawCorrelation { work: unit, shaders });
        n = n + 1;
    }
    out
}


/// The index of the first of `writes` made in a packet at or after `before`, or their length:
/// how far a sweep has taken the stream in when asked about packet `before`.
pub open spec fn swept(writes: Seq<RegisterWrite>, before: u32) -> nat
    decreases writes.len(),
{
    if writes.len() == 0 {
        0
    } else if writes[0].packet_offset >= before {
        0
    } else {
        1 + swept(writes.drop_first(), before)
    }
}

/// The writes a sweep has taken in when asked about packet `before`: those up to the first made
/// in a packet at or after it.
pub open spec fn swept_writes(writes: Seq<RegisterWrite>, before: u32) -> Seq<RegisterWrite> {
    writes.take(swept(writes, before) as int)
}

/// The index of the most recent write to `register` among `writes`.
pub open spec fn latest_index(writes: Seq<RegisterWrite>, register: u32) -> Option<usize>
    decreases writes.len(),
{
    if writes.len() == 0 {
        None
    } else if writes.last().register == register {
        Some((writes.len() - 1) as usize)
    } else {
        latest_index(writes.drop_last(), register)
    }
}

/// The indices of the most recent write to each of `registers` that has one, in the order the
/// registers are named.
pub open spec fn latest_indices(writes: Seq<RegisterWrite>, registers: Seq<u32>) -> Seq<usize>
    decreases registers.len(),
{
    if registers.len() == 0 {
        Seq::empty()
    } else {
        let rest = latest_indices(writes, registers.drop_last());
        match latest_index(writes, registers.last()) {
            Some(i) => rest.push(i),
            None => rest,
        }
    }
}

/// Ascending order on indices.
pub open spec fn index_leq() -> spec_fn(usize, usize) -> bool {
    |a: usize, b: usize| a <= b
}

/// The sweep's scan stops at the first write at or after `before`.
proof fn lemma_swept_at(writes: Seq<RegisterWrite>, before: u32, k: int)
    requires
        0 <= k <= writes.len(),
        forall|j: int| 0 <= j < k ==> #[trigger] writes[j].packet_offset < before,
        k < writes.len() ==> writes[k].packet_offset >= before,
    ensures
        swept(writes, before) == k,
    decreases k,
{
    if k > 0 {
        let rest = writes.drop_first();
        assert forall|j: int| 0 <= j < k - 1 implies #[trigger] rest[j].packet_offset < before by {
            assert(rest[j] == writes[j + 1]);
        }
        if k < writes.len() {
            assert(rest[k - 1] == writes[k]);
        }
        assert(writes[0].packet_offset < before);
        lemma_swept_at(rest, before, k - 1);
    }
}

/// Every write a sweep has taken in was made before `before`.
proof fn lemma_swept_bounds(writes: Seq<RegisterWrite>, before: u32)
    ensures
        swept(writes, before) <= writes.len(),
        forall|j: int| 0 <= j < swept(writes, before) ==> #[trigger] writes[j].packet_offset < before,
        swept(writes, before) < writes.len() ==> writes[swept(writes, before) as int].packet_offset
            >= before,
    decreases writes.len(),
{
    if writes.len() > 0 && writes[0].packet_offset < before {
        let rest = writes.drop_first();
        lemma_swept_bounds(rest, before);
        assert forall|j: int| 0 <= j < swept(writes, before) implies #[trigger] writes[j].packet_offset
            < before by {
            if j > 0 {
                assert(writes[j] == rest[j - 1]);
            }
        }
        if swept(writes, before) < writes.len() {
            assert(writes[swept(writes, before) as int] == rest[swept(rest, before) as int]);
        }
    }
}

/// The most recent write's index names a write to the register, and its value is the live one.
proof fn lemma_latest_index_value(writes: Seq<RegisterWrite>, register: u32)
    requires
        writes.len() <= usize::MAX,
    ensures
        match latest_index(writes, register) {
            Some(j) => j < writes.len() && writes[j as int].register == register && latest_value(
                writes,
                register,
            ) == Some(writes[j as int].value),
            None => latest_value(writes, register) is None,
        },
    decreases writes.len(),
{
    if writes.len() > 0 && writes.last().register != register {
        lemma_latest_index_value(writes.drop_last(), register);
    }
}

/// Taking in one more write makes it the most recent to its register and leaves the rest.
proof fn lemma_latest_index_push(writes: Seq<RegisterWrite>, k: int, register: u32)
    requires
        0 <= k < writes.len(),
        writes.len() <= usize::MAX,
    ensures
        latest_index(writes.take(k + 1), register) == (if writes[k].register == register {
            Some(k as usize)
        } else {
            latest_index(writes.take(k), register)
        }),
{
    assert(writes.take(k + 1).drop_last() =~= writes.take(k));
}

/// Index order is a total order.
proof fn lemma_index_leq_total()
    ensures
        vstd::relations::total_ordering(index_leq()),
{
    let leq = index_leq();
    assert(vstd::relations::reflexive(leq));
    assert(vstd::relations::antisymmetric(leq));
    assert(vstd::relations::transitive(leq));
    assert(vstd::relations::strongly_connected(leq));
}

/// Filtering by a predicate that holds exactly on the first `k` writes keeps those `k`.
proof fn lemma_filter_of_prefix(writes: Seq<RegisterWrite>, before: u32, k: int)
    requires
        0 <= k <= writes.len(),
        forall|j: int| 0 <= j < writes.len() ==> (j < k <==> #[trigger] writes[j].packet_offset < before),
    ensures
        writes.filter(|w: RegisterWrite| w.packet_offset < before) == writes.take(k),
    decreases writes.len(),
{
    let pred = |w: RegisterWrite| w.packet_offset < before;
    if writes.len() == 0 {
        assert(writes.filter(pred) =~= Seq::<RegisterWrite>::empty());
        assert(writes.take(k) =~= Seq::<RegisterWrite>::empty());
    } else {
        let init = writes.drop_last();
        let last = writes.last();
        assert(writes =~= init.push(last));
        init.lemma_filter_push(last, pred);
        if k == writes.len() {
            assert forall|j: int| 0 <= j < init.len() implies (j < k - 1 <==> #[trigger] init[j].packet_offset
                < before) by {
                assert(init[j] == writes[j]);
            }
            lemma_filter_of_prefix(init, before, k - 1);
            assert(pred(last));
            assert(writes.take(k) =~= init.take(k - 1).push(last));
        } else {
            assert forall|j: int| 0 <= j < init.len() implies (j < k <==> #[trigger] init[j].packet_offset
                < before) by {
                assert(init[j] == writes[j]);
            }
            lemma_filter_of_prefix(init, before, k);
            assert(!pred(writes[writes.len() - 1]));
            assert(writes.take(k) =~= init.take(k));
        }
    }
}

/// Whether `writes` are in packet order: no write is made in an earlier packet than one before it.
pub open spec fn in_packet_order(writes: Seq<RegisterWrite>) -> bool {
    forall|i: int, j: int|
        0 <= i <= j < writes.len() ==> #[trigger] writes[i].packet_offset <= #[trigger] writes[j].packet_offset
}

/// The sweep answers what the whole stream would: over writes in packet order - as
/// [`register_writes`] makes them - the writes a sweep has taken in at packet `before` are exactly
/// those made in earlier packets, so its latest value of each register is the latest among them.
pub proof fn lemma_sweep_sees_the_earlier_writes(writes: Seq<RegisterWrite>, before: u32)
    requires
        in_packet_order(writes),
    ensures
        swept_writes(writes, before) == writes.filter(|w: RegisterWrite| w.packet_offset < before),
{
    lemma_swept_bounds(writes, before);
    let k = swept(writes, before) as int;
    assert forall|j: int| 0 <= j < writes.len() implies (j < k <==> #[trigger] writes[j].packet_offset
        < before) by {
        if j >= k {
            assert(writes[k].packet_offset <= writes[j].packet_offset);
        }
    }
    lemma_filter_of_prefix(writes, before, k);
}

/// The latest write to each register before a point in a stream, kept as the stream is walked
/// forward, so a caller asking per draw in order takes the stream in once.
#[derive(Debug)]
pub struct RegisterSweep<'a> {
    writes: &'a [RegisterWrite],
    next: usize,
    reached: u32,
    latest: std::collections::HashMap<u32, usize>,
}

impl<'a> RegisterSweep<'a> {
    /// The writes the sweep walks.
    pub closed spec fn spec_writes(&self) -> Seq<RegisterWrite> {
        self.writes@
    }

    /// The sweep is consistent: it has taken in exactly the writes before its last point, and
    /// knows each register's most recent among them.
    pub closed spec fn wf(&self) -> bool {
        &&& self.writes@.len() <= usize::MAX
        &&& self.next == swept(self.writes@, self.reached)
        &&& forall|register: u32|
            #![trigger self.latest@.contains_key(register)]
            match latest_index(self.writes@.take(self.next as int), register) {
                Some(j) => self.latest@.contains_key(register) && self.latest@[register] == j,
                None => !self.latest@.contains_key(register),
            }
    }

    /// A sweep over `writes`, in the order they were made.
    pub fn new(writes: &'a [RegisterWrite]) -> (r: Self)
        ensures
            r.wf(),
            r.spec_writes() == writes@,
    {
        let n = writes.len();
        let r = RegisterSweep { writes, next: 0, reached: 0, latest: std::collections::HashMap::new() };
        proof {
            lemma_swept_at(writes@, 0, 0);
            assert forall|register: u32| #![trigger r.latest@.contains_key(register)] match latest_index(
                writes@.take(0),
                register,
            ) {
                Some(j) => r.latest@.contains_key(register) && r.latest@[register] == j,
                None => !r.latest@.contains_key(register),
            } by {
                assert(writes@.take(0).len() == 0);
            }
        }
        r
    }

    /// Takes in every write made before `before`, starting again when asked about an earlier
    /// point.
    #[verifier::spinoff_prover]
    #[verifier::rlimit(40)]
    fn advance(&mut self, before: u32)
        requires
            old(self).wf(),
        ensures
            final(self).wf(),
            final(self).writes@ == old(self).writes@,
            final(self).next == swept(old(self).writes@, before),
    {
        if before == self.reached {
            return;
        }
        let ghost ws = self.writes@;
        proof {
            lemma_swept_bounds(ws, self.reached);
        }
        if before < self.reached {
            self.next = 0;
            self.latest.clear();
            proof {
                assert forall|register: u32| #![trigger self.latest@.contains_key(register)] match latest_index(
                    ws.take(0),
                    register,
                ) {
                    Some(j) => self.latest@.contains_key(register) && self.latest@[register] == j,
                    None => !self.latest@.contains_key(register),
                } by {
                    assert(ws.take(0).len() == 0);
                }
            }
        }
        self.reached = before;
        let n = self.writes.len();
        let mut taking = true;
        while taking && self.next < n
            invariant
                n == ws.len(),
                ws.len() <= usize::MAX,
                self.writes@ == ws,
                self.reached == before,
                self.next <= n,
                forall|j: int| 0 <= j < self.next ==> #[trigger] ws[j].packet_offset < before,
                !taking ==> self.next < n && ws[self.next as int].packet_offset >= before,
                forall|register: u32|
                    #![trigger self.latest@.contains_key(register)]
                    match latest_index(ws.take(self.next as int), register) {
                        Some(j) => self.latest@.contains_key(register) && self.latest@[register] == j,
                        None => !self.latest@.contains_key(register),
                    },
            decreases (n - self.next) * 2 + (if taking { 1int } else { 0int }),
        {
            let write = self.writes[self.next];
            if write.packet_offset >= before {
                taking = false;
            } else {
                let ghost k = self.next as int;
                let ghost old_map = self.latest@;
                self.latest.insert(write.register, self.next);
                proof {
                    assert forall|register: u32| #![trigger self.latest@.contains_key(register)] match latest_index(
                        ws.take(k + 1),
                        register,
                    ) {
                        Some(j) => self.latest@.contains_key(register) && self.latest@[register] == j,
                        None => !self.latest@.contains_key(register),
                    } by {
                        lemma_latest_index_push(ws, k, register);
                        if register != write.register {
                            assert(old_map.contains_key(register) == self.latest@.contains_key(register));
                        }
                    }
                }
                self.next = self.next + 1;
            }
        }
        proof {
            lemma_swept_at(ws, before, self.next as int);
            assert(self.next == swept(self.writes@, self.reached));
        }
    }

    /// The value of the latest write to `register` in packets before `before`, if there was one.
    pub fn latest(&mut self, before: u32, register: u32) -> (r: Option<u32>)
        requires
            old(self).wf(),
        ensures
            final(self).wf(),
            final(self).spec_writes() == old(self).spec_writes(),
            r == latest_value(swept_writes(old(self).spec_writes(), before), register),
            in_packet_order(old(self).spec_writes()) ==> r == last_before(old(self).spec_writes(), register, before),
    {
        proof {
            if in_packet_order(self.writes@) {
                lemma_sweep_is_a_reverse_find(self.writes@, before, register);
            }
        }
        self.advance(before);
        let ghost taken = self.writes@.take(self.next as int);
        proof {
            lemma_swept_bounds(self.writes@, before);
            lemma_latest_index_value(taken, register);
            assert(self.latest@.contains_key(register) ==> latest_index(taken, register) is Some);
        }
        match self.latest.get(&register) {
            Some(index) => {
                let i = *index;
                proof {
                    assert(self.latest@.contains_key(register));
                    assert(taken[i as int] == self.writes@[i as int]);
                }
                Some(self.writes[i].value)
            },
            None => None,
        }
    }

    /// The latest write to each of `registers` made in packets before `before`, in the order they
    /// were made. Asked in increasing order this is one pass over the stream; asked out of order
    /// it starts again, so it is never wrong, only slower.
    pub fn before_among(&mut self, before: u32, registers: &[u32]) -> (r: Vec<RegisterWrite>)
        requires
            old(self).wf(),
        ensures
            final(self).wf(),
            final(self).spec_writes() == old(self).spec_writes(),
            r@ == latest_indices(swept_writes(old(self).spec_writes(), before), registers@).sort_by(
                index_leq(),
            ).map_values(|i: usize| old(self).spec_writes()[i as int]),
    {
        self.advance(before);
        let ghost taken = self.writes@.take(self.next as int);
        proof {
            lemma_swept_bounds(self.writes@, before);
        }
        let mut indices: Vec<usize> = Vec::new();
        let mut k: usize = 0;
        while k < registers.len()
            invariant
                self.wf(),
                taken == self.writes@.take(self.next as int),
                self.next <= self.writes@.len(),
                k <= registers@.len(),
                indices@ == latest_indices(taken, registers@.take(k as int)),
                forall|m: int| 0 <= m < indices@.len() ==> #[trigger] indices@[m] < self.next,
            decreases registers@.len() - k,
        {
            let register = registers[k];
            proof {
                assert(registers@.take(k as int + 1).drop_last() =~= registers@.take(k as int));
                lemma_latest_index_value(taken, register);
                assert(self.latest@.contains_key(register) ==> latest_index(taken, register) is Some);
            }
            match self.latest.get(&register) {
                Some(index) => {
                    proof {
                        assert(self.latest@.contains_key(register));
                    }
                    indices.push(*index);
                },
                None => {},
            }
            k = k + 1;
        }
        proof {
            assert(registers@.take(k as int) =~= registers@);
        }
        let sorted = sort_indices(&indices);
        proof {
            lemma_index_leq_total();
            indices@.lemma_sort_by_ensures(index_leq());
            vstd::seq_lib::lemma_sorted_unique(sorted@, indices@.sort_by(index_leq()), index_leq());
        }
        let mut out: Vec<RegisterWrite> = Vec::new();
        let mut m: usize = 0;
        while m < sorted.len()
            invariant
                m <= sorted@.len(),
                sorted@.to_multiset() == indices@.to_multiset(),
                forall|q: int| 0 <= q < indices@.len() ==> #[trigger] indices@[q] < self.writes@.len(),
                out@ == sorted@.take(m as int).map_values(|i: usize| self.writes@[i as int]),
            decreases sorted@.len() - m,
        {
            let i = sorted[m];
            proof {
                assert(sorted@.to_multiset().contains(i)) by {
                    vstd::seq_lib::lemma_seq_contains(sorted@, i);
                    sorted@.to_multiset_ensures();
                }
                indices@.to_multiset_ensures();
                assert(indices@.contains(i));
                assert(i < self.writes@.len());
            }
            out.push(self.writes[i]);
            proof {
                assert(out@ =~= sorted@.take(m as int + 1).map_values(|i: usize| self.writes@[i as int]));
            }
            m = m + 1;
        }
        proof {
            assert(sorted@.take(m as int) =~= sorted@);
        }
        out
    }
}

/// Ascending indices with the same elements as `indices`.
fn sort_indices(indices: &Vec<usize>) -> (r: Vec<usize>)
    ensures
        vstd::relations::sorted_by(r@, index_leq()),
        r@.to_multiset() == indices@.to_multiset(),
{
    let mut sorted: Vec<usize> = Vec::new();
    let mut i: usize = 0;
    proof {
        assert(indices@.take(0) =~= sorted@);
    }
    while i < indices.len()
        invariant
            i <= indices@.len(),
            vstd::relations::sorted_by(sorted@, index_leq()),
            sorted@.to_multiset() == indices@.take(i as int).to_multiset(),
        decreases indices@.len() - i,
    {
        let x = indices[i];
        let mut k: usize = 0;
        let mut scanning = true;
        while scanning && k < sorted.len()
            invariant
                k <= sorted@.len(),
                forall|j: int| 0 <= j < k ==> #[trigger] sorted@[j] <= x,
                !scanning ==> k < sorted@.len() && sorted@[k as int] > x,
            decreases (sorted@.len() - k) * 2 + (if scanning { 1int } else { 0int }),
        {
            if sorted[k] > x {
                scanning = false;
            } else {
                k = k + 1;
            }
        }
        let ghost old_sorted = sorted@;
        sorted.insert(k, x);
        proof {
            let a = old_sorted.subrange(0, k as int);
            let b = old_sorted.subrange(k as int, old_sorted.len() as int);
            assert(old_sorted =~= a + b);
            assert(sorted@ =~= a.push(x) + b);
            vstd::seq_lib::lemma_multiset_commutative(a, b);
            vstd::seq_lib::lemma_multiset_commutative(a.push(x), b);
            a.to_multiset_ensures();
            assert(sorted@.to_multiset() =~= old_sorted.to_multiset().insert(x));
            assert(indices@.take(i as int + 1) =~= indices@.take(i as int).push(x));
            indices@.take(i as int).to_multiset_ensures();
            assert forall|p: int, q: int| 0 <= p < q < sorted@.len() implies #[trigger] (index_leq())(
                sorted@[p],
                sorted@[q],
            ) by {
                if q < k {
                    assert(sorted@[p] == old_sorted[p] && sorted@[q] == old_sorted[q]);
                    assert((index_leq())(old_sorted[p], old_sorted[q]));
                } else if q == k {
                    assert(sorted@[p] == old_sorted[p]);
                } else if p < k {
                    assert(sorted@[p] == old_sorted[p] && sorted@[q] == old_sorted[q - 1]);
                    assert(old_sorted[p] <= x);
                    assert(old_sorted[k as int] > x);
                    if q - 1 > k {
                        assert((index_leq())(old_sorted[k as int], old_sorted[q - 1]));
                    }
                } else if p == k {
                    assert(sorted@[q] == old_sorted[q - 1]);
                    if q - 1 > k {
                        assert((index_leq())(old_sorted[k as int], old_sorted[q - 1]));
                    }
                } else {
                    assert(sorted@[p] == old_sorted[p - 1] && sorted@[q] == old_sorted[q - 1]);
                    assert((index_leq())(old_sorted[p - 1], old_sorted[q - 1]));
                }
            }
        }
        i = i + 1;
    }
    proof {
        assert(indices@.take(i as int) =~= indices@);
    }
    sorted
}


/// `PA_CL_VPORT_XSCALE`; the x offset, y scale and y offset follow it.
pub const PA_CL_VPORT_XSCALE: u32 = 0xA10F;

/// `PA_CL_VTE_CNTL`: bits 3:0 enable the x/y scale and offset.
pub const PA_CL_VTE_CNTL: u32 = 0xA206;

/// `VPORT_X_SCALE_ENA` through `VPORT_Y_OFFSET_ENA`.
pub const VTE_XY_ENABLES: u32 = 0xF;

/// The viewport terms from the live values of `PA_CL_VTE_CNTL` and the four `PA_CL_VPORT_*`
/// registers: `None` when any of the four is missing, or when the control was written without all
/// four x/y enables, since then the hardware does not apply them.
pub open spec fn spec_viewport_terms(
    vte: Option<u32>,
    x_scale: Option<u32>,
    x_offset: Option<u32>,
    y_scale: Option<u32>,
    y_offset: Option<u32>,
) -> Option<(u32, u32, u32, u32)> {
    match vte {
        Some(v) if v & VTE_XY_ENABLES != VTE_XY_ENABLES => None,
        _ => match (x_scale, x_offset, y_scale, y_offset) {
            (Some(a), Some(b), Some(c), Some(d)) => Some((a, b, c, d)),
            _ => None,
        },
    }
}

/// The viewport terms, as raw words - the bits of the four floats a host reads as its viewport
/// transform - from the live values of the registers that carry them. A transform missing a
/// term is not guessed at.
pub fn viewport_terms(
    vte: Option<u32>,
    x_scale: Option<u32>,
    x_offset: Option<u32>,
    y_scale: Option<u32>,
    y_offset: Option<u32>,
) -> (r: Option<(u32, u32, u32, u32)>)
    ensures
        r == spec_viewport_terms(vte, x_scale, x_offset, y_scale, y_offset),
{
    match vte {
        Some(v) => {
            if v & VTE_XY_ENABLES != VTE_XY_ENABLES {
                return None;
            }
        },
        None => {},
    }
    match (x_scale, x_offset, y_scale, y_offset) {
        (Some(a), Some(b), Some(c), Some(d)) => Some((a, b, c, d)),
        _ => None,
    }
}

/// The viewport terms in force at packet `before`: each register's last write in an earlier
/// packet.
pub open spec fn spec_viewport_words_at(writes: Seq<RegisterWrite>, before: u32) -> Option<(u32, u32, u32, u32)> {
    let earlier = writes.filter(|w: RegisterWrite| w.packet_offset < before);
    spec_viewport_terms(
        latest_value(earlier, PA_CL_VTE_CNTL),
        latest_value(earlier, PA_CL_VPORT_XSCALE),
        latest_value(earlier, (PA_CL_VPORT_XSCALE + 1) as u32),
        latest_value(earlier, (PA_CL_VPORT_XSCALE + 2) as u32),
        latest_value(earlier, (PA_CL_VPORT_XSCALE + 3) as u32),
    )
}

/// The viewport terms in force at packet `before`, as raw words.
pub fn viewport_words_at(writes: &[RegisterWrite], before: u32) -> (r: Option<(u32, u32, u32, u32)>)
    ensures
        r == spec_viewport_words_at(writes@, before),
{
    let earlier = writes_before(writes, before);
    let live = earlier.as_slice();
    viewport_terms(
        latest(live, PA_CL_VTE_CNTL),
        latest(live, PA_CL_VPORT_XSCALE),
        latest(live, PA_CL_VPORT_XSCALE + 1),
        latest(live, PA_CL_VPORT_XSCALE + 2),
        latest(live, PA_CL_VPORT_XSCALE + 3),
    )
}


/// The value of the last write to `register` among `writes` made in a packet before `before`: the
/// first such write found searching back from the end.
pub open spec fn last_before(writes: Seq<RegisterWrite>, register: u32, before: u32) -> Option<u32>
    decreases writes.len(),
{
    if writes.len() == 0 {
        None
    } else if writes.last().register == register && writes.last().packet_offset < before {
        Some(writes.last().value)
    } else {
        last_before(writes.drop_last(), register, before)
    }
}

/// The latest write to a register among the writes before a point is the one a search back from
/// the end finds.
proof fn lemma_latest_of_earlier(writes: Seq<RegisterWrite>, register: u32, before: u32)
    ensures
        latest_value(writes.filter(|w: RegisterWrite| w.packet_offset < before), register) == last_before(
            writes,
            register,
            before,
        ),
    decreases writes.len(),
{
    if writes.len() > 0 {
        let init = writes.drop_last();
        let last = writes.last();
        lemma_latest_of_earlier(init, register, before);
        init.lemma_filter_push(last, |w: RegisterWrite| w.packet_offset < before);
        assert(init.push(last) =~= writes);
        let f = init.filter(|w: RegisterWrite| w.packet_offset < before);
        if last.packet_offset < before {
            assert(f.push(last).drop_last() =~= f);
            assert(f.push(last).last() == last);
        }
    }
}

/// A sweep over writes in packet order answers, for any point and register, the value of the
/// last write to that register made before the point - a search back from the end of the writes
/// - whatever was asked of it before.
pub proof fn lemma_sweep_is_a_reverse_find(writes: Seq<RegisterWrite>, before: u32, register: u32)
    requires
        in_packet_order(writes),
    ensures
        latest_value(swept_writes(writes, before), register) == last_before(writes, register, before),
{
    lemma_sweep_sees_the_earlier_writes(writes, before);
    lemma_latest_of_earlier(writes, register, before);
}

} // verus!
