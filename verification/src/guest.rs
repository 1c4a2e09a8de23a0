//! Guest memory as the graphics library's calls reach it: little-endian dwords and quadwords at
//! guest addresses, read where mapped and written in place.
use vstd::prelude::*;
use crate::cp::{spec_u32_bytes, spec_u64_bytes, u32_bytes, u64_bytes};
use crate::pipeline::GuestMemory;

verus! {

/// Whether `length` bytes from `address` are all mapped.
pub open spec fn mapped(m: Map<int, u8>, address: int, length: int) -> bool {
    forall|i: int| 0 <= i < length ==> #[trigger] m.dom().contains(address + i)
}

/// The little-endian dword whose bytes sit at `a`.
pub open spec fn le_u32_at(m: Map<int, u8>, a: int) -> u32 {
    (m[a] as u32) | ((m[a + 1] as u32) << 8u32) | ((m[a + 2] as u32) << 16u32) | ((m[a + 3] as u32)
        << 24u32)
}

/// The little-endian quadword whose bytes sit at `a`: the dword at `a` low, the one after it high.
pub open spec fn le_u64_at(m: Map<int, u8>, a: int) -> u64 {
    (le_u32_at(m, a) as u64) | ((le_u32_at(m, a + 4) as u64) << 32u64)
}

/// The dword at `address`, or `None` when any of its bytes is unmapped.
pub open spec fn spec_read_u32(m: Map<int, u8>, address: u64) -> Option<u32> {
    if mapped(m, address as int, 4) {
        Some(le_u32_at(m, address as int))
    } else {
        None
    }
}

/// The quadword at `address`, or `None` when any of its bytes is unmapped.
pub open spec fn spec_read_u64(m: Map<int, u8>, address: u64) -> Option<u64> {
    if mapped(m, address as int, 8) {
        Some(le_u64_at(m, address as int))
    } else {
        None
    }
}

/// The memory with `bytes` stored from `address`, when the whole range is mapped; unchanged
/// otherwise.
pub open spec fn put_bytes(m: Map<int, u8>, address: int, bytes: Seq<u8>) -> Map<int, u8> {
    if mapped(m, address, bytes.len() as int) {
        Map::new(
            |a: int| m.dom().contains(a),
            |a: int|
                if address <= a < address + bytes.len() {
                    bytes[a - address]
                } else {
                    m[a]
                },
        )
    } else {
        m
    }
}

/// The memory after a dword store at `address`.
pub open spec fn spec_write_u32(m: Map<int, u8>, address: u64, value: u32) -> Map<int, u8> {
    put_bytes(m, address as int, spec_u32_bytes(value))
}

/// The memory after a quadword store at `address`.
pub open spec fn spec_write_u64(m: Map<int, u8>, address: u64, value: u64) -> Map<int, u8> {
    put_bytes(m, address as int, spec_u64_bytes(value))
}

/// A read's value, or zero where nothing could be read - how the library's calls take a field
/// they cannot reach.
pub open spec fn dword_or_zero(m: Map<int, u8>, address: u64) -> u32 {
    match spec_read_u32(m, address) {
        Some(v) => v,
        None => 0,
    }
}

/// A quadword read's value, or zero where nothing could be read.
pub open spec fn quad_or_zero(m: Map<int, u8>, address: u64) -> u64 {
    match spec_read_u64(m, address) {
        Some(v) => v,
        None => 0,
    }
}

/// Guest memory, read and written a dword or a quadword at a time. The model is the map of
/// mapped addresses to their bytes; a store to a range not wholly mapped changes nothing.
pub trait GuestWords {
    /// Every mapped guest address, and the byte it holds.
    spec fn contents(&self) -> Map<int, u8>;

    /// The dword at `address`, or `None` when it is not wholly mapped.
    fn read_u32(&self, address: u64) -> (r: Option<u32>)
        ensures
            r == spec_read_u32(self.contents(), address),
    ;

    /// The quadword at `address`, or `None` when it is not wholly mapped.
    fn read_u64(&self, address: u64) -> (r: Option<u64>)
        ensures
            r == spec_read_u64(self.contents(), address),
    ;

    /// Stores a dword at `address`.
    fn write_u32(&mut self, address: u64, value: u32)
        ensures
            final(self).contents() == spec_write_u32(old(self).contents(), address, value),
    ;

    /// Stores a quadword at `address`.
    fn write_u64(&mut self, address: u64, value: u64)
        ensures
            final(self).contents() == spec_write_u64(old(self).contents(), address, value),
    ;
}

/// One contiguous run of guest memory: `bytes` mapped from `base`.
pub struct GuestRegion {
    /// The guest address of the first byte.
    pub base: u64,
    /// The bytes the region holds.
    pub bytes: Vec<u8>,
}

impl GuestRegion {
    /// The region's mapped addresses and their bytes.
    pub open spec fn mapping(&self) -> Map<int, u8> {
        Map::new(
            |a: int| self.base <= a < self.base + self.bytes@.len(),
            |a: int| self.bytes@[a - self.base],
        )
    }

    /// A region holding `bytes` from `base`.
    pub fn new(base: u64, bytes: Vec<u8>) -> (r: Self)
        ensures
            r.base == base,
            r.bytes@ == bytes@,
    {
        GuestRegion { base, bytes }
    }

    /// Where `length` bytes from `address` start within the region, when they all lie in it.
    fn offset_of(&self, address: u64, length: u64) -> (r: Option<usize>)
        requires
            length > 0,
        ensures
            match r {
                Some(o) => o + length <= self.bytes@.len() && o == address - self.base,
                None => !mapped(self.mapping(), address as int, length as int),
            },
    {
        let len = self.bytes.len() as u64;
        if address < self.base {
            assert(!self.mapping().dom().contains(address as int + 0));
            return None;
        }
        let off = address - self.base;
        if off > len {
            assert(!self.mapping().dom().contains(address as int + 0));
            return None;
        }
        if len - off < length {
            assert(!self.mapping().dom().contains(address as int + (len - off) as int));
            return None;
        }
        Some(off as usize)
    }
    /// Stores `bytes` from `address`, when the whole range lies in the region.
    fn store(&mut self, address: u64, bytes: &[u8])
        requires
            bytes@.len() > 0,
        ensures
            final(self).base == old(self).base,
            final(self).mapping() == put_bytes(old(self).mapping(), address as int, bytes@),
    {
        let ghost before = self.bytes@;
        let ghost base = self.base;
        match self.offset_of(address, bytes.len() as u64) {
            None => {},
            Some(o) => {
                let mut i: usize = 0;
                while i < bytes.len()
                    invariant
                        i <= bytes@.len(),
                        self.base == base,
                        o + bytes@.len() <= before.len(),
                        before.len() == old(self).bytes.len(),
                        self.bytes@.len() == before.len(),
                        forall|j: int|
                            0 <= j < before.len() ==> #[trigger] self.bytes@[j] == if o <= j < o
                                + i {
                                bytes@[j - o]
                            } else {
                                before[j]
                            },
                    decreases bytes@.len() - i,
                {
                    self.bytes.set(o + i, bytes[i]);
                    i = i + 1;
                }
                proof {
                    let m = put_bytes(
                        Map::new(
                            |a: int| self.base <= a < self.base + before.len(),
                            |a: int| before[a - self.base],
                        ),
                        address as int,
                        bytes@,
                    );
                    assert(self.mapping() =~= m);
                }
            },
        }
    }
}

impl GuestWords for GuestRegion {
    open spec fn contents(&self) -> Map<int, u8> {
        self.mapping()
    }

    fn read_u32(&self, address: u64) -> (r: Option<u32>) {
        match self.offset_of(address, 4) {
            None => None,
            Some(o) => {
                assert(o + 4 <= self.bytes.len());
                let v = (self.bytes[o] as u32) | ((self.bytes[o + 1] as u32) << 8u32) | ((
                self.bytes[o + 2] as u32) << 16u32) | ((self.bytes[o + 3] as u32) << 24u32);
                assert(mapped(self.mapping(), address as int, 4));
                Some(v)
            },
        }
    }

    fn read_u64(&self, address: u64) -> (r: Option<u64>) {
        match self.offset_of(address, 8) {
            None => None,
            Some(o) => {
                assert(o + 8 <= self.bytes.len());
                let lo = (self.bytes[o] as u32) | ((self.bytes[o + 1] as u32) << 8u32) | ((
                self.bytes[o + 2] as u32) << 16u32) | ((self.bytes[o + 3] as u32) << 24u32);
                let hi = (self.bytes[o + 4] as u32) | ((self.bytes[o + 5] as u32) << 8u32) | ((
                self.bytes[o + 6] as u32) << 16u32) | ((self.bytes[o + 7] as u32) << 24u32);
                assert(mapped(self.mapping(), address as int, 8));
                assert(le_u32_at(self.mapping(), address as int) == lo);
                assert(le_u32_at(self.mapping(), address as int + 4) == hi);
                Some((lo as u64) | ((hi as u64) << 32u64))
            },
        }
    }

    fn write_u32(&mut self, address: u64, value: u32) {
        let bytes = u32_bytes(value);
        self.store(address, bytes.as_slice());
    }

    fn write_u64(&mut self, address: u64, value: u64) {
        let bytes = u64_bytes(value);
        self.store(address, bytes.as_slice());
    }
}

/// A store maps no new address and unmaps none.
pub proof fn lemma_store_keeps_domain(m: Map<int, u8>, address: int, bytes: Seq<u8>)
    ensures
        put_bytes(m, address, bytes).dom() == m.dom(),
{
    assert(put_bytes(m, address, bytes).dom() =~= m.dom());
}

/// A store changes no address outside the range it covers.
pub proof fn lemma_store_keeps_other_bytes(m: Map<int, u8>, address: int, bytes: Seq<u8>, k: int)
    requires
        !(address <= k < address + bytes.len()),
    ensures
        put_bytes(m, address, bytes).dom() == m.dom(),
        m.dom().contains(k) ==> put_bytes(m, address, bytes)[k] == m[k],
{
    lemma_store_keeps_domain(m, address, bytes);
}

/// A quadword store leaves a quadword read elsewhere as it was: the two ranges do not meet.
pub proof fn lemma_read_u64_past_store(m: Map<int, u8>, stored: int, bytes: Seq<u8>, address: u64)
    requires
        stored + bytes.len() <= address || address + 8 <= stored,
    ensures
        spec_read_u64(put_bytes(m, stored, bytes), address) == spec_read_u64(m, address),
{
    let a = address as int;
    let w = put_bytes(m, stored, bytes);
    lemma_store_keeps_domain(m, stored, bytes);
    if mapped(m, a, 8) {
        assert(m.dom().contains(a + 0) && m.dom().contains(a + 1) && m.dom().contains(a + 2)
            && m.dom().contains(a + 3) && m.dom().contains(a + 4) && m.dom().contains(a + 5)
            && m.dom().contains(a + 6) && m.dom().contains(a + 7));
        assert(mapped(w, a, 8));
        assert(le_u32_at(w, a) == le_u32_at(m, a));
        assert(le_u32_at(w, a + 4) == le_u32_at(m, a + 4));
    } else {
        assert(!mapped(w, a, 8));
    }
}

/// A dword read back from where one was just stored, over mapped memory, is the dword stored.
pub proof fn lemma_read_back_u32(m: Map<int, u8>, address: u64, value: u32)
    requires
        mapped(m, address as int, 4),
    ensures
        spec_read_u32(spec_write_u32(m, address, value), address) == Some(value),
{
    let a = address as int;
    let w = spec_write_u32(m, address, value);
    assert(w.dom() =~= m.dom());
    assert(mapped(w, a, 4));
    let b0 = w[a];
    let b1 = w[a + 1];
    let b2 = w[a + 2];
    let b3 = w[a + 3];
    assert(m.dom().contains(a + 0) && m.dom().contains(a + 1) && m.dom().contains(a + 2)
        && m.dom().contains(a + 3));
    assert(b0 == (value & 0xFFu32) as u8);
    assert(b1 == ((value >> 8u32) & 0xFFu32) as u8);
    assert(b2 == ((value >> 16u32) & 0xFFu32) as u8);
    assert(b3 == ((value >> 24u32) & 0xFFu32) as u8);
    assert((b0 as u32) | ((b1 as u32) << 8u32) | ((b2 as u32) << 16u32) | ((b3 as u32) << 24u32)
        == value) by (bit_vector)
        requires
            b0 == (value & 0xFFu32) as u8,
            b1 == ((value >> 8u32) & 0xFFu32) as u8,
            b2 == ((value >> 16u32) & 0xFFu32) as u8,
            b3 == ((value >> 24u32) & 0xFFu32) as u8,
    ;
}

/// A quadword read back from where one was just stored, over mapped memory, is the quadword
/// stored.
pub proof fn lemma_read_back_u64(m: Map<int, u8>, address: u64, value: u64)
    requires
        mapped(m, address as int, 8),
    ensures
        spec_read_u64(spec_write_u64(m, address, value), address) == Some(value),
{
    let a = address as int;
    let w = spec_write_u64(m, address, value);
    assert(w.dom() =~= m.dom());
    assert(mapped(w, a, 8));
    let b0 = w[a];
    let b1 = w[a + 1];
    let b2 = w[a + 2];
    let b3 = w[a + 3];
    let b4 = w[a + 4];
    let b5 = w[a + 5];
    let b6 = w[a + 6];
    let b7 = w[a + 7];
    assert(m.dom().contains(a + 0) && m.dom().contains(a + 1) && m.dom().contains(a + 2)
        && m.dom().contains(a + 3) && m.dom().contains(a + 4) && m.dom().contains(a + 5)
        && m.dom().contains(a + 6) && m.dom().contains(a + 7));
    assert(b0 == ((value >> 0u64) & 0xFFu64) as u8);
    assert(b1 == ((value >> 8u64) & 0xFFu64) as u8);
    assert(b2 == ((value >> 16u64) & 0xFFu64) as u8);
    assert(b3 == ((value >> 24u64) & 0xFFu64) as u8);
    assert(b4 == ((value >> 32u64) & 0xFFu64) as u8);
    assert(b5 == ((value >> 40u64) & 0xFFu64) as u8);
    assert(b6 == ((value >> 48u64) & 0xFFu64) as u8);
    assert(b7 == ((value >> 56u64) & 0xFFu64) as u8);
    assert(((((b0 as u32) | ((b1 as u32) << 8u32) | ((b2 as u32) << 16u32) | ((b3 as u32)
        << 24u32)) as u64) | ((((b4 as u32) | ((b5 as u32) << 8u32) | ((b6 as u32) << 16u32) | ((
    b7 as u32) << 24u32)) as u64) << 32u64)) == value) by (bit_vector)
        requires
            b0 == ((value >> 0u64) & 0xFFu64) as u8,
            b1 == ((value >> 8u64) & 0xFFu64) as u8,
            b2 == ((value >> 16u64) & 0xFFu64) as u8,
            b3 == ((value >> 24u64) & 0xFFu64) as u8,
            b4 == ((value >> 32u64) & 0xFFu64) as u8,
            b5 == ((value >> 40u64) & 0xFFu64) as u8,
            b6 == ((value >> 48u64) & 0xFFu64) as u8,
            b7 == ((value >> 56u64) & 0xFFu64) as u8,
    ;
}


impl GuestMemory for GuestRegion {
    open spec fn spec_read(&self, address: u64, length: usize) -> Option<Seq<u8>> {
        if self.base <= address && address + length <= self.base + self.bytes@.len() {
            Some(self.bytes@.subrange(address - self.base, address - self.base + length))
        } else {
            None
        }
    }

    fn read(&self, address: u64, length: usize) -> (r: Option<&[u8]>) {
        if address < self.base {
            return None;
        }
        let off = address - self.base;
        let len = self.bytes.len() as u64;
        if off > len || len - off < length as u64 {
            return None;
        }
        let start = off as usize;
        Some(vstd::slice::slice_subrange(self.bytes.as_slice(), start, start + length))
    }
}

/// A region as the driver reaches guest memory: every byte of it readable and writable. A region
/// keeps no GPU clock of its own, so its counter reads zero.
impl crate::lazy_copies::GuestAccess for GuestRegion {
    open spec fn states_contents() -> bool {
        true
    }

    open spec fn bytes_at(&self, address: u64, length: usize) -> Option<Seq<u8>> {
        if self.base <= address && address + length <= self.base + self.bytes@.len() {
            Some(self.bytes@.subrange(address - self.base, address - self.base + length))
        } else {
            None
        }
    }

    fn read(&self, address: u64, length: usize) -> (r: Option<Vec<u8>>) {
        match GuestMemory::read(self, address, length) {
            Some(bytes) => Some(vstd::slice::slice_to_vec(bytes)),
            None => None,
        }
    }

    fn writable(&self, address: u64, length: u64) -> (r: bool)
        ensures
            r == (self.base <= address && address + length <= self.base + self.bytes@.len()),
    {
        address >= self.base && address - self.base <= self.bytes.len() as u64 && length <= self.bytes.len()
            as u64 - (address - self.base)
    }

    fn store(&mut self, address: u64, bytes: &[u8]) {
        if bytes.len() > 0 {
            GuestRegion::store(self, address, bytes);
        }
    }

    fn timestamp(&mut self) -> (r: u64)
        ensures
            r == 0,
    {
        0
    }
}

} // verus!
