use crate::arith::aligned;
use vstd::prelude::*;

verus! {

/// Whether a range of the memory map is non-volatile flash or RAM.
#[derive(Clone, Copy, Debug, PartialEq, Eq, Structural)]
pub enum MemoryKind {
    Flash,
    Ram,
}

/// One entry of a target's memory map: the half-open address range
/// `[start, end)`, its erase and program granularity, and the value an
/// erased byte reads as.
#[derive(Clone, Copy, Debug, PartialEq, Eq, Structural)]
pub struct MemoryRange {
    pub kind: MemoryKind,
    pub start: u64,
    pub end: u64,
    pub sector_size: u64,
    pub page_size: u64,
    pub erased_byte_value: u8,
}

impl MemoryRange {
    /// Sizes are positive, a page divides a sector, and both ends of the
    /// range fall on sector boundaries.
    pub open spec fn wf(&self) -> bool {
        &&& self.start <= self.end
        &&& self.sector_size > 0
        &&& self.page_size > 0
        &&& aligned(self.sector_size as int, self.page_size as int)
        &&& aligned(self.start as int, self.sector_size as int)
        &&& aligned(self.end as int, self.sector_size as int)
    }

    pub open spec fn is_flash(&self) -> bool {
        self.kind == MemoryKind::Flash
    }

    /// The span `[address, address + len)` lies inside this range.
    pub open spec fn holds_span(&self, address: int, len: int) -> bool {
        self.start <= address && address + len <= self.end
    }

    /// Whether the entry is well formed.
    pub fn is_well_formed(&self) -> (r: bool)
        ensures
            r == self.wf(),
    {
        self.start <= self.end && self.sector_size > 0 && self.page_size > 0 && self.sector_size % self.page_size == 0
            && self.start % self.sector_size == 0 && self.end % self.sector_size == 0
    }

    pub fn is_flash_range(&self) -> (r: bool)
        ensures
            r == self.is_flash(),
    {
        match self.kind {
            MemoryKind::Flash => true,
            MemoryKind::Ram => false,
        }
    }
}

/// Every entry is well formed, and entries are sorted by address without overlap.
pub open spec fn map_wf(m: Seq<MemoryRange>) -> bool {
    &&& forall|i: int| 0 <= i < m.len() ==> (#[trigger] m[i]).wf()
    &&& forall|i: int, j: int| 0 <= i < j < m.len() ==> (#[trigger] m[i]).end <= (#[trigger] m[j]).start
}

/// Whether the memory map is well formed: entries well formed, sorted and
/// without overlap.
pub fn memory_map_valid(m: &Vec<MemoryRange>) -> (r: bool)
    ensures
        r == map_wf(m@),
{
    let mut i: usize = 0;
    while i < m.len()
        invariant
            i <= m@.len(),
            forall|j: int| 0 <= j < i ==> (#[trigger] m@[j]).wf(),
            forall|j: int, k: int| 0 <= j < k < i ==> (#[trigger] m@[j]).end <= (#[trigger] m@[k]).start,
        decreases m@.len() - i,
    {
        if !m[i].is_well_formed() {
            return false;
        }
        if i > 0 && m[i - 1].end > m[i].start {
            return false;
        }
        proof {
            assert forall|j: int, k: int| 0 <= j < k < i + 1 implies (#[trigger] m@[j]).end <= (#[trigger] m@[k]).start by {
                if k == i && j < i - 1 {
                    assert(m@[j].end <= m@[i - 1].start);
                    assert(m@[i - 1].wf());
                }
            }
        }
        i += 1;
    }
    true
}

/// Some flash range of the memory map holds address `a`.
pub open spec fn in_flash(m: Seq<MemoryRange>, a: int) -> bool {
    exists|k: int| 0 <= k < m.len() && m[k].is_flash() && #[trigger] m[k].holds_span(a, 1)
}

/// Every address of `[address, address + len)` lies in some flash range,
/// not necessarily the same one.
pub open spec fn span_in_flash(m: Seq<MemoryRange>, address: int, len: int) -> bool {
    forall|a: int| address <= a < address + len ==> #[trigger] in_flash(m, a)
}

/// Whether flash ranges hold every address of `[address, address + len)`.
pub fn covered_by_flash(m: &Vec<MemoryRange>, address: u64, len: u64) -> (r: bool)
    ensures
        r == span_in_flash(m@, address as int, len as int),
{
    let end: u128 = address as u128 + len as u128;
    let mut cur: u128 = address as u128;
    while cur < end
        invariant
            address <= cur <= end,
            end == address + len,
            forall|a: int| address <= a < cur ==> #[trigger] in_flash(m@, a),
        decreases end - cur,
    {
        if cur > u64::MAX as u128 {
            proof {
                if in_flash(m@, cur as int) {
                    let k = choose|k: int| 0 <= k < m@.len() && m@[k].is_flash() && #[trigger] m@[k].holds_span(cur as int, 1);
                }
            }
            return false;
        }
        match find_flash_range(m, cur as u64, 1) {
            None => {
                proof {
                    assert(!in_flash(m@, cur as int));
                }
                return false;
            },
            Some(k) => {
                let e = m[k].end as u128;
                let next = if e < end { e } else { end };
                proof {
                    assert forall|a: int| address <= a < next implies #[trigger] in_flash(m@, a) by {
                        if a >= cur {
                            assert(m@[k as int].holds_span(a, 1));
                        }
                    }
                }
                cur = next;
            },
        }
    }
    true
}

/// The value an erased byte at address `a` reads as: that of the flash
/// range holding `a`.
pub open spec fn erased_value_at(m: Seq<MemoryRange>, a: int) -> u8 {
    let k = choose|k: int| 0 <= k < m.len() && m[k].is_flash() && (#[trigger] m[k]).holds_span(a, 1);
    m[k].erased_byte_value
}

/// In a well-formed map at most one range holds a given address.
pub proof fn lemma_range_unique(m: Seq<MemoryRange>, k1: int, k2: int, a: int)
    requires
        map_wf(m),
        0 <= k1 < m.len(),
        0 <= k2 < m.len(),
        m[k1].holds_span(a, 1),
        m[k2].holds_span(a, 1),
    ensures
        k1 == k2,
{
    if k1 < k2 {
        assert(m[k1].end <= m[k2].start);
    } else if k2 < k1 {
        assert(m[k2].end <= m[k1].start);
    }
}

/// Finds the flash entry of the memory map that holds `[address, address + len)`.
pub fn find_flash_range(m: &Vec<MemoryRange>, address: u64, len: u64) -> (r: Option<usize>)
    ensures
        r.is_none() <==> !(exists|i: int| 0 <= i < m@.len() && m@[i].is_flash() && (#[trigger] m@[i]).holds_span(address as int, len as int)),
        r matches Some(i) ==> i < m@.len() && m@[i as int].is_flash() && m@[i as int].holds_span(address as int, len as int),
{
    let mut i: usize = 0;
    while i < m.len()
        invariant
            i <= m@.len(),
            forall|j: int| 0 <= j < i ==> !(m@[j].is_flash() && (#[trigger] m@[j]).holds_span(address as int, len as int)),
        decreases m@.len() - i,
    {
        let e = &m[i];
        if e.is_flash_range() && e.start <= address && (address as u128) + (len as u128) <= (e.end as u128) {
            return Some(i);
        }
        i += 1;
    }
    None
}

} // verus!
