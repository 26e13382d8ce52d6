use crate::arith::{
    aligned, lemma_aligned_below_round_down, lemma_aligned_gap, lemma_aligned_step,
    lemma_round_down_aligned,
};
use crate::image::{byte_at, chunks_wf, image_byte, in_image, DataChunk};
use crate::memory::{erased_value_at, find_flash_range, lemma_range_unique, map_wf, MemoryRange};
use vstd::prelude::*;

verus! {

/// A span of flash `[address, address + size)`: an erase sector, or a page
/// whose bytes are kept from before the erase.
#[derive(Clone, Copy, Debug, PartialEq, Eq, Structural)]
pub struct FlashSpan {
    pub address: u64,
    pub size: u64,
}

impl FlashSpan {
    pub open spec fn end(&self) -> int {
        self.address + self.size
    }

    pub open spec fn contains(&self, a: int) -> bool {
        self.address <= a < self.end()
    }
}

/// Some address of the image inside `[lo, hi)` falls in the span.
pub open spec fn span_touched(cs: Seq<DataChunk>, lo: int, hi: int, s: FlashSpan) -> bool {
    exists|a: int| lo <= a < hi && in_image(cs, a) && #[trigger] s.contains(a)
}

/// Spans are sorted by address and do not overlap.
pub open spec fn spans_ascending(r: Seq<FlashSpan>) -> bool {
    forall|i: int, j: int| 0 <= i < j < r.len() ==> (#[trigger] r[i]).end() <= (#[trigger] r[j]).address
}

/// Some span of `r` contains address `a`.
pub open spec fn spans_cover(r: Seq<FlashSpan>, a: int) -> bool {
    exists|j: int| 0 <= j < r.len() && (#[trigger] r[j]).contains(a)
}

/// `r` lists, in ascending order, exactly the blocks of `size` bytes, aligned
/// to `size`, inside `[lo, hi)`, that hold some address of the image.
pub open spec fn blocks_of(r: Seq<FlashSpan>, cs: Seq<DataChunk>, lo: int, hi: int, size: int) -> bool {
    &&& spans_ascending(r)
    &&& forall|j: int| 0 <= j < r.len() ==> {
        &&& (#[trigger] r[j]).size == size
        &&& aligned(r[j].address as int, size)
        &&& lo <= r[j].address
        &&& r[j].end() <= hi
        &&& span_touched(cs, lo, hi, r[j])
    }
    &&& forall|a: int| lo <= a < hi && #[trigger] in_image(cs, a) ==> spans_cover(r, a)
}

/// Each chunk lies wholly inside `[lo, hi)` or wholly outside it.
pub open spec fn chunks_split_at(cs: Seq<DataChunk>, lo: int, hi: int) -> bool {
    forall|i: int| 0 <= i < cs.len() ==> {
        ||| lo <= (#[trigger] cs[i]).address && cs[i].end() <= hi
        ||| cs[i].end() <= lo
        ||| hi <= cs[i].address
    }
}

/// The blocks of `size` bytes inside `[lo, hi)` that hold data, in ascending order.
pub fn touched_blocks(cs: &Vec<DataChunk>, lo: u64, hi: u64, size: u64) -> (r: Vec<FlashSpan>)
    requires
        chunks_wf(cs@),
        chunks_split_at(cs@, lo as int, hi as int),
        size > 0,
        lo <= hi,
        aligned(lo as int, size as int),
        aligned(hi as int, size as int),
    ensures
        blocks_of(r@, cs@, lo as int, hi as int, size as int),
{
    let mut r: Vec<FlashSpan> = Vec::new();
    let mut i: usize = 0;
    while i < cs.len()
        invariant
            chunks_wf(cs@),
            chunks_split_at(cs@, lo as int, hi as int),
            size > 0,
            lo <= hi,
            aligned(lo as int, size as int),
            aligned(hi as int, size as int),
            i <= cs@.len(),
            spans_ascending(r@),
            forall|j: int| 0 <= j < r@.len() ==> {
                &&& (#[trigger] r@[j]).size == size
                &&& aligned(r@[j].address as int, size as int)
                &&& lo <= r@[j].address
                &&& r@[j].end() <= hi
                &&& span_touched(cs@, lo as int, hi as int, r@[j])
            },
            forall|k: int| i <= k < cs@.len() && r@.len() > 0 ==> r@.last().address < (#[trigger] cs@[k]).address,
            forall|a: int, k: int| 0 <= k < i && lo <= a < hi && #[trigger] cs@[k].covers(a) ==> spans_cover(r@, a),
        decreases cs@.len() - i,
    {
        let c = &cs[i];
        let c_len = c.bytes.len() as u64;
        if lo <= c.address && c.address < hi {
            let c_end: u64 = c.address + c_len;
            proof {
                lemma_round_down_aligned(c.address as int, size as int);
            }
            let mut q: u64 = c.address - c.address % size;
            proof {
                if r@.len() > 0 {
                    lemma_aligned_below_round_down(r@.last().address as int, c.address as int, size as int);
                }
                lemma_aligned_below_round_down(lo as int, c.address as int, size as int);
            }
            while q < c_end
                invariant
                    chunks_wf(cs@),
                    size > 0,
                    lo <= hi,
                    aligned(hi as int, size as int),
                    i < cs@.len(),
                    c == cs@[i as int],
                    c_end == c.end(),
                    c_end <= hi,
                    lo <= c.address,
                    aligned(q as int, size as int),
                    lo <= q,
                    q <= hi,
                    c.address < q + size,
                    spans_ascending(r@),
                    forall|j: int| 0 <= j < r@.len() ==> {
                        &&& (#[trigger] r@[j]).size == size
                        &&& aligned(r@[j].address as int, size as int)
                        &&& lo <= r@[j].address
                        &&& r@[j].end() <= hi
                        &&& span_touched(cs@, lo as int, hi as int, r@[j])
                    },
                    r@.len() > 0 ==> r@.last().address <= q,
                    r@.len() > 0 ==> r@.last().address < c_end,
                    forall|a: int, k: int| 0 <= k < i && lo <= a < hi && #[trigger] cs@[k].covers(a) ==> spans_cover(r@, a),
                    forall|a: int| c.address <= a < q && a < c_end ==> spans_cover(r@, a),
                decreases hi - q,
            {
                proof {
                    lemma_aligned_gap(q as int, hi as int, size as int);
                }
                if r.len() == 0 || r[r.len() - 1].address != q {
                    let s = FlashSpan { address: q, size };
                    proof {
                        let w: int = if q < c.address { c.address as int } else { q as int };
                        assert(cs@[i as int].covers(w));
                        assert(in_image(cs@, w));
                        assert(s.contains(w));
                        if r@.len() > 0 {
                            lemma_aligned_gap(r@.last().address as int, q as int, size as int);
                        }
                    }
                    let ghost old_r = r@;
                    r.push(s);
                    proof {
                        assert forall|a: int, k: int| 0 <= k < i && lo <= a < hi && #[trigger] cs@[k].covers(a) implies spans_cover(r@, a) by {
                            assert(spans_cover(old_r, a));
                            let j = choose|j: int| 0 <= j < old_r.len() && (#[trigger] old_r[j]).contains(a);
                            assert(r@[j].contains(a));
                        }
                        assert forall|a: int| c.address <= a < q + size && a < c_end implies spans_cover(r@, a) by {
                            if a < q {
                                assert(spans_cover(old_r, a));
                                let j = choose|j: int| 0 <= j < old_r.len() && (#[trigger] old_r[j]).contains(a);
                                assert(r@[j].contains(a));
                            } else {
                                assert(r@[old_r.len() as int].contains(a));
                            }
                        }
                    }
                } else {
                    proof {
                        assert forall|a: int| c.address <= a < q + size && a < c_end implies spans_cover(r@, a) by {
                            if a >= q {
                                assert(r@[r@.len() - 1].contains(a));
                            }
                        }
                    }
                }
                proof {
                    lemma_aligned_step(q as int, size as int);
                }
                q = q + size;
            }
            proof {
                assert forall|k: int| i + 1 <= k < cs@.len() && r@.len() > 0 implies r@.last().address < (#[trigger] cs@[k]).address by {
                    assert(cs@[i as int].end() <= cs@[k].address);
                }
            }
        } else {
            proof {
                assert forall|k: int| i + 1 <= k < cs@.len() && r@.len() > 0 implies r@.last().address < (#[trigger] cs@[k]).address by {
                    assert(cs@[i as int].end() <= cs@[k].address);
                }
            }
        }
        i += 1;
    }
    proof {
        assert forall|a: int| lo <= a < hi && #[trigger] in_image(cs@, a) implies spans_cover(r@, a) by {
            let k = choose|k: int| 0 <= k < cs@.len() && #[trigger] cs@[k].covers(a);
        }
    }
    r
}

/// The block size of a range: its sector size, or its page size.
pub open spec fn block_size(m: MemoryRange, sectors: bool) -> int {
    if sectors {
        m.sector_size as int
    } else {
        m.page_size as int
    }
}

/// Every chunk lies wholly inside one flash range of the memory map.
pub open spec fn image_in_flash(cs: Seq<DataChunk>, m: Seq<MemoryRange>) -> bool {
    forall|i: int| 0 <= i < cs.len() ==> #[trigger] chunk_in_flash(m, cs[i])
}

/// Some flash range of the memory map holds the whole chunk.
pub open spec fn chunk_in_flash(m: Seq<MemoryRange>, c: DataChunk) -> bool {
    exists|k: int| 0 <= k < m.len() && m[k].is_flash() && #[trigger] m[k].holds_span(c.address as int, c.bytes@.len() as int)
}

/// The span is one block of flash range `m`, aligned to the block size, and
/// holds some address of the image.
pub open spec fn block_of_range(cs: Seq<DataChunk>, m: MemoryRange, sectors: bool, s: FlashSpan) -> bool {
    &&& m.is_flash()
    &&& s.size == block_size(m, sectors)
    &&& aligned(s.address as int, block_size(m, sectors))
    &&& m.start <= s.address
    &&& s.end() <= m.end
    &&& exists|a: int| in_image(cs, a) && #[trigger] s.contains(a)
}

/// The span is a block of some flash range of `m`.
pub open spec fn block_of_map(cs: Seq<DataChunk>, m: Seq<MemoryRange>, sectors: bool, s: FlashSpan) -> bool {
    exists|k: int| 0 <= k < m.len() && #[trigger] block_of_range(cs, m[k], sectors, s)
}

/// `r` lists, in ascending order, exactly the blocks of the flash ranges of
/// `m` that hold some address of the image: sectors, or pages.
pub open spec fn layout_blocks(r: Seq<FlashSpan>, cs: Seq<DataChunk>, m: Seq<MemoryRange>, sectors: bool) -> bool {
    &&& spans_ascending(r)
    &&& forall|j: int| 0 <= j < r.len() ==> #[trigger] block_of_map(cs, m, sectors, r[j])
    &&& forall|a: int| #[trigger] in_image(cs, a) ==> spans_cover(r, a)
}

/// The blocks of all flash ranges that hold data, in ascending order.
#[verifier::spinoff_prover]
#[verifier::rlimit(60)]
pub fn map_blocks(cs: &Vec<DataChunk>, m: &Vec<MemoryRange>, sectors: bool) -> (r: Vec<FlashSpan>)
    requires
        chunks_wf(cs@),
        map_wf(m@),
        image_in_flash(cs@, m@),
    ensures
        layout_blocks(r@, cs@, m@, sectors),
{
    let mut r: Vec<FlashSpan> = Vec::new();
    let mut ri: usize = 0;
    proof {
        assert forall|a: int| #[trigger] in_image(cs@, a) implies m@.len() > 0 && a >= m@[0].start by {
            let i = choose|i: int| 0 <= i < cs@.len() && (#[trigger] cs@[i]).covers(a);
            assert(chunk_in_flash(m@, cs@[i]));
            let k = choose|k: int| 0 <= k < m@.len() && m@[k].is_flash() && #[trigger] m@[k].holds_span(
                cs@[i].address as int,
                cs@[i].bytes@.len() as int,
            );
            if k > 0 {
                assert(m@[0].end <= m@[k].start);
                assert(m@[0].wf());
            }
        }
    }
    while ri < m.len()
        invariant
            chunks_wf(cs@),
            map_wf(m@),
            image_in_flash(cs@, m@),
            ri <= m@.len(),
            spans_ascending(r@),
            forall|j: int| 0 <= j < r@.len() ==> #[trigger] block_of_map(cs@, m@, sectors, r@[j]),
            ri < m@.len() ==> forall|j: int| 0 <= j < r@.len() ==> (#[trigger] r@[j]).end() <= m@[ri as int].start,
            forall|a: int| #[trigger] in_image(cs@, a) && (ri < m@.len() ==> a < m@[ri as int].start) ==> spans_cover(r@, a),
        decreases m@.len() - ri,
    {
        let e = m[ri];
        let ghost eg = m@[ri as int];
        assert(eg.wf());
        if e.is_flash_range() {
            let size = if sectors { e.sector_size } else { e.page_size };
            proof {
                if !sectors {
                    crate::arith::lemma_aligned_divisor(e.start as int, e.sector_size as int, e.page_size as int);
                    crate::arith::lemma_aligned_divisor(e.end as int, e.sector_size as int, e.page_size as int);
                }
                assert forall|i: int| 0 <= i < cs@.len() implies {
                    ||| e.start <= (#[trigger] cs@[i]).address && cs@[i].end() <= e.end
                    ||| cs@[i].end() <= e.start
                    ||| e.end <= cs@[i].address
                } by {
                    assert(chunk_in_flash(m@, cs@[i]));
                    let k = choose|k: int| 0 <= k < m@.len() && m@[k].is_flash() && #[trigger] m@[k].holds_span(
                        cs@[i].address as int,
                        cs@[i].bytes@.len() as int,
                    );
                    if k < ri {
                        assert(m@[k].end <= m@[ri as int].start);
                    } else if k > ri {
                        assert(m@[ri as int].end <= m@[k].start);
                    }
                }
            }
            let mut t = touched_blocks(cs, e.start, e.end, size);
            let ghost old_r = r@;
            let ghost tg = t@;
            r.append(&mut t);
            proof {
                assert(r@ == old_r + tg);
                assert forall|i: int, j: int| 0 <= i < j < r@.len() implies (#[trigger] r@[i]).end() <= (#[trigger] r@[j]).address by {
                    if j >= old_r.len() && i < old_r.len() {
                        assert(tg[j - old_r.len()].address >= e.start);
                    } else if i >= old_r.len() {
                        assert(tg[i - old_r.len()].end() <= tg[j - old_r.len()].address);
                    }
                }
                assert forall|j: int| 0 <= j < r@.len() implies #[trigger] block_of_map(cs@, m@, sectors, r@[j]) by {
                    if j >= old_r.len() {
                        let s = tg[j - old_r.len()];
                        assert(span_touched(cs@, e.start as int, e.end as int, s));
                        let a = choose|a: int| e.start <= a < e.end && in_image(cs@, a) && #[trigger] s.contains(a);
                        assert(block_of_range(cs@, m@[ri as int], sectors, r@[j]));
                    } else {
                        assert(old_r[j] == r@[j]);
                    }
                }
            assert forall|a: int| #[trigger] in_image(cs@, a) && (ri + 1 < m@.len() ==> a < m@[ri + 1].start) implies spans_cover(r@, a) by {
                let i = choose|i: int| 0 <= i < cs@.len() && (#[trigger] cs@[i]).covers(a);
                assert(chunk_in_flash(m@, cs@[i]));
                let k = choose|k: int| 0 <= k < m@.len() && m@[k].is_flash() && #[trigger] m@[k].holds_span(
                    cs@[i].address as int,
                    cs@[i].bytes@.len() as int,
                );
                if k < ri {
                    assert(m@[k].end <= m@[ri as int].start);
                    assert(m@[k].wf());
                    assert(spans_cover(old_r, a));
                    let j = choose|j: int| 0 <= j < old_r.len() && (#[trigger] old_r[j]).contains(a);
                    assert(r@[j].contains(a));
                } else if k > ri {
                    assert(m@[ri + 1].start <= m@[k].start);
                } else {
                    assert(spans_cover(tg, a));
                    let j = choose|j: int| 0 <= j < tg.len() && (#[trigger] tg[j]).contains(a);
                    assert(r@[old_r.len() + j].contains(a));
                }
            }
            }
        } else {
            let ghost old_r = r@;
            proof {
            assert forall|a: int| #[trigger] in_image(cs@, a) && (ri + 1 < m@.len() ==> a < m@[ri + 1].start) implies spans_cover(r@, a) by {
                let i = choose|i: int| 0 <= i < cs@.len() && (#[trigger] cs@[i]).covers(a);
                assert(chunk_in_flash(m@, cs@[i]));
                let k = choose|k: int| 0 <= k < m@.len() && m@[k].is_flash() && #[trigger] m@[k].holds_span(
                    cs@[i].address as int,
                    cs@[i].bytes@.len() as int,
                );
                if k < ri {
                    assert(m@[k].end <= m@[ri as int].start);
                    assert(m@[k].wf());
                    assert(spans_cover(old_r, a));
                    let j = choose|j: int| 0 <= j < old_r.len() && (#[trigger] old_r[j]).contains(a);
                    assert(r@[j].contains(a));
                } else if k > ri {
                    assert(m@[ri + 1].start <= m@[k].start);
                } else {
                    
                }
            }
            }
        }
        proof {
            if ri + 1 < m@.len() {
                assert(m@[ri as int].end <= m@[ri + 1].start);
                assert(m@[ri as int].wf());
            }
        }
        ri += 1;
    }
    r
}

} // verus!

verus! {

/// A page to program: its address and every byte of it.
#[derive(Clone, Debug)]
pub struct FlashPage {
    pub address: u64,
    pub data: Vec<u8>,
}

impl FlashPage {
    pub open spec fn span(&self) -> FlashSpan {
        FlashSpan { address: self.address, size: self.data@.len() as u64 }
    }
}

/// Each byte of the page is the image's byte at its address, or the erased
/// value where the image gives none.
pub open spec fn page_bytes(cs: Seq<DataChunk>, m: Seq<MemoryRange>, p: FlashPage) -> bool {
    forall|o: int| 0 <= o < p.data@.len() ==> #[trigger] p.data@[o] == if in_image(cs, p.address + o) {
        image_byte(cs, p.address + o)
    } else {
        erased_value_at(m, p.address + o)
    }
}

/// Fills the bytes of one page span from the image.
pub fn page_data(cs: &Vec<DataChunk>, m: &Vec<MemoryRange>, s: FlashSpan) -> (r: FlashPage)
    requires
        chunks_wf(cs@),
        map_wf(m@),
        block_of_map(cs@, m@, false, s),
    ensures
        r.span() == s,
        page_bytes(cs@, m@, r),
{
    let k = choose_range(m, s);
    let erased = m[k].erased_byte_value;
    let mut data: Vec<u8> = Vec::new();
    let mut o: u64 = 0;
    while o < s.size
        invariant
            chunks_wf(cs@),
            map_wf(m@),
            k < m@.len(),
            m@[k as int].is_flash(),
            m@[k as int].holds_span(s.address as int, s.size as int),
            erased == m@[k as int].erased_byte_value,
            o <= s.size,
            data@.len() == o,
            forall|j: int| 0 <= j < o ==> #[trigger] data@[j] == if in_image(cs@, s.address + j) {
                image_byte(cs@, s.address + j)
            } else {
                erased_value_at(m@, s.address + j)
            },
        decreases s.size - o,
    {
        let b = match byte_at(cs, s.address + o) {
            Some(b) => b,
            None => erased,
        };
        proof {
            let a = s.address + o;
            assert(m@[k as int].holds_span(a, 1));
            let k2 = choose|k2: int| 0 <= k2 < m@.len() && m@[k2].is_flash() && (#[trigger] m@[k2]).holds_span(a, 1);
            lemma_range_unique(m@, k as int, k2, a);
        }
        data.push(b);
        o += 1;
    }
    FlashPage { address: s.address, data }
}

/// The index of the flash range that a block belongs to.
fn choose_range(m: &Vec<MemoryRange>, s: FlashSpan) -> (k: usize)
    requires
        exists|k: int| 0 <= k < m@.len() && m@[k].is_flash() && (#[trigger] m@[k]).holds_span(s.address as int, s.size as int),
    ensures
        k < m@.len(),
        m@[k as int].is_flash(),
        m@[k as int].holds_span(s.address as int, s.size as int),
{
    match find_flash_range(m, s.address, s.size) {
        Some(k) => k,
        None => 0,
    }
}

} // verus!

verus! {

/// The spans of the pages.
pub open spec fn page_spans(ps: Seq<FlashPage>) -> Seq<FlashSpan> {
    ps.map_values(|p: FlashPage| p.span())
}

/// Some page of `ps` shares a byte with `[q, q + size)`.
pub open spec fn pages_overlap(ps: Seq<FlashPage>, q: int, size: int) -> bool {
    exists|j: int| 0 <= j < ps.len() && #[trigger] ps[j].address < q + size && q < ps[j].span().end()
}

fn any_page_overlaps(ps: &Vec<FlashPage>, q: u64, size: u64) -> (r: bool)
    ensures
        r == pages_overlap(ps@, q as int, size as int),
{
    let mut j: usize = 0;
    while j < ps.len()
        invariant
            j <= ps@.len(),
            forall|i: int| 0 <= i < j ==> !(#[trigger] ps@[i].address < q + size && q < ps@[i].span().end()),
        decreases ps@.len() - j,
    {
        let p = &ps[j];
        if (p.address as u128) < (q as u128) + (size as u128) && (q as u128) < (p.address as u128) + (p.data.len() as u64 as u128) {
            return true;
        }
        j += 1;
    }
    false
}

/// Every fill lies inside some sector and shares no byte with any page.
pub open spec fn fills_placed(fills: Seq<FlashSpan>, sectors: Seq<FlashSpan>, ps: Seq<FlashPage>) -> bool {
    &&& spans_ascending(fills)
    &&& forall|j: int| 0 <= j < fills.len() ==> exists|i: int| 0 <= i < sectors.len() && (#[trigger] sectors[i]).address <= (#[trigger] fills[j]).address && fills[j].end() <= sectors[i].end()
    &&& forall|j: int| 0 <= j < fills.len() ==> !pages_overlap(ps, (#[trigger] fills[j]).address as int, fills[j].size as int)
    &&& forall|j: int| 0 <= j < fills.len() ==> (#[trigger] fills[j]).size > 0
}

/// Each fill is one page-sized block of a flash range, aligned to its page size.
pub open spec fn fills_aligned(fills: Seq<FlashSpan>, m: Seq<MemoryRange>) -> bool {
    forall|j: int| 0 <= j < fills.len() ==> #[trigger] fill_in_map(m, fills[j])
}

pub open spec fn fill_in_map(m: Seq<MemoryRange>, f: FlashSpan) -> bool {
    exists|k: int| 0 <= k < m.len() && m[k].is_flash() && f.size == m[k].page_size && aligned(f.address as int, m[k].page_size as int)
        && #[trigger] m[k].holds_span(f.address as int, f.size as int)
}

/// Each address inside a sector lies in a page or in a fill.
pub open spec fn fills_complete(fills: Seq<FlashSpan>, sectors: Seq<FlashSpan>, ps: Seq<FlashPage>) -> bool {
    forall|i: int, a: int| 0 <= i < sectors.len() && #[trigger] sectors[i].contains(a) ==> spans_cover(page_spans(ps), a) || spans_cover(fills, a)
}

/// The page-sized spans of the sectors that no page touches, in ascending order.
fn fill_spans(sectors: &Vec<FlashSpan>, ps: &Vec<FlashPage>, m: &Vec<MemoryRange>, cs: Ghost<Seq<DataChunk>>) -> (r: Vec<FlashSpan>)
    requires
        map_wf(m@),
        spans_ascending(sectors@),
        forall|i: int| 0 <= i < sectors@.len() ==> #[trigger] block_of_map(cs@, m@, true, sectors@[i]),
        forall|j: int| 0 <= j < ps@.len() ==> #[trigger] block_of_map(cs@, m@, false, page_spans(ps@)[j]),
    ensures
        fills_placed(r@, sectors@, ps@),
        fills_complete(r@, sectors@, ps@),
        fills_aligned(r@, m@),
{
    let ghost pss = page_spans(ps@);
    let mut r: Vec<FlashSpan> = Vec::new();
    let mut i: usize = 0;
    while i < sectors.len()
        invariant
            map_wf(m@),
            spans_ascending(sectors@),
            forall|i2: int| 0 <= i2 < sectors@.len() ==> #[trigger] block_of_map(cs@, m@, true, sectors@[i2]),
            pss == page_spans(ps@),
            forall|j: int| 0 <= j < ps@.len() ==> #[trigger] block_of_map(cs@, m@, false, pss[j]),
            i <= sectors@.len(),
            fills_placed(r@, sectors@, ps@),
            fills_aligned(r@, m@),
            i < sectors@.len() ==> forall|j: int| 0 <= j < r@.len() ==> (#[trigger] r@[j]).end() <= sectors@[i as int].address,
            forall|i2: int, a: int| 0 <= i2 < i && #[trigger] sectors@[i2].contains(a) ==> spans_cover(pss, a) || spans_cover(r@, a),
        decreases sectors@.len() - i,
    {
        let s = sectors[i];
        proof {
            assert(block_of_map(cs@, m@, true, sectors@[i as int]));
        }
        let k = choose_range(m, s);
        let size = m[k].page_size;
        let ghost mk = m@[k as int];
        proof {
            assert(mk.wf());
            let k2 = choose|k2: int| 0 <= k2 < m@.len() && #[trigger] block_of_range(cs@, m@[k2], true, s);
            assert(m@[k2].holds_span(s.address as int, 1));
            assert(mk.holds_span(s.address as int, 1));
            lemma_range_unique(m@, k as int, k2, s.address as int);
            crate::arith::lemma_aligned_divisor(s.address as int, mk.sector_size as int, size as int);
            crate::arith::lemma_aligned_step(s.address as int, mk.sector_size as int);
            crate::arith::lemma_aligned_divisor(s.end(), mk.sector_size as int, size as int);
        }
        let s_end: u64 = s.address + s.size;
        let mut q: u64 = s.address;
        while q < s_end
            invariant
                map_wf(m@),
                spans_ascending(r@),
                i < sectors@.len(),
                s == sectors@[i as int],
                s_end == s.end(),
                k < m@.len(),
                mk == m@[k as int],
                mk.is_flash(),
                mk.holds_span(s.address as int, s.size as int),
                size == mk.page_size,
                size > 0,
                aligned(q as int, size as int),
                aligned(s_end as int, size as int),
                s.address <= q,
                q <= s_end,
                pss == page_spans(ps@),
                forall|j: int| 0 <= j < ps@.len() ==> #[trigger] block_of_map(cs@, m@, false, pss[j]),
                forall|j: int| 0 <= j < r@.len() ==> exists|i2: int| 0 <= i2 < sectors@.len() && (#[trigger] sectors@[i2]).address <= (#[trigger] r@[j]).address && r@[j].end() <= sectors@[i2].end(),
                forall|j: int| 0 <= j < r@.len() ==> !pages_overlap(ps@, (#[trigger] r@[j]).address as int, r@[j].size as int),
                forall|j: int| 0 <= j < r@.len() ==> (#[trigger] r@[j]).size > 0,
                fills_aligned(r@, m@),
                forall|j: int| 0 <= j < r@.len() ==> (#[trigger] r@[j]).end() <= q,
                forall|i2: int, a: int| 0 <= i2 < i && #[trigger] sectors@[i2].contains(a) ==> spans_cover(pss, a) || spans_cover(r@, a),
                forall|a: int| s.address <= a < q ==> spans_cover(pss, a) || spans_cover(r@, a),
            decreases s_end - q,
        {
            proof {
                crate::arith::lemma_aligned_gap(q as int, s_end as int, size as int);
            }
            let ghost old_r = r@;
            if !any_page_overlaps(ps, q, size) {
                let f = FlashSpan { address: q, size };
                r.push(f);
                proof {
                    assert(m@[k as int].holds_span(f.address as int, f.size as int));
                    assert(aligned(f.address as int, m@[k as int].page_size as int));
                    assert(fill_in_map(m@, f));
                    assert forall|j: int| 0 <= j < r@.len() implies #[trigger] fill_in_map(m@, r@[j]) by {
                        if j < old_r.len() {
                            assert(r@[j] == old_r[j]);
                        }
                    }
                    assert(sectors@[i as int].address <= r@[old_r.len() as int].address);
                    assert forall|j: int| 0 <= j < r@.len() implies exists|i2: int| 0 <= i2 < sectors@.len() && (#[trigger] sectors@[i2]).address <= (#[trigger] r@[j]).address && r@[j].end() <= sectors@[i2].end() by {
                        if j < old_r.len() {
                            assert(r@[j] == old_r[j]);
                        } else {
                            assert(sectors@[i as int].address <= r@[j].address && r@[j].end() <= sectors@[i as int].end());
                        }
                    }
                    assert forall|a: int| (exists|i2: int| 0 <= i2 < i && #[trigger] sectors@[i2].contains(a)) || s.address <= a < q + size implies spans_cover(pss, a) || spans_cover(r@, a) by {
                        if s.address <= a < q + size && a >= q {
                            assert(r@[old_r.len() as int].contains(a));
                        } else if spans_cover(old_r, a) {
                            let j = choose|j: int| 0 <= j < old_r.len() && (#[trigger] old_r[j]).contains(a);
                            assert(r@[j].contains(a));
                        }
                    }
                }
            } else {
                proof {
                    let j = choose|j: int| 0 <= j < ps@.len() && #[trigger] ps@[j].address < q + size && q < ps@[j].span().end();
                    let p = pss[j];
                    assert(p == ps@[j].span());
                    assert(block_of_map(cs@, m@, false, p));
                    let kp = choose|kp: int| 0 <= kp < m@.len() && #[trigger] block_of_range(cs@, m@[kp], false, p);
                    let x: int = if p.address < q { q as int } else { p.address as int };
                    assert(m@[kp].holds_span(x, 1));
                    assert(mk.holds_span(x, 1));
                    lemma_range_unique(m@, k as int, kp, x);
                    if p.address < q {
                        crate::arith::lemma_aligned_gap(p.address as int, q as int, size as int);
                    } else if q < p.address {
                        crate::arith::lemma_aligned_gap(q as int, p.address as int, size as int);
                    }
                    assert(p.address == q);
                    assert forall|a: int| s.address <= a < q + size implies spans_cover(pss, a) || spans_cover(r@, a) by {
                        if a >= q {
                            assert(pss[j].contains(a));
                        }
                    }
                }
            }
            proof {
                crate::arith::lemma_aligned_step(q as int, size as int);
            }
            q = q + size;
        }
        proof {
            assert forall|i2: int, a: int| 0 <= i2 < i + 1 && #[trigger] sectors@[i2].contains(a) implies spans_cover(pss, a) || spans_cover(r@, a) by {
                if i2 == i {
                    assert(s.address <= a < q);
                }
            }
            if i + 1 < sectors@.len() {
                assert(sectors@[i as int].end() <= sectors@[i + 1].address);
            }
        }
        i += 1;
    }
    r
}

} // verus!

verus! {

/// What a commit erases and writes: the touched sectors, the pages with
/// their bytes, and the spans to restore from the old contents.
#[derive(Clone, Debug)]
pub struct FlashLayout {
    pub sectors: Vec<FlashSpan>,
    pub pages: Vec<FlashPage>,
    pub fills: Vec<FlashSpan>,
}

/// The layout that the image `cs` in memory map `m` calls for: sectors and
/// pages exactly those touched by the image, page bytes from the image, and,
/// when unwritten bytes are kept, page-sized fills inside sectors that miss
/// all pages and, with the pages, cover every sector whole.
pub open spec fn layout_of(l: FlashLayout, cs: Seq<DataChunk>, m: Seq<MemoryRange>, keep_unwritten: bool) -> bool {
    &&& layout_blocks(l.sectors@, cs, m, true)
    &&& layout_blocks(page_spans(l.pages@), cs, m, false)
    &&& forall|j: int| 0 <= j < l.pages@.len() ==> #[trigger] page_bytes(cs, m, l.pages@[j])
    &&& if keep_unwritten {
        fills_placed(l.fills@, l.sectors@, l.pages@) && fills_complete(l.fills@, l.sectors@, l.pages@) && fills_aligned(l.fills@, m)
    } else {
        l.fills@.len() == 0
    }
}

/// Plans the sectors, pages and fills for the image.
pub fn build_layout(cs: &Vec<DataChunk>, m: &Vec<MemoryRange>, keep_unwritten: bool) -> (l: FlashLayout)
    requires
        chunks_wf(cs@),
        map_wf(m@),
        image_in_flash(cs@, m@),
    ensures
        layout_of(l, cs@, m@, keep_unwritten),
{
    let sectors = map_blocks(cs, m, true);
    let page_list = map_blocks(cs, m, false);
    let mut pages: Vec<FlashPage> = Vec::new();
    let mut j: usize = 0;
    while j < page_list.len()
        invariant
            chunks_wf(cs@),
            map_wf(m@),
            layout_blocks(page_list@, cs@, m@, false),
            j <= page_list@.len(),
            pages@.len() == j,
            forall|i: int| 0 <= i < j ==> (#[trigger] pages@[i]).span() == page_list@[i],
            forall|i: int| 0 <= i < j ==> #[trigger] page_bytes(cs@, m@, pages@[i]),
        decreases page_list@.len() - j,
    {
        proof {
            assert(block_of_map(cs@, m@, false, page_list@[j as int]));
        }
        let p = page_data(cs, m, page_list[j]);
        pages.push(p);
        j += 1;
    }
    proof {
        assert(page_spans(pages@) =~= page_list@);
    }
    let fills = if keep_unwritten {
        fill_spans(&sectors, &pages, m, Ghost(cs@))
    } else {
        Vec::new()
    };
    FlashLayout { sectors, pages, fills }
}

} // verus!
