use crate::arith::{aligned, lemma_aligned_divisor, lemma_aligned_gap};
use crate::engine::{
    events_ok, first_phase, initialized, n_sectors, request_of, run, sector_event, start_of, step,
    lengths_fit, n_fills, steps_left, uses_fills, DownloadOptions, Phase, ProgressEvent, Request,
};
use crate::harness::{harness_step, pattern_seq, Harness, HarnessStage, PATTERN_ADDRESS};
use crate::image::{image_byte, in_image, DataChunk};
use crate::layout::{
    block_of_map, block_of_range, block_size, fill_in_map, layout_blocks, layout_of, pages_overlap,
    spans_ascending, page_bytes, page_spans, spans_cover, FlashLayout,
    FlashPage, FlashSpan,
};
use crate::loader::FlashLoader;
use crate::memory::{lemma_range_unique, map_wf, MemoryRange};
use vstd::prelude::*;

verus! {

/// Once a commit has failed it stays failed and sends nothing more, whatever
/// outcomes are reported afterwards.
pub proof fn lemma_failed_is_final(l: FlashLayout, o: DownloadOptions, outs: Seq<bool>)
    ensures
        run(l, o, Phase::Failed, outs) == (Phase::Failed, Seq::<ProgressEvent>::empty()),
    decreases outs.len(),
{
    if outs.len() > 0 {
        lemma_failed_is_final(l, o, outs.drop_first());
    }
}

/// A finished commit sends nothing more and asks nothing of the target.
pub proof fn lemma_done_is_final(l: FlashLayout, o: DownloadOptions, outs: Seq<bool>)
    ensures
        run(l, o, Phase::Done, outs) == (Phase::Done, Seq::<ProgressEvent>::empty()),
        request_of(l, o, Phase::Done) == Request::Idle,
    decreases outs.len(),
{
    if outs.len() > 0 {
        lemma_done_is_final(l, o, outs.drop_first());
    }
}

/// A dry run starts by sending the layout's `Initialized` event, ends at once,
/// and never asks the target for a read, erase or write; starting it again on
/// the same layout and options sends the same events.
pub proof fn lemma_dry_run(l: FlashLayout, o: DownloadOptions, outs: Seq<bool>)
    requires
        o.dry_run,
    ensures
        start_of(l, o).0 == Phase::Done,
        start_of(l, o).1.len() > 0,
        start_of(l, o).1[0] == initialized(l),
        request_of(l, o, start_of(l, o).0) == Request::Idle,
        run(l, o, start_of(l, o).0, outs).1.len() == 0,
{
    lemma_done_is_final(l, o, outs);
}

/// Successful reads of the remaining fills lead into the erase phase.
proof fn lemma_reads_then_erase(l: FlashLayout, o: DownloadOptions, i: int, rest: Seq<bool>)
    requires
        lengths_fit(l),
        uses_fills(l, o),
        !o.skip_erase,
        n_sectors(l) > 0,
        0 <= i < n_fills(l),
    ensures
        run(l, o, Phase::Reading(i as usize), Seq::new((n_fills(l) - i) as nat, |j: int| true) + rest) == (
            run(l, o, Phase::Erasing(0), rest).0,
            seq![ProgressEvent::StartedErasing] + run(l, o, Phase::Erasing(0), rest).1,
        ),
    decreases n_fills(l) - i,
{
    let outs = Seq::new((n_fills(l) - i) as nat, |j: int| true) + rest;
    assert(outs[0]);
    if i + 1 < n_fills(l) {
        assert(outs.drop_first() =~= Seq::new((n_fills(l) - (i + 1)) as nat, |j: int| true) + rest);
        lemma_reads_then_erase(l, o, i + 1, rest);
    } else {
        assert(outs.drop_first() =~= rest);
    }
}

/// When erasing the second of three sectors fails, the first sector is
/// reported erased, `FailedErasing` follows, and nothing else is ever sent:
/// no third sector and no programming. Where unwritten bytes are kept, the
/// fills are read first, each successfully, and erasing follows.
pub proof fn lemma_erase_failure_contained(l: FlashLayout, o: DownloadOptions, later: Seq<bool>)
    requires
        lengths_fit(l),
        n_sectors(l) == 3,
        !o.skip_erase,
        !o.dry_run,
    ensures
        ({
            let reads = if uses_fills(l, o) { n_fills(l) } else { 0 };
            let outs = Seq::new(reads as nat, |j: int| true) + seq![true, false] + later;
            let (ph_start, ev_start) = start_of(l, o);
            let (ph_end, ev_run) = run(l, o, ph_start, outs);
            &&& ph_end == Phase::Failed
            &&& ev_start + ev_run == seq![
                initialized(l),
                ProgressEvent::StartedErasing,
                sector_event(l.sectors@[0]),
                ProgressEvent::FailedErasing,
            ]
        }),
{
    let tail = seq![true, false] + later;
    lemma_failed_is_final(l, o, later);
    assert(tail[0]);
    assert(tail.drop_first() =~= seq![false] + later);
    assert((seq![false] + later)[0] == false);
    assert((seq![false] + later).drop_first() =~= later);
    let r1 = run(l, o, Phase::Erasing(1), seq![false] + later);
    assert(step(l, o, Phase::Erasing(1), false) == (Phase::Failed, seq![ProgressEvent::FailedErasing]));
    assert(r1.0 == Phase::Failed);
    assert(r1.1 =~= seq![ProgressEvent::FailedErasing]);
    let r0 = run(l, o, Phase::Erasing(0), tail);
    assert(step(l, o, Phase::Erasing(0), true) == (Phase::Erasing(1), seq![sector_event(l.sectors@[0])]));
    assert(r0.0 == Phase::Failed);
    assert(r0.1 =~= seq![sector_event(l.sectors@[0]), ProgressEvent::FailedErasing]);
    if uses_fills(l, o) {
        let reads = n_fills(l);
        assert(Seq::new(reads as nat, |j: int| true) + seq![true, false] + later =~= Seq::new((n_fills(l) - 0) as nat, |j: int| true) + tail);
        lemma_reads_then_erase(l, o, 0, tail);
        assert(first_phase(l, o) == (Phase::Reading(0), Seq::<ProgressEvent>::empty()));
        assert(start_of(l, o).1 =~= seq![initialized(l)]);
        assert(seq![initialized(l)] + (seq![ProgressEvent::StartedErasing] + r0.1) =~= seq![
            initialized(l),
            ProgressEvent::StartedErasing,
            sector_event(l.sectors@[0]),
            ProgressEvent::FailedErasing,
        ]);
    } else {
        assert(first_phase(l, o) == (Phase::Erasing(0), seq![ProgressEvent::StartedErasing]));
        assert(Seq::new(0, |j: int| true) + seq![true, false] + later =~= tail);
        assert(start_of(l, o).1 =~= seq![initialized(l), ProgressEvent::StartedErasing]);
        assert(seq![initialized(l), ProgressEvent::StartedErasing] + r0.1 =~= seq![
            initialized(l),
            ProgressEvent::StartedErasing,
            sector_event(l.sectors@[0]),
            ProgressEvent::FailedErasing,
        ]);
    }
}

/// Double buffering changes nothing of what a commit does or reports: only
/// the hint handed along with each page to program.
pub proof fn lemma_buffering_transparent(l: FlashLayout, o1: DownloadOptions, o2: DownloadOptions, p: Phase, ok: bool)
    requires
        o1.keep_unwritten_bytes == o2.keep_unwritten_bytes,
        o1.skip_erase == o2.skip_erase,
        o1.dry_run == o2.dry_run,
    ensures
        step(l, o1, p, ok) == step(l, o2, p, ok),
        start_of(l, o1) == start_of(l, o2),
        request_of(l, o1, p) matches Request::ProgramPage { index: i1, address: a1, .. } ==> request_of(l, o2, p) matches Request::ProgramPage { index: i2, address: a2, .. } && i1 == i2 && a1 == a2,
        !(request_of(l, o1, p) is ProgramPage) ==> request_of(l, o1, p) == request_of(l, o2, p),
{
    lemma_events_ok_same(l, o1, o2, first_phase(l, o1).0, steps_left(l, o1, first_phase(l, o1).0));
}

proof fn lemma_events_ok_same(l: FlashLayout, o1: DownloadOptions, o2: DownloadOptions, p: Phase, fuel: nat)
    requires
        o1.keep_unwritten_bytes == o2.keep_unwritten_bytes,
        o1.skip_erase == o2.skip_erase,
    ensures
        events_ok(l, o1, p, fuel) == events_ok(l, o2, p, fuel),
    decreases fuel,
{
    if fuel > 0 {
        lemma_events_ok_same(l, o1, o2, step(l, o1, p, true).0, (fuel - 1) as nat);
    }
}

/// Some address of the image falls in the span.
pub open spec fn span_has_image(cs: Seq<DataChunk>, s: FlashSpan) -> bool {
    exists|a: int| in_image(cs, a) && #[trigger] s.contains(a)
}

/// Some span of `ss` contains all of `s`.
pub open spec fn in_some_span(ss: Seq<FlashSpan>, s: FlashSpan) -> bool {
    exists|i: int| 0 <= i < ss.len() && (#[trigger] ss[i]).address <= s.address && s.end() <= ss[i].end()
}

/// The planned layout matches the image exactly: every address the image
/// gives a byte to lies in one of the sectors and in one of the pages, and
/// that page holds the image's byte there; no address lies in two pages or
/// in two sectors; every sector and every page holds
/// some address of the image, so the sectors are exactly the sector-aligned
/// cover of the image; and every page lies inside a sector.
pub proof fn lemma_layout_matches_image(l: FlashLayout, cs: Seq<DataChunk>, m: Seq<MemoryRange>, keep: bool)
    requires
        map_wf(m),
        layout_of(l, cs, m, keep),
    ensures
        forall|a: int| #[trigger] in_image(cs, a) ==> exists|i: int| 0 <= i < l.sectors@.len() && (#[trigger] l.sectors@[i]).contains(a),
        forall|a: int| #[trigger] in_image(cs, a) ==> exists|j: int| 0 <= j < l.pages@.len() && (#[trigger] l.pages@[j]).address <= a
            && a < l.pages@[j].address + l.pages@[j].data@.len() && l.pages@[j].data@[a - l.pages@[j].address] == image_byte(cs, a),
        forall|i: int| 0 <= i < l.sectors@.len() ==> span_has_image(cs, #[trigger] l.sectors@[i]),
        forall|j: int| 0 <= j < l.pages@.len() ==> span_has_image(cs, (#[trigger] l.pages@[j]).span()),
        forall|j: int| 0 <= j < l.pages@.len() ==> in_some_span(l.sectors@, (#[trigger] l.pages@[j]).span()),
        forall|a: int, j1: int, j2: int| 0 <= j1 < l.pages@.len() && 0 <= j2 < l.pages@.len() && #[trigger] l.pages@[j1].span().contains(a)
            && #[trigger] l.pages@[j2].span().contains(a) ==> j1 == j2,
        forall|a: int, i1: int, i2: int| 0 <= i1 < l.sectors@.len() && 0 <= i2 < l.sectors@.len() && #[trigger] l.sectors@[i1].contains(a)
            && #[trigger] l.sectors@[i2].contains(a) ==> i1 == i2,
{
    let ps = page_spans(l.pages@);
    assert forall|a: int, j1: int, j2: int| 0 <= j1 < l.pages@.len() && 0 <= j2 < l.pages@.len() && #[trigger] l.pages@[j1].span().contains(a)
        && #[trigger] l.pages@[j2].span().contains(a) implies j1 == j2 by {
        assert(ps[j1] == l.pages@[j1].span());
        assert(ps[j2] == l.pages@[j2].span());
        if j1 < j2 {
            assert(ps[j1].end() <= ps[j2].address);
        } else if j2 < j1 {
            assert(ps[j2].end() <= ps[j1].address);
        }
    }
    assert forall|a: int, i1: int, i2: int| 0 <= i1 < l.sectors@.len() && 0 <= i2 < l.sectors@.len() && #[trigger] l.sectors@[i1].contains(a)
        && #[trigger] l.sectors@[i2].contains(a) implies i1 == i2 by {
        if i1 < i2 {
            assert(l.sectors@[i1].end() <= l.sectors@[i2].address);
        } else if i2 < i1 {
            assert(l.sectors@[i2].end() <= l.sectors@[i1].address);
        }
    }
    assert forall|a: int| #[trigger] in_image(cs, a) implies exists|j: int| 0 <= j < l.pages@.len() && (#[trigger] l.pages@[j]).address <= a
        && a < l.pages@[j].address + l.pages@[j].data@.len() && l.pages@[j].data@[a - l.pages@[j].address] == image_byte(cs, a) by {
        let j = choose|j: int| 0 <= j < ps.len() && (#[trigger] ps[j]).contains(a);
        assert(ps[j] == l.pages@[j].span());
        assert(page_bytes(cs, m, l.pages@[j]));
        let o = a - l.pages@[j].address;
        assert(l.pages@[j].data@[o] == image_byte(cs, a));
    }
    assert forall|i: int| 0 <= i < l.sectors@.len() implies span_has_image(cs, #[trigger] l.sectors@[i]) by {
        assert(block_of_map(cs, m, true, l.sectors@[i]));
        let k = choose|k: int| 0 <= k < m.len() && #[trigger] block_of_range(cs, m[k], true, l.sectors@[i]);
    }
    assert forall|j: int| 0 <= j < l.pages@.len() implies span_has_image(cs, (#[trigger] l.pages@[j]).span()) by {
        assert(ps[j] == l.pages@[j].span());
        assert(block_of_map(cs, m, false, ps[j]));
        let k = choose|k: int| 0 <= k < m.len() && #[trigger] block_of_range(cs, m[k], false, ps[j]);
    }
    assert forall|j: int| 0 <= j < l.pages@.len() implies in_some_span(l.sectors@, (#[trigger] l.pages@[j]).span()) by {
        lemma_page_in_sector(l, cs, m, keep, j);
    }
}

proof fn lemma_page_in_sector(l: FlashLayout, cs: Seq<DataChunk>, m: Seq<MemoryRange>, keep: bool, j: int)
    requires
        map_wf(m),
        layout_of(l, cs, m, keep),
        0 <= j < l.pages@.len(),
    ensures
        in_some_span(l.sectors@, l.pages@[j].span()),
{
    let ps = page_spans(l.pages@);
    let p = ps[j];
    assert(ps[j] == l.pages@[j].span());
    assert(block_of_map(cs, m, false, p));
    let k = choose|k: int| 0 <= k < m.len() && #[trigger] block_of_range(cs, m[k], false, p);
    let a = choose|a: int| in_image(cs, a) && #[trigger] p.contains(a);
    let i = choose|i: int| 0 <= i < l.sectors@.len() && (#[trigger] l.sectors@[i]).contains(a);
    let s = l.sectors@[i];
    assert(block_of_map(cs, m, true, s));
    let k2 = choose|k2: int| 0 <= k2 < m.len() && #[trigger] block_of_range(cs, m[k2], true, s);
    assert(m[k].holds_span(a, 1));
    assert(m[k2].holds_span(a, 1));
    lemma_range_unique(m, k, k2, a);
    let mk = m[k];
    assert(mk.wf());
    let size = mk.page_size as int;
    lemma_aligned_divisor(s.address as int, mk.sector_size as int, size);
    assert(aligned(s.end(), mk.sector_size as int)) by {
        crate::arith::lemma_aligned_step(s.address as int, mk.sector_size as int);
    }
    lemma_aligned_divisor(s.end(), mk.sector_size as int, size);
    if p.address < s.address {
        lemma_aligned_gap(p.address as int, s.address as int, size);
    }
    if p.address < s.end() && p.end() > s.end() {
        lemma_aligned_gap(p.address as int, s.end(), size);
    }
}

/// Some page covers address `a` and holds byte `b` there.
pub open spec fn page_holds(ps: Seq<FlashPage>, a: int, b: u8) -> bool {
    exists|j: int| 0 <= j < ps.len() && (#[trigger] ps[j]).address <= a && a < ps[j].address + ps[j].data@.len()
        && ps[j].data@[a - ps[j].address] == b
}

/// Writing the test pattern of `n` bytes at `PATTERN_ADDRESS` plans pages
/// that hold byte `i mod 256` (the pattern's byte `i`) at address `PATTERN_ADDRESS + i`, for every
/// `i < n`: what a readback of those bytes must return.
pub proof fn lemma_pattern_round_trip(l: FlashLayout, loader: FlashLoader, n: nat)
    requires
        forall|a: int| #[trigger] in_image(loader.chunks@, a) <==> PATTERN_ADDRESS <= a < PATTERN_ADDRESS + n,
        forall|a: int| PATTERN_ADDRESS <= a < PATTERN_ADDRESS + n ==> #[trigger] image_byte(loader.chunks@, a) == pattern_seq(n)[a - PATTERN_ADDRESS],
        layout_of(l, loader.chunks@, loader.memory_map@, false),
    ensures
        forall|i: int| 0 <= i < n ==> #[trigger] page_holds(l.pages@, PATTERN_ADDRESS + i, pattern_seq(n)[i]),
{
    let cs = loader.chunks@;
    let m = loader.memory_map@;
    let ps = page_spans(l.pages@);
    assert forall|i: int| 0 <= i < n implies #[trigger] page_holds(l.pages@, PATTERN_ADDRESS + i, pattern_seq(n)[i]) by {
        let a = PATTERN_ADDRESS + i;
        assert(in_image(cs, a));
        assert(spans_cover(ps, a));
        let j = choose|j: int| 0 <= j < ps.len() && (#[trigger] ps[j]).contains(a);
        assert(ps[j] == l.pages@[j].span());
        assert(page_bytes(cs, m, l.pages@[j]));
        let o = a - l.pages@[j].address;
        assert(l.pages@[j].data@[o] == image_byte(cs, a));
        assert(image_byte(cs, a) == pattern_seq(n)[i]);
    }
}

/// The harness goes on to program only after every byte of the erased range
/// read back as the erased value, and goes on past a cycle only after the
/// pattern read back exactly; any other outcome of those checks fails it.
pub proof fn lemma_harness_checks(h: Harness, ok: bool, readback: Seq<u8>)
    ensures
        h.stage == HarnessStage::CheckingErased && harness_step(h, ok, readback).stage != HarnessStage::Failed ==> {
            &&& readback.len() == h.sector_size
            &&& forall|i: int| 0 <= i < readback.len() ==> readback[i] == h.erased_byte_value
        },
        h.stage == HarnessStage::CheckingProgram && harness_step(h, ok, readback).stage != HarnessStage::Failed ==> readback == pattern_seq(h.data_size as nat),
        h.stage == HarnessStage::Failed ==> harness_step(h, ok, readback) == h,
{
}

/// Where the image is exactly the two bytes on either side of a sector
/// boundary `b`, the layout has exactly two sectors: the one ending at `b`
/// and the one starting there. This holds within one flash range and where
/// `b` is the boundary between two ranges with sectors of different sizes.
/// Neither byte is dropped or duplicated: each lies in one page holding the
/// image's byte (see `lemma_layout_matches_image`).
pub proof fn lemma_boundary_two_sectors(l: FlashLayout, cs: Seq<DataChunk>, m: Seq<MemoryRange>, keep: bool, k1: int, k2: int, b: int)
    requires
        map_wf(m),
        layout_of(l, cs, m, keep),
        0 <= k1 < m.len(),
        0 <= k2 < m.len(),
        m[k1].is_flash(),
        m[k2].is_flash(),
        m[k1].holds_span(b - 1, 1),
        m[k2].holds_span(b, 1),
        aligned(b, m[k1].sector_size as int),
        aligned(b, m[k2].sector_size as int),
        forall|a: int| #[trigger] in_image(cs, a) <==> (a == b - 1 || a == b),
    ensures
        l.sectors@.len() == 2,
        l.sectors@[0] == (FlashSpan { address: (b - m[k1].sector_size) as u64, size: m[k1].sector_size }),
        l.sectors@[1] == (FlashSpan { address: b as u64, size: m[k2].sector_size }),
{
    let ss = l.sectors@;
    let s1 = m[k1].sector_size as int;
    let s2 = m[k2].sector_size as int;
    assert(m[k1].wf());
    assert(m[k2].wf());
    assert(aligned(0, s1));
    lemma_aligned_gap(0, b, s1);
    assert forall|i: int| 0 <= i < ss.len() implies (#[trigger] ss[i]) == (FlashSpan { address: (b - s1) as u64, size: s1 as u64 })
        || ss[i] == (FlashSpan { address: b as u64, size: s2 as u64 }) by {
        assert(block_of_map(cs, m, true, ss[i]));
        let k = choose|k: int| 0 <= k < m.len() && #[trigger] block_of_range(cs, m[k], true, ss[i]);
        let a = choose|a: int| in_image(cs, a) && #[trigger] ss[i].contains(a);
        assert(m[k].holds_span(a, 1));
        let size = m[k].sector_size as int;
        if a == b - 1 {
            lemma_range_unique(m, k, k1, a);
        } else {
            lemma_range_unique(m, k, k2, a);
        }
        if ss[i].address < b {
            lemma_aligned_gap(ss[i].address as int, b, size);
        } else if b < ss[i].address {
            lemma_aligned_gap(b, ss[i].address as int, size);
        }
    }
    assert(in_image(cs, b - 1));
    assert(in_image(cs, b));
    let i0 = choose|i0: int| 0 <= i0 < ss.len() && (#[trigger] ss[i0]).contains(b - 1);
    let i1 = choose|i1: int| 0 <= i1 < ss.len() && (#[trigger] ss[i1]).contains(b);
    assert(ss[i0].address == b - s1);
    assert(ss[i1].address == b);
    if i1 < i0 {
        assert(ss[i1].end() <= ss[i0].address);
    }
    assert(i0 < i1);
    if ss.len() > 2 {
        let i2: int = if i0 != 0 { 0 } else if i1 != 1 { 1 } else { 2 };
        if i2 < i0 {
            assert(ss[i2].end() <= ss[i0].address);
        } else if i0 < i2 && i2 < i1 {
            assert(ss[i0].end() <= ss[i2].address);
            assert(ss[i2].end() <= ss[i1].address);
        } else {
            assert(ss[i1].end() <= ss[i2].address);
        }
    }
    assert(i0 == 0 && i1 == 1);
}

/// Sectors are erased one after another in ascending address order: a
/// successful erase of sector `i` reports that sector and moves on to sector
/// `i + 1`, which lies above it.
pub proof fn lemma_erase_order(l: FlashLayout, cs: Seq<DataChunk>, m: Seq<MemoryRange>, keep: bool, o: DownloadOptions, i: usize)
    requires
        map_wf(m),
        layout_of(l, cs, m, keep),
        !o.skip_erase,
        i + 1 < n_sectors(l),
    ensures
        step(l, o, Phase::Erasing(i), true) == (Phase::Erasing((i + 1) as usize), seq![sector_event(l.sectors@[i as int])]),
        l.sectors@[i as int].address < l.sectors@[i + 1].address,
        request_of(l, o, Phase::Erasing(i)) == (Request::EraseSector { address: l.sectors@[i as int].address, size: l.sectors@[i as int].size }),
{
    let s = l.sectors@[i as int];
    assert(s.end() <= l.sectors@[i + 1].address);
    assert(block_of_map(cs, m, true, s));
    let k = choose|k: int| 0 <= k < m.len() && #[trigger] block_of_range(cs, m[k], true, s);
    assert(m[k].wf());
}

/// Two ascending lists of non-empty spans with the same members are equal.
proof fn lemma_ascending_eq(r1: Seq<FlashSpan>, r2: Seq<FlashSpan>)
    requires
        spans_ascending(r1),
        spans_ascending(r2),
        forall|j: int| 0 <= j < r1.len() ==> (#[trigger] r1[j]).size > 0,
        forall|j: int| 0 <= j < r2.len() ==> (#[trigger] r2[j]).size > 0,
        forall|x: FlashSpan| r1.contains(x) <==> r2.contains(x),
    ensures
        r1 == r2,
    decreases r1.len(),
{
    if r1.len() == 0 {
        if r2.len() > 0 {
            assert(r2.contains(r2[0]));
        }
        assert(r1 =~= r2);
    } else {
        assert(r1.contains(r1[0]));
        let j = choose|j: int| 0 <= j < r2.len() && r2[j] == r1[0];
        assert(r2.contains(r2[0]));
        let i = choose|i: int| 0 <= i < r1.len() && r1[i] == r2[0];
        if j > 0 {
            assert(r2[0].end() <= r2[j].address);
            if i > 0 {
                assert(r1[0].end() <= r1[i].address);
            }
        }
        assert(r1[0] == r2[0]);
        let t1 = r1.drop_first();
        let t2 = r2.drop_first();
        assert forall|x: FlashSpan| t1.contains(x) <==> t2.contains(x) by {
            if t1.contains(x) {
                let a = choose|a: int| 0 <= a < t1.len() && t1[a] == x;
                assert(r1[0].end() <= r1[a + 1].address);
                assert(r1.contains(x));
                let b = choose|b: int| 0 <= b < r2.len() && r2[b] == x;
                assert(b != 0);
                assert(t2[b - 1] == x);
            }
            if t2.contains(x) {
                let a = choose|a: int| 0 <= a < t2.len() && t2[a] == x;
                assert(r2[0].end() <= r2[a + 1].address);
                assert(r2.contains(x));
                let b = choose|b: int| 0 <= b < r1.len() && r1[b] == x;
                assert(b != 0);
                assert(t1[b - 1] == x);
            }
        }
        lemma_ascending_eq(t1, t2);
        assert forall|k: int| 0 <= k < r1.len() implies r1[k] == r2[k] by {
            if k > 0 {
                assert(r1[k] == t1[k - 1]);
            }
        }
        assert(r1 =~= r2);
    }
}

/// A block of one layout of an image is a block of every other layout of it.
proof fn lemma_block_shared(r1: Seq<FlashSpan>, r2: Seq<FlashSpan>, cs: Seq<DataChunk>, m: Seq<MemoryRange>, sectors: bool, x: FlashSpan)
    requires
        map_wf(m),
        layout_blocks(r1, cs, m, sectors),
        layout_blocks(r2, cs, m, sectors),
        r1.contains(x),
    ensures
        r2.contains(x),
        x.size > 0,
{
    let i = choose|i: int| 0 <= i < r1.len() && r1[i] == x;
    assert(block_of_map(cs, m, sectors, r1[i]));
    let k = choose|k: int| 0 <= k < m.len() && #[trigger] block_of_range(cs, m[k], sectors, x);
    let a = choose|a: int| in_image(cs, a) && #[trigger] x.contains(a);
    assert(spans_cover(r2, a));
    let j = choose|j: int| 0 <= j < r2.len() && (#[trigger] r2[j]).contains(a);
    let t = r2[j];
    assert(block_of_map(cs, m, sectors, t));
    let k2 = choose|k2: int| 0 <= k2 < m.len() && #[trigger] block_of_range(cs, m[k2], sectors, t);
    assert(m[k].holds_span(a, 1));
    assert(m[k2].holds_span(a, 1));
    lemma_range_unique(m, k, k2, a);
    assert(m[k].wf());
    let size = block_size(m[k], sectors);
    if x.address < t.address {
        lemma_aligned_gap(x.address as int, t.address as int, size);
    } else if t.address < x.address {
        lemma_aligned_gap(t.address as int, x.address as int, size);
    }
    assert(x == t);
}

/// A fill of one layout of an image is a fill of every other layout of it
/// that has the same sectors and pages.
proof fn lemma_fill_shared(l1: FlashLayout, l2: FlashLayout, cs: Seq<DataChunk>, m: Seq<MemoryRange>, x: FlashSpan)
    requires
        map_wf(m),
        layout_of(l1, cs, m, true),
        layout_of(l2, cs, m, true),
        l1.sectors@ == l2.sectors@,
        page_spans(l1.pages@) == page_spans(l2.pages@),
        l1.fills@.contains(x),
    ensures
        l2.fills@.contains(x),
{
    let f1 = l1.fills@;
    let i = choose|i: int| 0 <= i < f1.len() && f1[i] == x;
    assert(x.size > 0);
    let si = choose|si: int| 0 <= si < l1.sectors@.len() && (#[trigger] l1.sectors@[si]).address <= (#[trigger] f1[i]).address && f1[i].end() <= l1.sectors@[si].end();
    let a = x.address as int;
    assert(l2.sectors@[si].contains(a));
    let ps1 = page_spans(l1.pages@);
    if spans_cover(page_spans(l2.pages@), a) {
        let j = choose|j: int| 0 <= j < ps1.len() && (#[trigger] ps1[j]).contains(a);
        assert(ps1[j] == l1.pages@[j].span());
        assert(pages_overlap(l1.pages@, x.address as int, x.size as int));
    }
    assert(spans_cover(l2.fills@, a));
    let j = choose|j: int| 0 <= j < l2.fills@.len() && (#[trigger] l2.fills@[j]).contains(a);
    let t = l2.fills@[j];
    assert(fill_in_map(m, x));
    assert(fill_in_map(m, t));
    let k = choose|k: int| 0 <= k < m.len() && m[k].is_flash() && x.size == m[k].page_size && aligned(x.address as int, m[k].page_size as int)
        && #[trigger] m[k].holds_span(x.address as int, x.size as int);
    let k2 = choose|k2: int| 0 <= k2 < m.len() && m[k2].is_flash() && t.size == m[k2].page_size && aligned(t.address as int, m[k2].page_size as int)
        && #[trigger] m[k2].holds_span(t.address as int, t.size as int);
    assert(m[k].holds_span(a, 1));
    assert(m[k2].holds_span(a, 1));
    lemma_range_unique(m, k, k2, a);
    let size = m[k].page_size as int;
    if x.address < t.address {
        lemma_aligned_gap(x.address as int, t.address as int, size);
    } else if t.address < x.address {
        lemma_aligned_gap(t.address as int, x.address as int, size);
    }
    assert(x == t);
}

/// The layout of an image is unique: any two layouts planned for the same
/// data, memory map and fill policy have the same sectors, page spans and
/// fills, so a commit reports the same `Initialized` event for both.
pub proof fn lemma_layout_unique(l1: FlashLayout, l2: FlashLayout, cs: Seq<DataChunk>, m: Seq<MemoryRange>, keep: bool)
    requires
        map_wf(m),
        layout_of(l1, cs, m, keep),
        layout_of(l2, cs, m, keep),
    ensures
        l1.sectors@ == l2.sectors@,
        page_spans(l1.pages@) == page_spans(l2.pages@),
        l1.fills@ == l2.fills@,
        initialized(l1) == initialized(l2),
{
    let ps1 = page_spans(l1.pages@);
    let ps2 = page_spans(l2.pages@);
    assert forall|x: FlashSpan| l1.sectors@.contains(x) <==> l2.sectors@.contains(x) by {
        if l1.sectors@.contains(x) {
            lemma_block_shared(l1.sectors@, l2.sectors@, cs, m, true, x);
        }
        if l2.sectors@.contains(x) {
            lemma_block_shared(l2.sectors@, l1.sectors@, cs, m, true, x);
        }
    }
    assert forall|j: int| 0 <= j < l1.sectors@.len() implies (#[trigger] l1.sectors@[j]).size > 0 by {
        assert(l1.sectors@.contains(l1.sectors@[j]));
        lemma_block_shared(l1.sectors@, l1.sectors@, cs, m, true, l1.sectors@[j]);
    }
    assert forall|j: int| 0 <= j < l2.sectors@.len() implies (#[trigger] l2.sectors@[j]).size > 0 by {
        assert(l2.sectors@.contains(l2.sectors@[j]));
        lemma_block_shared(l2.sectors@, l2.sectors@, cs, m, true, l2.sectors@[j]);
    }
    lemma_ascending_eq(l1.sectors@, l2.sectors@);
    assert forall|x: FlashSpan| ps1.contains(x) <==> ps2.contains(x) by {
        if ps1.contains(x) {
            lemma_block_shared(ps1, ps2, cs, m, false, x);
        }
        if ps2.contains(x) {
            lemma_block_shared(ps2, ps1, cs, m, false, x);
        }
    }
    assert forall|j: int| 0 <= j < ps1.len() implies (#[trigger] ps1[j]).size > 0 by {
        assert(ps1.contains(ps1[j]));
        lemma_block_shared(ps1, ps1, cs, m, false, ps1[j]);
    }
    assert forall|j: int| 0 <= j < ps2.len() implies (#[trigger] ps2[j]).size > 0 by {
        assert(ps2.contains(ps2[j]));
        lemma_block_shared(ps2, ps2, cs, m, false, ps2[j]);
    }
    lemma_ascending_eq(ps1, ps2);
    if keep {
        assert forall|x: FlashSpan| l1.fills@.contains(x) <==> l2.fills@.contains(x) by {
            if l1.fills@.contains(x) {
                lemma_fill_shared(l1, l2, cs, m, x);
            }
            if l2.fills@.contains(x) {
                lemma_fill_shared(l2, l1, cs, m, x);
            }
        }
        lemma_ascending_eq(l1.fills@, l2.fills@);
    } else {
        assert(l1.fills@ =~= l2.fills@);
    }
}

} // verus!
