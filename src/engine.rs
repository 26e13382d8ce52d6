use crate::layout::{FlashLayout, FlashSpan};
use vstd::prelude::*;

verus! {

/// A lifecycle event of a commit, delivered to progress observers in order.
#[derive(Clone, Copy, Debug, PartialEq, Eq, Structural)]
pub enum ProgressEvent {
    /// Sent once, first: the byte totals of the sectors, pages and fills.
    Initialized { sector_bytes: u128, page_bytes: u128, fill_bytes: u128 },
    StartedErasing,
    SectorErased { address: u64, size: u64 },
    FailedErasing,
    FinishedErasing,
    StartedFilling,
    PageFilled { address: u64, size: u64 },
    FailedFilling,
    FinishedFilling,
    StartedProgramming,
    PageProgrammed { address: u64, size: u64 },
    FailedProgramming,
    FinishedProgramming,
}

/// How a commit runs.
#[derive(Clone, Copy, Debug, PartialEq, Eq, Structural)]
pub struct DownloadOptions {
    pub keep_unwritten_bytes: bool,
    pub disable_double_buffering: bool,
    pub skip_erase: bool,
    pub dry_run: bool,
}

/// Where a commit stands. The index is the span or page now in hand.
#[derive(Clone, Copy, Debug, PartialEq, Eq, Structural)]
pub enum Phase {
    /// Reading the old contents of fill `i` before anything is erased.
    Reading(usize),
    Erasing(usize),
    /// Writing back fill `i`.
    Filling(usize),
    Programming(usize),
    Done,
    Failed,
}

/// What the engine asks of the target next.
#[derive(Clone, Copy, Debug, PartialEq, Eq, Structural)]
pub enum Request {
    /// Read `[address, address + size)`, to be written back later as fill `index`.
    ReadFill { index: usize, address: u64, size: u64 },
    EraseSector { address: u64, size: u64 },
    /// Write back the bytes read for fill `index`.
    WriteFill { index: usize, address: u64, size: u64 },
    /// Program page `index` of the layout; `double_buffered` allows the
    /// transfer of the next page to overlap this one's programming.
    ProgramPage { index: usize, address: u64, double_buffered: bool },
    /// Nothing is left to do.
    Idle,
}

pub open spec fn n_sectors(l: FlashLayout) -> int {
    l.sectors@.len() as int
}

pub open spec fn n_pages(l: FlashLayout) -> int {
    l.pages@.len() as int
}

pub open spec fn n_fills(l: FlashLayout) -> int {
    l.fills@.len() as int
}

/// Fills are read and written only when unwritten bytes are kept.
pub open spec fn uses_fills(l: FlashLayout, o: DownloadOptions) -> bool {
    o.keep_unwritten_bytes && n_fills(l) > 0
}

/// Entering the program phase.
pub open spec fn enter_programming(l: FlashLayout) -> (Phase, Seq<ProgressEvent>) {
    if n_pages(l) > 0 {
        (Phase::Programming(0), seq![ProgressEvent::StartedProgramming])
    } else {
        (Phase::Done, seq![ProgressEvent::StartedProgramming, ProgressEvent::FinishedProgramming])
    }
}

/// Entering the fill phase, or the program phase when there is nothing to fill.
pub open spec fn enter_filling(l: FlashLayout, o: DownloadOptions) -> (Phase, Seq<ProgressEvent>) {
    if uses_fills(l, o) {
        (Phase::Filling(0), seq![ProgressEvent::StartedFilling])
    } else {
        enter_programming(l)
    }
}

/// Entering the erase phase, or what follows it when erasing is skipped.
pub open spec fn enter_erasing(l: FlashLayout, o: DownloadOptions) -> (Phase, Seq<ProgressEvent>) {
    if o.skip_erase {
        enter_filling(l, o)
    } else if n_sectors(l) > 0 {
        (Phase::Erasing(0), seq![ProgressEvent::StartedErasing])
    } else {
        let (p, e) = enter_filling(l, o);
        (p, seq![ProgressEvent::StartedErasing, ProgressEvent::FinishedErasing] + e)
    }
}

/// The first phase after `Initialized`: reading fills, or erasing.
pub open spec fn first_phase(l: FlashLayout, o: DownloadOptions) -> (Phase, Seq<ProgressEvent>) {
    if uses_fills(l, o) {
        (Phase::Reading(0), Seq::empty())
    } else {
        enter_erasing(l, o)
    }
}

pub open spec fn sector_event(s: FlashSpan) -> ProgressEvent {
    ProgressEvent::SectorErased { address: s.address, size: s.size }
}

pub open spec fn fill_event(s: FlashSpan) -> ProgressEvent {
    ProgressEvent::PageFilled { address: s.address, size: s.size }
}

/// The layout's lists have lengths that a `usize` holds.
pub open spec fn lengths_fit(l: FlashLayout) -> bool {
    &&& n_sectors(l) <= usize::MAX
    &&& n_pages(l) <= usize::MAX
    &&& n_fills(l) <= usize::MAX
}

/// The phase is one the engine can be in for this layout and these options.
pub open spec fn phase_valid(l: FlashLayout, o: DownloadOptions, p: Phase) -> bool {
    match p {
        Phase::Reading(i) => uses_fills(l, o) && i < n_fills(l),
        Phase::Erasing(i) => !o.skip_erase && i < n_sectors(l),
        Phase::Filling(i) => uses_fills(l, o) && i < n_fills(l),
        Phase::Programming(i) => i < n_pages(l),
        _ => true,
    }
}

/// The next phase and the events sent, once the request of phase `p` has
/// succeeded (`ok`) or failed.
pub open spec fn step(l: FlashLayout, o: DownloadOptions, p: Phase, ok: bool) -> (Phase, Seq<ProgressEvent>) {
    match p {
        Phase::Reading(i) => if !ok {
            (Phase::Failed, seq![ProgressEvent::FailedFilling])
        } else if i + 1 < n_fills(l) {
            (Phase::Reading((i + 1) as usize), Seq::empty())
        } else {
            enter_erasing(l, o)
        },
        Phase::Erasing(i) => if !ok {
            (Phase::Failed, seq![ProgressEvent::FailedErasing])
        } else if i + 1 < n_sectors(l) {
            (Phase::Erasing((i + 1) as usize), seq![sector_event(l.sectors@[i as int])])
        } else {
            let (q, e) = enter_filling(l, o);
            (q, seq![sector_event(l.sectors@[i as int]), ProgressEvent::FinishedErasing] + e)
        },
        Phase::Filling(i) => if !ok {
            (Phase::Failed, seq![ProgressEvent::FailedFilling])
        } else if i + 1 < n_fills(l) {
            (Phase::Filling((i + 1) as usize), seq![fill_event(l.fills@[i as int])])
        } else {
            let (q, e) = enter_programming(l);
            (q, seq![fill_event(l.fills@[i as int]), ProgressEvent::FinishedFilling] + e)
        },
        Phase::Programming(i) => {
            let pe = ProgressEvent::PageProgrammed {
                address: l.pages@[i as int].address,
                size: l.pages@[i as int].data@.len() as u64,
            };
            if !ok {
                (Phase::Failed, seq![ProgressEvent::FailedProgramming])
            } else if i + 1 < n_pages(l) {
                (Phase::Programming((i + 1) as usize), seq![pe])
            } else {
                (Phase::Done, seq![pe, ProgressEvent::FinishedProgramming])
            }
        },
        Phase::Done => (Phase::Done, Seq::empty()),
        Phase::Failed => (Phase::Failed, Seq::empty()),
    }
}

/// What phase `p` asks of the target.
pub open spec fn request_of(l: FlashLayout, o: DownloadOptions, p: Phase) -> Request {
    match p {
        Phase::Reading(i) => Request::ReadFill { index: i, address: l.fills@[i as int].address, size: l.fills@[i as int].size },
        Phase::Erasing(i) => Request::EraseSector { address: l.sectors@[i as int].address, size: l.sectors@[i as int].size },
        Phase::Filling(i) => Request::WriteFill { index: i, address: l.fills@[i as int].address, size: l.fills@[i as int].size },
        Phase::Programming(i) => Request::ProgramPage {
            index: i,
            address: l.pages@[i as int].address,
            double_buffered: !o.disable_double_buffering,
        },
        _ => Request::Idle,
    }
}

/// The number of successful steps from phase `p` to `Done`.
pub open spec fn steps_left(l: FlashLayout, o: DownloadOptions, p: Phase) -> nat {
    let fills = if uses_fills(l, o) { n_fills(l) } else { 0 };
    let sectors = if o.skip_erase { 0 } else { n_sectors(l) };
    (match p {
        Phase::Reading(i) => (n_fills(l) - i) + sectors + fills + n_pages(l),
        Phase::Erasing(i) => (n_sectors(l) - i) + fills + n_pages(l),
        Phase::Filling(i) => (n_fills(l) - i) + n_pages(l),
        Phase::Programming(i) => n_pages(l) - i,
        _ => 0,
    }) as nat
}

/// The events of `fuel` successful steps from phase `p`.
pub open spec fn events_ok(l: FlashLayout, o: DownloadOptions, p: Phase, fuel: nat) -> Seq<ProgressEvent>
    decreases fuel,
{
    if fuel == 0 {
        Seq::empty()
    } else {
        let (q, e) = step(l, o, p, true);
        e + events_ok(l, o, q, (fuel - 1) as nat)
    }
}

/// The phase and events after the outcomes `outs`, one per request, from phase `p`.
pub open spec fn run(l: FlashLayout, o: DownloadOptions, p: Phase, outs: Seq<bool>) -> (Phase, Seq<ProgressEvent>)
    decreases outs.len(),
{
    if outs.len() == 0 {
        (p, Seq::empty())
    } else {
        let (q, e) = step(l, o, p, outs[0]);
        let (r, f) = run(l, o, q, outs.drop_first());
        (r, e + f)
    }
}

/// Total size of the spans.
pub open spec fn spans_bytes(s: Seq<FlashSpan>) -> int
    decreases s.len(),
{
    if s.len() == 0 {
        0
    } else {
        spans_bytes(s.drop_last()) + s.last().size
    }
}

/// The `Initialized` event of a layout.
pub open spec fn initialized(l: FlashLayout) -> ProgressEvent {
    ProgressEvent::Initialized {
        sector_bytes: spans_bytes(l.sectors@) as u128,
        page_bytes: spans_bytes(crate::layout::page_spans(l.pages@)) as u128,
        fill_bytes: spans_bytes(l.fills@) as u128,
    }
}

/// The phase a commit starts in and the events it sends on starting. A dry
/// run goes through every step at once, as if each succeeded, and ends `Done`.
pub open spec fn start_of(l: FlashLayout, o: DownloadOptions) -> (Phase, Seq<ProgressEvent>) {
    let (p, e) = first_phase(l, o);
    if o.dry_run {
        (Phase::Done, seq![initialized(l)] + e + events_ok(l, o, p, steps_left(l, o, p)))
    } else {
        (p, seq![initialized(l)] + e)
    }
}

/// A successful step from a phase that is not final leaves one step fewer.
pub proof fn lemma_step_ok(l: FlashLayout, o: DownloadOptions, p: Phase)
    requires
        lengths_fit(l),
        phase_valid(l, o, p),
    ensures
        phase_valid(l, o, step(l, o, p, true).0),
        p != Phase::Done && p != Phase::Failed ==> steps_left(l, o, step(l, o, p, true).0) + 1 == steps_left(l, o, p),
        p != Phase::Failed ==> step(l, o, p, true).0 != Phase::Failed,
{
    let ep = enter_programming(l);
    let ef = enter_filling(l, o);
    let ee = enter_erasing(l, o);
    assert(steps_left(l, o, ep.0) == n_pages(l));
    assert(steps_left(l, o, ef.0) == (if uses_fills(l, o) { n_fills(l) } else { 0 }) + n_pages(l));
    assert(steps_left(l, o, ee.0) == (if o.skip_erase { 0 } else { n_sectors(l) }) + (if uses_fills(l, o) { n_fills(l) } else { 0 }) + n_pages(l));
    assert(ep.0 != Phase::Failed && phase_valid(l, o, ep.0));
    assert(ef.0 != Phase::Failed && phase_valid(l, o, ef.0));
    assert(ee.0 != Phase::Failed && phase_valid(l, o, ee.0));
    match p {
        Phase::Reading(i) => {
            if i + 1 < n_fills(l) {
            } else {
                assert(step(l, o, p, true) == ee);
            }
        },
        Phase::Erasing(i) => {},
        Phase::Filling(i) => {},
        Phase::Programming(i) => {},
        _ => {},
    }
}

/// The first phase is valid and is never `Failed`.
pub proof fn lemma_first_phase(l: FlashLayout, o: DownloadOptions)
    ensures
        phase_valid(l, o, first_phase(l, o).0),
        first_phase(l, o).0 != Phase::Failed,
{
}

fn spans_total(s: &Vec<FlashSpan>) -> (r: u128)
    ensures
        r == spans_bytes(s@),
{
    let mut t: u128 = 0;
    let mut i: usize = 0;
    while i < s.len()
        invariant
            i <= s@.len(),
            t == spans_bytes(s@.take(i as int)),
            t <= i * 0x1_0000_0000_0000_0000,
        decreases s@.len() - i,
    {
        proof {
            assert(s@.take(i + 1).drop_last() =~= s@.take(i as int));
        }
        t = t + s[i].size as u128;
        i += 1;
    }
    proof {
        assert(s@.take(i as int) =~= s@);
    }
    t
}

fn pages_total(ps: &Vec<crate::layout::FlashPage>) -> (r: u128)
    ensures
        r == spans_bytes(crate::layout::page_spans(ps@)),
{
    let ghost sp = crate::layout::page_spans(ps@);
    let mut t: u128 = 0;
    let mut i: usize = 0;
    while i < ps.len()
        invariant
            i <= ps@.len(),
            sp == crate::layout::page_spans(ps@),
            t == spans_bytes(sp.take(i as int)),
            t <= i * 0x1_0000_0000_0000_0000,
        decreases ps@.len() - i,
    {
        proof {
            assert(sp.take(i + 1).drop_last() =~= sp.take(i as int));
        }
        t = t + ps[i].data.len() as u64 as u128;
        i += 1;
    }
    proof {
        assert(sp.take(i as int) =~= sp);
    }
    t
}

fn exec_enter_programming(l: &FlashLayout) -> (r: (Phase, Vec<ProgressEvent>))
    ensures
        r.0 == enter_programming(*l).0,
        r.1@ == enter_programming(*l).1,
{
    if l.pages.len() > 0 {
        (Phase::Programming(0), vec![ProgressEvent::StartedProgramming])
    } else {
        (Phase::Done, vec![ProgressEvent::StartedProgramming, ProgressEvent::FinishedProgramming])
    }
}

fn exec_uses_fills(l: &FlashLayout, o: DownloadOptions) -> (r: bool)
    ensures
        r == uses_fills(*l, o),
{
    o.keep_unwritten_bytes && l.fills.len() > 0
}

fn exec_enter_filling(l: &FlashLayout, o: DownloadOptions) -> (r: (Phase, Vec<ProgressEvent>))
    ensures
        r.0 == enter_filling(*l, o).0,
        r.1@ == enter_filling(*l, o).1,
{
    if exec_uses_fills(l, o) {
        (Phase::Filling(0), vec![ProgressEvent::StartedFilling])
    } else {
        exec_enter_programming(l)
    }
}

fn exec_enter_erasing(l: &FlashLayout, o: DownloadOptions) -> (r: (Phase, Vec<ProgressEvent>))
    ensures
        r.0 == enter_erasing(*l, o).0,
        r.1@ == enter_erasing(*l, o).1,
{
    if o.skip_erase {
        exec_enter_filling(l, o)
    } else if l.sectors.len() > 0 {
        (Phase::Erasing(0), vec![ProgressEvent::StartedErasing])
    } else {
        let (p, mut e) = exec_enter_filling(l, o);
        let mut r = vec![ProgressEvent::StartedErasing, ProgressEvent::FinishedErasing];
        r.append(&mut e);
        (p, r)
    }
}

fn exec_first_phase(l: &FlashLayout, o: DownloadOptions) -> (r: (Phase, Vec<ProgressEvent>))
    ensures
        r.0 == first_phase(*l, o).0,
        r.1@ == first_phase(*l, o).1,
{
    if exec_uses_fills(l, o) {
        (Phase::Reading(0), Vec::new())
    } else {
        exec_enter_erasing(l, o)
    }
}

/// Runs one commit of a layout: tells the caller what to do to the target,
/// one request at a time, and turns each outcome into progress events.
pub struct CommitEngine {
    pub layout: FlashLayout,
    pub options: DownloadOptions,
    pub phase: Phase,
}

impl CommitEngine {
    pub open spec fn wf(&self) -> bool {
        &&& lengths_fit(self.layout)
        &&& phase_valid(self.layout, self.options, self.phase)
    }

    fn exec_step(l: &FlashLayout, o: DownloadOptions, p: Phase, ok: bool) -> (r: (Phase, Vec<ProgressEvent>))
        requires
            lengths_fit(*l),
            phase_valid(*l, o, p),
        ensures
            r.0 == step(*l, o, p, ok).0,
            r.1@ == step(*l, o, p, ok).1,
    {
        match p {
            Phase::Reading(i) => if !ok {
                (Phase::Failed, vec![ProgressEvent::FailedFilling])
            } else if i + 1 < l.fills.len() {
                (Phase::Reading(i + 1), Vec::new())
            } else {
                exec_enter_erasing(l, o)
            },
            Phase::Erasing(i) => if !ok {
                (Phase::Failed, vec![ProgressEvent::FailedErasing])
            } else {
                let s = l.sectors[i];
                let ev = ProgressEvent::SectorErased { address: s.address, size: s.size };
                if i + 1 < l.sectors.len() {
                    (Phase::Erasing(i + 1), vec![ev])
                } else {
                    let (q, mut e) = exec_enter_filling(l, o);
                    let mut r = vec![ev, ProgressEvent::FinishedErasing];
                    r.append(&mut e);
                    (q, r)
                }
            },
            Phase::Filling(i) => if !ok {
                (Phase::Failed, vec![ProgressEvent::FailedFilling])
            } else {
                let s = l.fills[i];
                let ev = ProgressEvent::PageFilled { address: s.address, size: s.size };
                if i + 1 < l.fills.len() {
                    (Phase::Filling(i + 1), vec![ev])
                } else {
                    let (q, mut e) = exec_enter_programming(l);
                    let mut r = vec![ev, ProgressEvent::FinishedFilling];
                    r.append(&mut e);
                    (q, r)
                }
            },
            Phase::Programming(i) => if !ok {
                (Phase::Failed, vec![ProgressEvent::FailedProgramming])
            } else {
                let pg = &l.pages[i];
                let ev = ProgressEvent::PageProgrammed { address: pg.address, size: pg.data.len() as u64 };
                if i + 1 < l.pages.len() {
                    (Phase::Programming(i + 1), vec![ev])
                } else {
                    (Phase::Done, vec![ev, ProgressEvent::FinishedProgramming])
                }
            },
            Phase::Done => (Phase::Done, Vec::new()),
            Phase::Failed => (Phase::Failed, Vec::new()),
        }
    }

    /// Starts a commit: sends `Initialized` and the events of entering the
    /// first phase. A dry run asks nothing of the target: it sends every
    /// event of a successful commit at once and ends `Done`.
    pub fn start(layout: FlashLayout, options: DownloadOptions) -> (r: (CommitEngine, Vec<ProgressEvent>))
        ensures
            r.0.wf(),
            r.0.layout == layout,
            r.0.options == options,
            r.0.phase == start_of(layout, options).0,
            r.1@ == start_of(layout, options).1,
    {
        let ghost l = layout;
        // Each list's length is a usize, which `lengths_fit` records.
        let _ = layout.sectors.len();
        let _ = layout.pages.len();
        let _ = layout.fills.len();
        let init = ProgressEvent::Initialized {
            sector_bytes: spans_total(&layout.sectors),
            page_bytes: pages_total(&layout.pages),
            fill_bytes: spans_total(&layout.fills),
        };
        let (entry, mut entry_events) = exec_first_phase(&layout, options);
        let mut events = vec![init];
        events.append(&mut entry_events);
        proof {
            lemma_first_phase(l, options);
        }
        if !options.dry_run {
            return (CommitEngine { layout, options, phase: entry }, events);
        }
        let ghost target = events@ + events_ok(l, options, entry, steps_left(l, options, entry));
        let mut p = entry;
        while p != Phase::Done
            invariant
                lengths_fit(l),
                phase_valid(l, options, p),
                p != Phase::Failed,
                layout == l,
                events@ + events_ok(l, options, p, steps_left(l, options, p)) == target,
            decreases steps_left(l, options, p),
        {
            proof {
                lemma_step_ok(l, options, p);
                assert(steps_left(l, options, p) > 0);
            }
            let (q, mut e) = Self::exec_step(&layout, options, p, true);
            let ghost before = events@;
            events.append(&mut e);
            proof {
                assert(before + events_ok(l, options, p, steps_left(l, options, p)) == events@ + events_ok(l, options, q, steps_left(l, options, q)));
            }
            p = q;
        }
        (CommitEngine { layout, options, phase: Phase::Done }, events)
    }

    /// What the target must do next.
    pub fn request(&self) -> (r: Request)
        requires
            self.wf(),
        ensures
            r == request_of(self.layout, self.options, self.phase),
    {
        let l = &self.layout;
        match self.phase {
            Phase::Reading(i) => Request::ReadFill { index: i, address: l.fills[i].address, size: l.fills[i].size },
            Phase::Erasing(i) => Request::EraseSector { address: l.sectors[i].address, size: l.sectors[i].size },
            Phase::Filling(i) => Request::WriteFill { index: i, address: l.fills[i].address, size: l.fills[i].size },
            Phase::Programming(i) => Request::ProgramPage {
                index: i,
                address: l.pages[i].address,
                double_buffered: !self.options.disable_double_buffering,
            },
            _ => Request::Idle,
        }
    }

    /// Takes the outcome of the last request and moves on; returns the events
    /// to deliver, in order.
    pub fn report(&mut self, ok: bool) -> (r: Vec<ProgressEvent>)
        requires
            old(self).wf(),
        ensures
            final(self).wf(),
            final(self).layout == old(self).layout,
            final(self).options == old(self).options,
            final(self).phase == step(old(self).layout, old(self).options, old(self).phase, ok).0,
            r@ == step(old(self).layout, old(self).options, old(self).phase, ok).1,
    {
        let (q, e) = Self::exec_step(&self.layout, self.options, self.phase, ok);
        proof {
            lemma_step_ok(self.layout, self.options, self.phase);
        }
        self.phase = q;
        e
    }
}

} // verus!
