use crate::engine::ProgressEvent;
use vstd::prelude::*;

verus! {

/// The visible state of one progress bar.
#[derive(Clone, Copy, Debug, PartialEq, Eq, Structural)]
pub enum BarState {
    Waiting,
    Running,
    Finished,
    /// Stopped by a failure; shown apart from a normal finish.
    Abandoned,
}

#[derive(Clone, Copy, Debug, PartialEq, Eq, Structural)]
pub struct Bar {
    pub length: u128,
    pub position: u128,
    pub state: BarState,
}

/// The fill, erase and program bars of a commit, advanced by its events.
/// The fill bar exists only when unwritten bytes are restored.
#[derive(Clone, Copy, Debug, PartialEq, Eq, Structural)]
pub struct ProgressView {
    pub fill: Option<Bar>,
    pub erase: Bar,
    pub program: Bar,
}

pub open spec fn sat_add(a: u128, b: u64) -> u128 {
    if a + b > u128::MAX {
        u128::MAX
    } else {
        (a + b) as u128
    }
}

pub open spec fn with_state(b: Bar, s: BarState) -> Bar {
    Bar { state: s, ..b }
}

pub open spec fn advanced(b: Bar, size: u64) -> Bar {
    Bar { position: sat_add(b.position, size), ..b }
}

pub open spec fn sized(b: Bar, length: u128) -> Bar {
    Bar { length, ..b }
}

pub open spec fn map_fill(f: Option<Bar>, g: spec_fn(Bar) -> Bar) -> Option<Bar> {
    match f {
        Some(b) => Some(g(b)),
        None => None,
    }
}

/// The bars after event `e`.
pub open spec fn observed(v: ProgressView, e: ProgressEvent) -> ProgressView {
    match e {
        ProgressEvent::Initialized { sector_bytes, page_bytes, fill_bytes } => ProgressView {
            fill: map_fill(v.fill, |b: Bar| sized(b, fill_bytes)),
            erase: sized(v.erase, sector_bytes),
            program: sized(v.program, page_bytes),
        },
        ProgressEvent::StartedErasing => ProgressView { erase: with_state(v.erase, BarState::Running), ..v },
        ProgressEvent::SectorErased { size, .. } => ProgressView { erase: advanced(v.erase, size), ..v },
        ProgressEvent::FailedErasing => ProgressView {
            erase: with_state(v.erase, BarState::Abandoned),
            program: with_state(v.program, BarState::Abandoned),
            ..v
        },
        ProgressEvent::FinishedErasing => ProgressView { erase: with_state(v.erase, BarState::Finished), ..v },
        ProgressEvent::StartedFilling => ProgressView { fill: map_fill(v.fill, |b: Bar| with_state(b, BarState::Running)), ..v },
        ProgressEvent::PageFilled { size, .. } => ProgressView { fill: map_fill(v.fill, |b: Bar| advanced(b, size)), ..v },
        ProgressEvent::FailedFilling => ProgressView { fill: map_fill(v.fill, |b: Bar| with_state(b, BarState::Abandoned)), ..v },
        ProgressEvent::FinishedFilling => ProgressView { fill: map_fill(v.fill, |b: Bar| with_state(b, BarState::Finished)), ..v },
        ProgressEvent::StartedProgramming => ProgressView { program: with_state(v.program, BarState::Running), ..v },
        ProgressEvent::PageProgrammed { size, .. } => ProgressView { program: advanced(v.program, size), ..v },
        ProgressEvent::FailedProgramming => ProgressView { program: with_state(v.program, BarState::Abandoned), ..v },
        ProgressEvent::FinishedProgramming => ProgressView { program: with_state(v.program, BarState::Finished), ..v },
    }
}

fn new_bar() -> (b: Bar)
    ensures
        b == (Bar { length: 0, position: 0, state: BarState::Waiting }),
{
    Bar { length: 0, position: 0, state: BarState::Waiting }
}

fn bar_advance(b: Bar, size: u64) -> (r: Bar)
    ensures
        r == advanced(b, size),
{
    let position = if b.position > u128::MAX - size as u128 {
        u128::MAX
    } else {
        b.position + size as u128
    };
    Bar { position, ..b }
}

fn bar_state(b: Bar, s: BarState) -> (r: Bar)
    ensures
        r == with_state(b, s),
{
    Bar { state: s, ..b }
}

fn bar_length(b: Bar, length: u128) -> (r: Bar)
    ensures
        r == sized(b, length),
{
    Bar { length, ..b }
}

impl ProgressView {
    /// Empty bars, waiting; a fill bar only when unwritten bytes are restored.
    pub fn new(restore_unwritten: bool) -> (r: ProgressView)
        ensures
            r.fill.is_some() == restore_unwritten,
            r.fill matches Some(b) ==> b == (Bar { length: 0, position: 0, state: BarState::Waiting }),
            r.erase == (Bar { length: 0, position: 0, state: BarState::Waiting }),
            r.program == (Bar { length: 0, position: 0, state: BarState::Waiting }),
    {
        ProgressView { fill: if restore_unwritten { Some(new_bar()) } else { None }, erase: new_bar(), program: new_bar() }
    }

    /// Applies one event to the bars.
    pub fn observe(&mut self, e: ProgressEvent)
        ensures
            *final(self) == observed(*old(self), e),
    {
        let v = *self;
        *self = match e {
            ProgressEvent::Initialized { sector_bytes, page_bytes, fill_bytes } => ProgressView {
                fill: match v.fill { Some(b) => Some(bar_length(b, fill_bytes)), None => None },
                erase: bar_length(v.erase, sector_bytes),
                program: bar_length(v.program, page_bytes),
            },
            ProgressEvent::StartedErasing => ProgressView { erase: bar_state(v.erase, BarState::Running), ..v },
            ProgressEvent::SectorErased { size, .. } => ProgressView { erase: bar_advance(v.erase, size), ..v },
            ProgressEvent::FailedErasing => ProgressView {
                erase: bar_state(v.erase, BarState::Abandoned),
                program: bar_state(v.program, BarState::Abandoned),
                ..v
            },
            ProgressEvent::FinishedErasing => ProgressView { erase: bar_state(v.erase, BarState::Finished), ..v },
            ProgressEvent::StartedFilling => ProgressView {
                fill: match v.fill { Some(b) => Some(bar_state(b, BarState::Running)), None => None },
                ..v
            },
            ProgressEvent::PageFilled { size, .. } => ProgressView {
                fill: match v.fill { Some(b) => Some(bar_advance(b, size)), None => None },
                ..v
            },
            ProgressEvent::FailedFilling => ProgressView {
                fill: match v.fill { Some(b) => Some(bar_state(b, BarState::Abandoned)), None => None },
                ..v
            },
            ProgressEvent::FinishedFilling => ProgressView {
                fill: match v.fill { Some(b) => Some(bar_state(b, BarState::Finished)), None => None },
                ..v
            },
            ProgressEvent::StartedProgramming => ProgressView { program: bar_state(v.program, BarState::Running), ..v },
            ProgressEvent::PageProgrammed { size, .. } => ProgressView { program: bar_advance(v.program, size), ..v },
            ProgressEvent::FailedProgramming => ProgressView { program: bar_state(v.program, BarState::Abandoned), ..v },
            ProgressEvent::FinishedProgramming => ProgressView { program: bar_state(v.program, BarState::Finished), ..v },
        };
    }
}

} // verus!
