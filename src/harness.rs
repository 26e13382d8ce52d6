use crate::engine::{start_of, CommitEngine, DownloadOptions, ProgressEvent};
use crate::image::{image_byte, in_image};
use crate::layout::{build_layout, layout_of};
use crate::loader::{FlashLoader, LoaderError};
use crate::memory::{map_wf, span_in_flash, MemoryRange};
use vstd::prelude::*;

verus! {

/// The address at which the harness writes its pattern.
pub const PATTERN_ADDRESS: u64 = 1;

/// The options of a download onto flash that was already erased: unwritten
/// bytes are not restored and erasing is skipped.
pub open spec fn download_options(disable_double_buffering: bool) -> DownloadOptions {
    DownloadOptions { keep_unwritten_bytes: false, disable_double_buffering, skip_erase: true, dry_run: false }
}

/// Starts the commit of a loader's data onto already erased flash.
pub fn run_flash_download(loader: FlashLoader, disable_double_buffering: bool) -> (r: (CommitEngine, Vec<ProgressEvent>))
    requires
        loader.wf(),
    ensures
        layout_of(r.0.layout, loader.chunks@, loader.memory_map@, false),
        r.0.options == download_options(disable_double_buffering),
        r.0.phase == start_of(r.0.layout, r.0.options).0,
        r.1@ == start_of(r.0.layout, r.0.options).1,
        r.0.wf(),
{
    let layout = build_layout(&loader.chunks, &loader.memory_map, false);
    let options = DownloadOptions { keep_unwritten_bytes: false, disable_double_buffering, skip_erase: true, dry_run: false };
    CommitEngine::start(layout, options)
}

/// What to erase.
#[derive(Clone, Copy, Debug, PartialEq, Eq, Structural)]
pub enum EraseRequest {
    /// The whole chip.
    All,
    /// `count` sectors from sector `first` on.
    Sectors { first: u64, count: u64 },
}

/// The erase the harness asks for: the whole chip, or its first two sectors.
pub fn run_flash_erase(do_chip_erase: bool) -> (r: EraseRequest)
    ensures
        r == if do_chip_erase {
            EraseRequest::All
        } else {
            EraseRequest::Sectors { first: 0, count: 2 }
        },
{
    if do_chip_erase {
        EraseRequest::All
    } else {
        EraseRequest::Sectors { first: 0, count: 2 }
    }
}

/// The test pattern of `n` bytes: byte `i` is `i mod 256`.
pub open spec fn pattern_seq(n: nat) -> Seq<u8> {
    Seq::new(n, |i: int| (i % 256) as u8)
}

pub fn pattern(n: u64) -> (r: Vec<u8>)
    requires
        n <= usize::MAX,
    ensures
        r@ == pattern_seq(n as nat),
{
    let mut r: Vec<u8> = Vec::new();
    let mut i: u64 = 0;
    while i < n
        invariant
            i <= n,
            r@ == pattern_seq(i as nat),
        decreases n - i,
    {
        r.push((i % 256) as u8);
        proof {
            assert(r@ =~= pattern_seq((i + 1) as nat));
        }
        i += 1;
    }
    r
}

/// A loader for the memory map holding the test pattern of `n` bytes at
/// `PATTERN_ADDRESS`.
pub fn pattern_loader(memory_map: Vec<MemoryRange>, n: u64) -> (r: Result<FlashLoader, LoaderError>)
    requires
        map_wf(memory_map@),
        n <= usize::MAX,
    ensures
        r matches Ok(l) ==> l.wf() && l.memory_map@ == memory_map@ && !l.keep_unwritten_bytes
            && forall|a: int| #[trigger] in_image(l.chunks@, a) <==> PATTERN_ADDRESS <= a < PATTERN_ADDRESS + n,
        r matches Ok(l) ==> forall|a: int| PATTERN_ADDRESS <= a < PATTERN_ADDRESS + n ==> #[trigger] image_byte(l.chunks@, a) == pattern_seq(n as nat)[a - PATTERN_ADDRESS],
        n > 0 && !span_in_flash(memory_map@, PATTERN_ADDRESS as int, n as int) ==> r == Err::<FlashLoader, LoaderError>(LoaderError::OutOfBounds),
        (n == 0 || span_in_flash(memory_map@, PATTERN_ADDRESS as int, n as int)) ==> r.is_ok(),
{
    let mut loader = FlashLoader::new(memory_map, false);
    let data = pattern(n);
    match loader.add_data(PATTERN_ADDRESS, data) {
        Ok(()) => Ok(loader),
        Err(e) => Err(e),
    }
}

/// Every byte read back holds the erased value.
pub fn all_erased(readback: &Vec<u8>, erased_byte_value: u8) -> (r: bool)
    ensures
        r == forall|i: int| 0 <= i < readback@.len() ==> readback@[i] == erased_byte_value,
{
    let mut i: usize = 0;
    while i < readback.len()
        invariant
            i <= readback@.len(),
            forall|j: int| 0 <= j < i ==> readback@[j] == erased_byte_value,
        decreases readback@.len() - i,
    {
        if readback[i] != erased_byte_value {
            return false;
        }
        i += 1;
    }
    true
}

/// The bytes read back are exactly the expected ones.
pub fn readback_matches(readback: &Vec<u8>, expected: &Vec<u8>) -> (r: bool)
    ensures
        r == (readback@ == expected@),
{
    if readback.len() != expected.len() {
        return false;
    }
    let mut i: usize = 0;
    while i < readback.len()
        invariant
            readback@.len() == expected@.len(),
            i <= readback@.len(),
            forall|j: int| 0 <= j < i ==> readback@[j] == expected@[j],
        decreases readback@.len() - i,
    {
        if readback[i] != expected[i] {
            return false;
        }
        i += 1;
    }
    assert(readback@ =~= expected@);
    true
}

/// Where the end-to-end check of a target stands.
#[derive(Clone, Copy, Debug, PartialEq, Eq, Structural)]
pub enum HarnessStage {
    Erasing,
    CheckingErased,
    Programming,
    CheckingProgram,
    Passed,
    Failed,
}

/// What the harness asks of the target next.
#[derive(Clone, Copy, Debug, PartialEq, Eq, Structural)]
pub enum HarnessAction {
    Erase(EraseRequest),
    /// Read `len` bytes from `address` and report them.
    Read { address: u64, len: u64 },
    /// Erase nothing; commit the pattern loader with these buffering settings.
    Download { disable_double_buffering: bool },
    Stop { passed: bool },
}

/// The number of erase and program cycles the harness runs.
pub const HARNESS_CYCLES: usize = 3;

/// The cycles in order: sector erase with single buffering, chip erase with
/// single buffering, sector erase with double buffering. Each gives
/// `(do_chip_erase, disable_double_buffering)`.
pub open spec fn cycle_config(cycle: int) -> (bool, bool) {
    if cycle == 0 {
        (false, true)
    } else if cycle == 1 {
        (true, true)
    } else {
        (false, false)
    }
}

/// Erases, checks that the erased bytes read back erased, writes the test
/// pattern and checks that it reads back, once for each cycle.
#[derive(Clone, Copy, Debug, PartialEq, Eq, Structural)]
pub struct Harness {
    pub cycle: usize,
    pub stage: HarnessStage,
    pub sector_size: u64,
    pub data_size: u64,
    pub erased_byte_value: u8,
}

/// The harness after the outcome of its action: `ok` tells whether the
/// target did it, `readback` holds what a read returned.
pub open spec fn harness_step(h: Harness, ok: bool, readback: Seq<u8>) -> Harness {
    match h.stage {
        HarnessStage::Erasing => Harness { stage: if ok { HarnessStage::CheckingErased } else { HarnessStage::Failed }, ..h },
        HarnessStage::CheckingErased => Harness {
            stage: if ok && readback.len() == h.sector_size && (forall|i: int| 0 <= i < readback.len() ==> readback[i] == h.erased_byte_value) {
                HarnessStage::Programming
            } else {
                HarnessStage::Failed
            },
            ..h
        },
        HarnessStage::Programming => Harness { stage: if ok { HarnessStage::CheckingProgram } else { HarnessStage::Failed }, ..h },
        HarnessStage::CheckingProgram => if ok && readback == pattern_seq(h.data_size as nat) {
            if h.cycle + 1 < HARNESS_CYCLES {
                Harness { cycle: (h.cycle + 1) as usize, stage: HarnessStage::Erasing, ..h }
            } else {
                Harness { stage: HarnessStage::Passed, ..h }
            }
        } else {
            Harness { stage: HarnessStage::Failed, ..h }
        },
        _ => h,
    }
}

/// What the harness asks for in its current stage.
pub open spec fn harness_action(h: Harness) -> HarnessAction {
    match h.stage {
        HarnessStage::Erasing => HarnessAction::Erase(
            if cycle_config(h.cycle as int).0 {
                EraseRequest::All
            } else {
                EraseRequest::Sectors { first: 0, count: 2 }
            },
        ),
        HarnessStage::CheckingErased => HarnessAction::Read { address: 0, len: h.sector_size },
        HarnessStage::Programming => HarnessAction::Download { disable_double_buffering: cycle_config(h.cycle as int).1 },
        HarnessStage::CheckingProgram => HarnessAction::Read { address: PATTERN_ADDRESS, len: h.data_size },
        HarnessStage::Passed => HarnessAction::Stop { passed: true },
        HarnessStage::Failed => HarnessAction::Stop { passed: false },
    }
}

impl Harness {
    pub open spec fn wf(&self) -> bool {
        self.cycle < HARNESS_CYCLES
    }

    /// A harness at the start of its first cycle.
    pub fn new(sector_size: u64, data_size: u64, erased_byte_value: u8) -> (r: Harness)
        ensures
            r.wf(),
            r == (Harness { cycle: 0, stage: HarnessStage::Erasing, sector_size, data_size, erased_byte_value }),
    {
        Harness { cycle: 0, stage: HarnessStage::Erasing, sector_size, data_size, erased_byte_value }
    }

    fn config(&self) -> (r: (bool, bool))
        ensures
            r == cycle_config(self.cycle as int),
    {
        if self.cycle == 0 {
            (false, true)
        } else if self.cycle == 1 {
            (true, true)
        } else {
            (false, false)
        }
    }

    pub fn action(&self) -> (r: HarnessAction)
        ensures
            r == harness_action(*self),
    {
        match self.stage {
            HarnessStage::Erasing => HarnessAction::Erase(run_flash_erase(self.config().0)),
            HarnessStage::CheckingErased => HarnessAction::Read { address: 0, len: self.sector_size },
            HarnessStage::Programming => HarnessAction::Download { disable_double_buffering: self.config().1 },
            HarnessStage::CheckingProgram => HarnessAction::Read { address: PATTERN_ADDRESS, len: self.data_size },
            HarnessStage::Passed => HarnessAction::Stop { passed: true },
            HarnessStage::Failed => HarnessAction::Stop { passed: false },
        }
    }

    /// Takes the outcome of the last action. A check that fails ends the
    /// harness as `Failed`; it never goes on to a later cycle.
    pub fn advance(&mut self, ok: bool, readback: &Vec<u8>)
        requires
            old(self).wf(),
            old(self).data_size <= usize::MAX,
        ensures
            final(self).wf(),
            *final(self) == harness_step(*old(self), ok, readback@),
    {
        match self.stage {
            HarnessStage::Erasing => {
                self.stage = if ok { HarnessStage::CheckingErased } else { HarnessStage::Failed };
            },
            HarnessStage::CheckingErased => {
                self.stage = if ok && readback.len() as u64 == self.sector_size && all_erased(readback, self.erased_byte_value) {
                    HarnessStage::Programming
                } else {
                    HarnessStage::Failed
                };
            },
            HarnessStage::Programming => {
                self.stage = if ok { HarnessStage::CheckingProgram } else { HarnessStage::Failed };
            },
            HarnessStage::CheckingProgram => {
                let expected = pattern(self.data_size);
                if ok && readback_matches(readback, &expected) {
                    if self.cycle + 1 < HARNESS_CYCLES {
                        self.cycle = self.cycle + 1;
                        self.stage = HarnessStage::Erasing;
                    } else {
                        self.stage = HarnessStage::Passed;
                    }
                } else {
                    self.stage = HarnessStage::Failed;
                }
            },
            _ => {},
        }
    }
}

} // verus!
