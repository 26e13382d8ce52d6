use cargo_flash::engine::{CommitEngine, DownloadOptions, Phase, ProgressEvent, Request};
use cargo_flash::harness::{
    all_erased, pattern, pattern_loader, readback_matches, run_flash_download, run_flash_erase,
    EraseRequest, Harness, HarnessAction, HarnessStage, PATTERN_ADDRESS,
};
use cargo_flash::image::{byte_at, DataChunk};
use cargo_flash::layout::{build_layout, touched_blocks, FlashSpan};
use cargo_flash::loader::{FlashLoader, LoaderError};
use cargo_flash::memory::{find_flash_range, memory_map_valid, MemoryKind, MemoryRange};
use cargo_flash::observer::{BarState, ProgressView};
use cargo_flash::session::{
    attach_hint, attach_target, open_probe, reset_action, select_chip, speed_warning, AttachHint,
    ProbeChoice, ProbeError, ResetAction, TargetSelector,
};

fn flash(start: u64, end: u64) -> MemoryRange {
    MemoryRange {
        kind: MemoryKind::Flash,
        start,
        end,
        sector_size: 0x1000,
        page_size: 0x100,
        erased_byte_value: 0xFF,
    }
}

fn ram(start: u64, end: u64) -> MemoryRange {
    MemoryRange {
        kind: MemoryKind::Ram,
        start,
        end,
        sector_size: 0x1000,
        page_size: 0x100,
        erased_byte_value: 0,
    }
}

fn map() -> Vec<MemoryRange> {
    vec![flash(0, 0x4000), ram(0x2000_0000, 0x2001_0000)]
}

fn opts(keep: bool, skip_erase: bool, dry_run: bool) -> DownloadOptions {
    DownloadOptions {
        keep_unwritten_bytes: keep,
        disable_double_buffering: false,
        skip_erase,
        dry_run,
    }
}

fn span(address: u64, size: u64) -> FlashSpan {
    FlashSpan { address, size }
}

#[test]
fn boundary_region_touches_two_sectors() {
    let mut loader = FlashLoader::new(map(), false);
    assert_eq!(loader.add_data(0x0FFF, vec![0xAB, 0xCD]), Ok(()));
    let l = loader.layout();
    assert_eq!(l.sectors, vec![span(0x0000, 0x1000), span(0x1000, 0x1000)]);
    assert_eq!(l.pages.len(), 2);
    assert_eq!(l.pages[0].address, 0x0F00);
    assert_eq!(l.pages[1].address, 0x1000);
    assert_eq!(l.pages[0].data.len(), 0x100);
    assert_eq!(l.pages[0].data[0xFF], 0xAB);
    assert_eq!(l.pages[1].data[0], 0xCD);
    assert_eq!(l.pages[0].data[0xFE], 0xFF);
    assert_eq!(l.pages[1].data[1], 0xFF);
    let written: usize = l
        .pages
        .iter()
        .map(|p| p.data.iter().filter(|b| **b != 0xFF).count())
        .sum();
    assert_eq!(written, 2);
    assert!(l.fills.is_empty());
}

#[test]
fn sectors_cover_aligned_superset() {
    let mut loader = FlashLoader::new(map(), false);
    assert_eq!(loader.add_data(0x2010, vec![1; 0x20]), Ok(()));
    assert_eq!(loader.add_data(0x0100, vec![2; 0x180]), Ok(()));
    let l = loader.layout();
    assert_eq!(l.sectors, vec![span(0x0000, 0x1000), span(0x2000, 0x1000)]);
    let addrs: Vec<u64> = l.pages.iter().map(|p| p.address).collect();
    assert_eq!(addrs, vec![0x0100, 0x0200, 0x2000]);
    assert_eq!(l.pages[1].data[0x7F], 2);
    assert_eq!(l.pages[1].data[0x80], 0xFF);
    assert_eq!(l.pages[2].data[0x0F], 0xFF);
    assert_eq!(l.pages[2].data[0x10], 1);
}

#[test]
fn add_data_out_of_bounds() {
    let mut loader = FlashLoader::new(map(), false);
    assert_eq!(loader.add_data(0x3FFF, vec![0, 0]), Err(LoaderError::OutOfBounds));
    assert_eq!(loader.add_data(0x2000_0000, vec![0]), Err(LoaderError::OutOfBounds));
    assert!(loader.chunks.is_empty());
    assert_eq!(loader.add_data(0x3FFF, vec![7]), Ok(()));
}

#[test]
fn add_data_overlap() {
    let mut loader = FlashLoader::new(map(), false);
    assert_eq!(loader.add_data(0x100, vec![1; 16]), Ok(()));
    assert_eq!(loader.add_data(0x10F, vec![2; 4]), Err(LoaderError::Overlap));
    assert_eq!(loader.add_data(0x0F0, vec![2; 0x11]), Err(LoaderError::Overlap));
    assert_eq!(loader.add_data(0x110, vec![3; 4]), Ok(()));
    assert_eq!(loader.add_data(0x0F0, vec![4; 0x10]), Ok(()));
    assert_eq!(loader.chunks.len(), 3);
    assert_eq!(loader.chunks[0].address, 0x0F0);
    assert_eq!(loader.chunks[2].address, 0x110);
}

#[test]
fn add_empty_data_changes_nothing() {
    let mut loader = FlashLoader::new(map(), false);
    assert_eq!(loader.add_data(0x9999_9999, Vec::new()), Ok(()));
    assert!(loader.chunks.is_empty());
    let l = loader.layout();
    assert!(l.sectors.is_empty() && l.pages.is_empty());
}

#[test]
fn byte_lookup() {
    let cs = vec![DataChunk { address: 10, bytes: vec![5, 6, 7] }];
    assert_eq!(byte_at(&cs, 9), None);
    assert_eq!(byte_at(&cs, 11), Some(6));
    assert_eq!(byte_at(&cs, 13), None);
}

#[test]
fn blocks_of_one_range() {
    let cs = vec![
        DataChunk { address: 0x10, bytes: vec![0; 0x20] },
        DataChunk { address: 0x30, bytes: vec![0; 0x100] },
    ];
    let r = touched_blocks(&cs, 0, 0x1000, 0x100);
    assert_eq!(r, vec![span(0, 0x100), span(0x100, 0x100)]);
}

#[test]
fn flash_range_lookup() {
    let m = map();
    assert_eq!(find_flash_range(&m, 0x100, 0x10), Some(0));
    assert_eq!(find_flash_range(&m, 0x2000_0000, 1), None);
    assert_eq!(find_flash_range(&m, 0x3FF0, 0x11), None);
}

#[test]
fn fills_cover_rest_of_sector() {
    let mut loader = FlashLoader::new(map(), true);
    assert_eq!(loader.add_data(0x1100, vec![9; 0x100]), Ok(()));
    let l = loader.layout();
    assert_eq!(l.sectors, vec![span(0x1000, 0x1000)]);
    assert_eq!(l.fills.len(), 15);
    assert_eq!(l.fills[0], span(0x1000, 0x100));
    assert_eq!(l.fills[1], span(0x1200, 0x100));
    assert!(l.fills.iter().all(|f| f.address != 0x1100));
    let l2 = build_layout(&loader.chunks, &loader.memory_map, false);
    assert!(l2.fills.is_empty());
}

fn three_sector_engine(skip_erase: bool) -> (CommitEngine, Vec<ProgressEvent>) {
    let mut loader = FlashLoader::new(map(), false);
    assert_eq!(loader.add_data(0x1000, vec![1; 4]), Ok(()));
    assert_eq!(loader.add_data(0x2000, vec![2; 4]), Ok(()));
    assert_eq!(loader.add_data(0x3000, vec![3; 4]), Ok(()));
    CommitEngine::start(loader.layout(), opts(false, skip_erase, false))
}

#[test]
fn sectors_erased_in_ascending_order() {
    let (mut e, events) = three_sector_engine(false);
    assert_eq!(
        events[0],
        ProgressEvent::Initialized { sector_bytes: 0x3000, page_bytes: 0x300, fill_bytes: 0 }
    );
    assert_eq!(events[1], ProgressEvent::StartedErasing);
    let mut erased = Vec::new();
    while let Request::EraseSector { address, .. } = e.request() {
        for ev in e.report(true) {
            if let ProgressEvent::SectorErased { address: a, .. } = ev {
                assert_eq!(a, address);
                erased.push(a);
            }
        }
    }
    assert_eq!(erased, vec![0x1000, 0x2000, 0x3000]);
    assert_eq!(e.phase, Phase::Programming(0));
}

#[test]
fn failed_erase_stops_commit() {
    let (mut e, _) = three_sector_engine(false);
    assert_eq!(e.report(true), vec![ProgressEvent::SectorErased { address: 0x1000, size: 0x1000 }]);
    assert_eq!(e.request(), Request::EraseSector { address: 0x2000, size: 0x1000 });
    assert_eq!(e.report(false), vec![ProgressEvent::FailedErasing]);
    assert_eq!(e.phase, Phase::Failed);
    assert_eq!(e.request(), Request::Idle);
    assert!(e.report(true).is_empty());
    assert!(e.report(false).is_empty());
}

#[test]
fn full_commit_event_sequence() {
    let (mut e, first) = three_sector_engine(true);
    assert_eq!(first.len(), 2);
    assert_eq!(first[1], ProgressEvent::StartedProgramming);
    assert_eq!(e.request(), Request::ProgramPage { index: 0, address: 0x1000, double_buffered: true });
    let mut all = Vec::new();
    while e.request() != Request::Idle {
        all.extend(e.report(true));
    }
    assert_eq!(
        all,
        vec![
            ProgressEvent::PageProgrammed { address: 0x1000, size: 0x100 },
            ProgressEvent::PageProgrammed { address: 0x2000, size: 0x100 },
            ProgressEvent::PageProgrammed { address: 0x3000, size: 0x100 },
            ProgressEvent::FinishedProgramming,
        ]
    );
    assert_eq!(e.phase, Phase::Done);
}

#[test]
fn failed_program() {
    let (mut e, _) = three_sector_engine(true);
    assert_eq!(e.report(false), vec![ProgressEvent::FailedProgramming]);
    assert_eq!(e.phase, Phase::Failed);
}

#[test]
fn fill_phase_reads_before_erase() {
    let mut loader = FlashLoader::new(map(), true);
    assert_eq!(loader.add_data(0x0000, vec![1; 0xF00]), Ok(()));
    let (mut e, ev) = CommitEngine::start(loader.layout(), opts(true, false, false));
    assert_eq!(ev.len(), 1);
    assert_eq!(e.request(), Request::ReadFill { index: 0, address: 0xF00, size: 0x100 });
    assert_eq!(e.report(true), vec![ProgressEvent::StartedErasing]);
    assert_eq!(e.request(), Request::EraseSector { address: 0, size: 0x1000 });
    assert_eq!(e.report(true), vec![ProgressEvent::SectorErased { address: 0, size: 0x1000 }, ProgressEvent::FinishedErasing, ProgressEvent::StartedFilling]);
    assert_eq!(e.request(), Request::WriteFill { index: 0, address: 0xF00, size: 0x100 });
    assert_eq!(e.report(false), vec![ProgressEvent::FailedFilling]);
}

#[test]
fn failed_fill_read() {
    let mut loader = FlashLoader::new(map(), true);
    assert_eq!(loader.add_data(0x0000, vec![1; 0x10]), Ok(()));
    let (mut e, _) = CommitEngine::start(loader.layout(), opts(true, false, false));
    assert_eq!(e.report(false), vec![ProgressEvent::FailedFilling]);
    assert_eq!(e.phase, Phase::Failed);
}

#[test]
fn dry_run_is_repeatable_and_silent() {
    let mut loader = FlashLoader::new(map(), false);
    assert_eq!(loader.add_data(0x0FFF, vec![1, 2]), Ok(()));
    let (e1, ev1) = CommitEngine::start(loader.layout(), opts(false, false, true));
    let (e2, ev2) = CommitEngine::start(loader.layout(), opts(false, false, true));
    assert_eq!(ev1, ev2);
    assert_eq!(e1.request(), Request::Idle);
    assert_eq!(e2.phase, Phase::Done);
    assert_eq!(
        ev1,
        vec![
            ProgressEvent::Initialized { sector_bytes: 0x2000, page_bytes: 0x200, fill_bytes: 0 },
            ProgressEvent::StartedErasing,
            ProgressEvent::SectorErased { address: 0, size: 0x1000 },
            ProgressEvent::SectorErased { address: 0x1000, size: 0x1000 },
            ProgressEvent::FinishedErasing,
            ProgressEvent::StartedProgramming,
            ProgressEvent::PageProgrammed { address: 0xF00, size: 0x100 },
            ProgressEvent::PageProgrammed { address: 0x1000, size: 0x100 },
            ProgressEvent::FinishedProgramming,
        ]
    );
}

#[test]
fn empty_commit() {
    let loader = FlashLoader::new(map(), false);
    let (e, ev) = CommitEngine::start(loader.layout(), opts(false, false, false));
    assert_eq!(e.phase, Phase::Done);
    assert_eq!(ev.len(), 5);
    assert_eq!(ev[4], ProgressEvent::FinishedProgramming);
}

#[test]
fn pattern_round_trip_layout() {
    for disable in [true, false] {
        let loader = pattern_loader(map(), 0x200).unwrap();
        let (e, ev) = run_flash_download(loader, disable);
        assert_eq!(e.options.skip_erase, true);
        assert_eq!(e.options.keep_unwritten_bytes, false);
        assert_eq!(ev[1], ProgressEvent::StartedProgramming);
        let l = &e.layout;
        assert_eq!(l.pages.len(), 3);
        for n in 0..0x200u64 {
            let a = PATTERN_ADDRESS + n;
            let p = l.pages.iter().find(|p| p.address <= a && a < p.address + p.data.len() as u64).unwrap();
            assert_eq!(p.data[(a - p.address) as usize], (n % 256) as u8);
        }
        assert_eq!(e.request(), Request::ProgramPage { index: 0, address: 0, double_buffered: !disable });
    }
}

#[test]
fn pattern_values() {
    let p = pattern(300);
    assert_eq!(p.len(), 300);
    assert_eq!(p[255], 255);
    assert_eq!(p[256], 0);
    assert_eq!(p[299], 43);
    assert!(pattern(0).is_empty());
}

#[test]
fn pattern_loader_out_of_bounds() {
    assert!(matches!(pattern_loader(map(), 0x4000), Err(LoaderError::OutOfBounds)));
}

#[test]
fn erased_check() {
    assert!(all_erased(&vec![0xFF; 8], 0xFF));
    assert!(!all_erased(&vec![0xFF, 0xFE, 0xFF], 0xFF));
    assert!(all_erased(&Vec::new(), 0));
    assert!(readback_matches(&vec![1, 2], &vec![1, 2]));
    assert!(!readback_matches(&vec![1, 2], &vec![1, 3]));
    assert!(!readback_matches(&vec![1], &vec![1, 2]));
}

#[test]
fn erase_requests() {
    assert_eq!(run_flash_erase(true), EraseRequest::All);
    assert_eq!(run_flash_erase(false), EraseRequest::Sectors { first: 0, count: 2 });
}

#[test]
fn harness_passes_three_cycles() {
    let mut h = Harness::new(4, 3, 0xFF);
    let mut erases = Vec::new();
    let mut downloads = Vec::new();
    loop {
        match h.action() {
            HarnessAction::Erase(r) => {
                erases.push(r);
                h.advance(true, &Vec::new());
            }
            HarnessAction::Read { address: 0, len } => h.advance(true, &vec![0xFF; len as usize]),
            HarnessAction::Read { address, len } => {
                assert_eq!((address, len), (1, 3));
                h.advance(true, &vec![0, 1, 2]);
            }
            HarnessAction::Download { disable_double_buffering } => {
                downloads.push(disable_double_buffering);
                h.advance(true, &Vec::new());
            }
            HarnessAction::Stop { passed } => {
                assert!(passed);
                break;
            }
        }
    }
    assert_eq!(erases, vec![EraseRequest::Sectors { first: 0, count: 2 }, EraseRequest::All, EraseRequest::Sectors { first: 0, count: 2 }]);
    assert_eq!(downloads, vec![true, true, false]);
}

#[test]
fn harness_stops_on_unerased_byte() {
    let mut h = Harness::new(4, 3, 0xFF);
    h.advance(true, &Vec::new());
    h.advance(true, &vec![0xFF, 0xFF, 0x00, 0xFF]);
    assert_eq!(h.stage, HarnessStage::Failed);
    assert_eq!(h.action(), HarnessAction::Stop { passed: false });
}

#[test]
fn harness_stops_on_mismatch() {
    let mut h = Harness::new(2, 3, 0xFF);
    h.advance(true, &Vec::new());
    h.advance(true, &vec![0xFF, 0xFF]);
    h.advance(true, &Vec::new());
    h.advance(true, &vec![0, 1, 3]);
    assert_eq!(h.stage, HarnessStage::Failed);
    assert_eq!(h.cycle, 0);
}

#[test]
fn observer_bars() {
    let mut v = ProgressView::new(false);
    assert!(v.fill.is_none());
    v.observe(ProgressEvent::Initialized { sector_bytes: 0x2000, page_bytes: 0x200, fill_bytes: 0 });
    assert_eq!(v.erase.length, 0x2000);
    assert_eq!(v.program.length, 0x200);
    v.observe(ProgressEvent::StartedErasing);
    assert_eq!(v.erase.state, BarState::Running);
    v.observe(ProgressEvent::SectorErased { address: 0, size: 0x1000 });
    assert_eq!(v.erase.position, 0x1000);
    v.observe(ProgressEvent::FailedErasing);
    assert_eq!(v.erase.state, BarState::Abandoned);
    assert_eq!(v.program.state, BarState::Abandoned);
}

#[test]
fn observer_fill_bar() {
    let mut v = ProgressView::new(true);
    v.observe(ProgressEvent::Initialized { sector_bytes: 1, page_bytes: 2, fill_bytes: 3 });
    assert_eq!(v.fill.unwrap().length, 3);
    v.observe(ProgressEvent::PageFilled { address: 0, size: 3 });
    v.observe(ProgressEvent::FinishedFilling);
    let f = v.fill.unwrap();
    assert_eq!((f.position, f.state), (3, BarState::Finished));
    v.observe(ProgressEvent::StartedProgramming);
    v.observe(ProgressEvent::PageProgrammed { address: 0, size: 2 });
    v.observe(ProgressEvent::FinishedProgramming);
    assert_eq!((v.program.position, v.program.state), (2, BarState::Finished));
}

#[test]
fn memory_map_checks() {
    assert!(memory_map_valid(&map()));
    assert!(!memory_map_valid(&vec![flash(0, 0x4000), flash(0x3000, 0x5000)]));
    let mut bad = flash(0, 0x4000);
    bad.page_size = 0x300;
    assert!(!memory_map_valid(&vec![bad]));
    assert!(memory_map_valid(&Vec::new()));
}

#[test]
fn probe_choice() {
    assert_eq!(open_probe(true, false, 5), Ok(ProbeChoice::Fake));
    assert_eq!(open_probe(false, true, 5), Ok(ProbeChoice::Selected));
    assert_eq!(open_probe(false, false, 2), Err(ProbeError::Ambiguous));
    assert_eq!(open_probe(false, false, 1), Ok(ProbeChoice::Only));
    assert_eq!(open_probe(false, false, 0), Err(ProbeError::NoneFound));
}

#[test]
fn chip_selection() {
    let named = |t: TargetSelector| match t {
        TargetSelector::Named(n) => Some(n),
        TargetSelector::Auto => None,
    };
    assert_eq!(named(select_chip(Some("nrf52".to_string()), Some("stm32".to_string()))), Some("nrf52".to_string()));
    assert_eq!(named(select_chip(None, Some("stm32".to_string()))), Some("stm32".to_string()));
    assert_eq!(named(select_chip(None, None)), None);
}

#[test]
fn attach_hints() {
    assert_eq!(attach_hint(true), AttachHint::SpecifyChip);
    assert_eq!(attach_hint(false), AttachHint::ConnectUnderReset);
}

fn two_size_map() -> Vec<MemoryRange> {
    let small = MemoryRange {
        kind: MemoryKind::Flash,
        start: 0,
        end: 0x4000,
        sector_size: 0x1000,
        page_size: 0x100,
        erased_byte_value: 0xFF,
    };
    let large = MemoryRange {
        kind: MemoryKind::Flash,
        start: 0x4000,
        end: 0x20000,
        sector_size: 0x4000,
        page_size: 0x200,
        erased_byte_value: 0xFF,
    };
    vec![small, large]
}

#[test]
fn data_across_two_flash_ranges() {
    let mut loader = FlashLoader::new(two_size_map(), false);
    assert_eq!(loader.add_data(0x3FFF, vec![0x11, 0x22]), Ok(()));
    assert_eq!(loader.chunks.len(), 2);
    let l = loader.layout();
    assert_eq!(l.sectors, vec![span(0x3000, 0x1000), span(0x4000, 0x4000)]);
    assert_eq!(l.pages.len(), 2);
    assert_eq!((l.pages[0].address, l.pages[0].data.len()), (0x3F00, 0x100));
    assert_eq!((l.pages[1].address, l.pages[1].data.len()), (0x4000, 0x200));
    assert_eq!(l.pages[0].data[0xFF], 0x11);
    assert_eq!(l.pages[1].data[0], 0x22);
    assert_eq!(loader.add_data(0x3FF0, vec![0; 0x20]), Err(LoaderError::Overlap));
}

#[test]
fn data_running_past_flash_is_refused() {
    let mut loader = FlashLoader::new(two_size_map(), false);
    assert_eq!(loader.add_data(0x1FFFF, vec![1, 2]), Err(LoaderError::OutOfBounds));
    assert!(loader.chunks.is_empty());
    assert_eq!(loader.add_data(0x1FFFF, vec![1]), Ok(()));
}

#[test]
fn attach_and_reset_choices() {
    assert!(matches!(attach_target(None), TargetSelector::Auto));
    assert!(matches!(attach_target(Some("nrf52".to_string())), TargetSelector::Named(n) if n == "nrf52"));
    assert!(speed_warning(4000, 1000));
    assert!(!speed_warning(4000, 4000));
    assert_eq!(reset_action(true), ResetAction::ResetAndHalt { timeout_ms: 500 });
    assert_eq!(reset_action(false), ResetAction::Reset);
}
