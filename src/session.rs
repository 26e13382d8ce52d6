use vstd::prelude::*;

verus! {

/// Which probe to open.
#[derive(Clone, Copy, Debug, PartialEq, Eq, Structural)]
pub enum ProbeChoice {
    /// A stand-in probe that touches no hardware, for dry runs.
    Fake,
    /// The probe named by the user's selector.
    Selected,
    /// The one probe found.
    Only,
}

/// Why no probe could be chosen.
#[derive(Clone, Copy, Debug, PartialEq, Eq, Structural)]
pub enum ProbeError {
    /// More than one probe is present and none was selected.
    Ambiguous,
    /// No probe is present and none was selected.
    NoneFound,
}

/// Chooses the probe: a fake one for a dry run, else the selected one, else
/// the only one present.
pub fn open_probe(dry_run: bool, has_selector: bool, n_probes: usize) -> (r: Result<ProbeChoice, ProbeError>)
    ensures
        dry_run ==> r == Ok::<ProbeChoice, ProbeError>(ProbeChoice::Fake),
        !dry_run && has_selector ==> r == Ok::<ProbeChoice, ProbeError>(ProbeChoice::Selected),
        !dry_run && !has_selector && n_probes > 1 ==> r == Err::<ProbeChoice, ProbeError>(ProbeError::Ambiguous),
        !dry_run && !has_selector && n_probes == 1 ==> r == Ok::<ProbeChoice, ProbeError>(ProbeChoice::Only),
        !dry_run && !has_selector && n_probes == 0 ==> r == Err::<ProbeChoice, ProbeError>(ProbeError::NoneFound),
{
    if dry_run {
        Ok(ProbeChoice::Fake)
    } else if has_selector {
        Ok(ProbeChoice::Selected)
    } else if n_probes > 1 {
        Err(ProbeError::Ambiguous)
    } else if n_probes == 1 {
        Ok(ProbeChoice::Only)
    } else {
        Err(ProbeError::NoneFound)
    }
}

/// A chip, by name or left to detection.
#[derive(Debug)]
pub enum TargetSelector {
    Named(String),
    /// Let the probe detect the chip.
    Auto,
}

/// The chip recorded in the session's report: the one named on the command
/// line wins over the one in the project's manifest; with neither the chip
/// is left to detection. Attaching follows `attach_target`, which looks at
/// the command line alone.
pub fn select_chip(command_line: Option<String>, manifest: Option<String>) -> (r: TargetSelector)
    ensures
        command_line matches Some(c) ==> r matches TargetSelector::Named(n) && n@ == c@,
        command_line.is_none() ==> (manifest matches Some(c) ==> r matches TargetSelector::Named(n) && n@ == c@),
        command_line.is_none() && manifest.is_none() ==> r matches TargetSelector::Auto,
{
    match command_line {
        Some(c) => TargetSelector::Named(c),
        None => match manifest {
            Some(c) => TargetSelector::Named(c),
            None => TargetSelector::Auto,
        },
    }
}

/// The target to attach to: the chip named on the command line, or, without
/// one, whatever chip the probe detects.
pub fn attach_target(command_line: Option<String>) -> (r: TargetSelector)
    ensures
        command_line matches Some(c) ==> r matches TargetSelector::Named(n) && n@ == c@,
        command_line.is_none() ==> r matches TargetSelector::Auto,
{
    match command_line {
        Some(c) => TargetSelector::Named(c),
        None => TargetSelector::Auto,
    }
}

/// Whether to warn that the probe runs slower than the speed asked for.
pub fn speed_warning(requested_khz: u32, actual_khz: u32) -> (r: bool)
    ensures
        r == (actual_khz < requested_khz),
{
    actual_khz < requested_khz
}

/// How long a reset-and-halt may wait for the core to halt.
pub const RESET_HALT_TIMEOUT_MS: u64 = 500;

/// What to do to the first core once flashing is done.
#[derive(Clone, Copy, Debug, PartialEq, Eq, Structural)]
pub enum ResetAction {
    /// Reset and let the core run.
    Reset,
    /// Reset and halt, waiting at most `timeout_ms` for the halt.
    ResetAndHalt { timeout_ms: u64 },
}

/// Resets and halts when asked to, else only resets.
pub fn reset_action(reset_halt: bool) -> (r: ResetAction)
    ensures
        r == if reset_halt {
            ResetAction::ResetAndHalt { timeout_ms: RESET_HALT_TIMEOUT_MS }
        } else {
            ResetAction::Reset
        },
{
    if reset_halt {
        ResetAction::ResetAndHalt { timeout_ms: RESET_HALT_TIMEOUT_MS }
    } else {
        ResetAction::Reset
    }
}

/// What to suggest when attaching to the target fails.
#[derive(Clone, Copy, Debug, PartialEq, Eq, Structural)]
pub enum AttachHint {
    /// Name the chip explicitly: detecting it failed.
    SpecifyChip,
    /// Retry while holding the target in reset.
    ConnectUnderReset,
}

/// The hint for a failed attach: naming the chip when detection failed,
/// connecting under reset otherwise.
pub fn attach_hint(chip_autodetect_failed: bool) -> (r: AttachHint)
    ensures
        r == if chip_autodetect_failed {
            AttachHint::SpecifyChip
        } else {
            AttachHint::ConnectUnderReset
        },
{
    if chip_autodetect_failed {
        AttachHint::SpecifyChip
    } else {
        AttachHint::ConnectUnderReset
    }
}

} // verus!
