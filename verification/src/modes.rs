use vstd::prelude::*;

verus! {

/// The switches that hold for a whole run: silent output (`-i`) and dry
/// runs (`--dry-run`). Both start off.
#[derive(Debug, Clone, Copy, PartialEq, Eq)]
pub struct RunModes {
    pub silent: bool,
    pub dry_run: bool,
}

impl RunModes {
    pub fn new() -> (r: RunModes)
        ensures
            !r.silent,
            !r.dry_run,
    {
        RunModes { silent: false, dry_run: false }
    }
}

/// The modes with silent output switched to `value`.
pub open spec fn with_silent(m: RunModes, value: bool) -> RunModes {
    RunModes { silent: value, ..m }
}

/// The modes with dry runs switched to `value`.
pub open spec fn with_dry_run(m: RunModes, value: bool) -> RunModes {
    RunModes { dry_run: value, ..m }
}

pub fn set_silent_mode(modes: &mut RunModes, value: bool)
    ensures
        *final(modes) == with_silent(*old(modes), value),
{
    modes.silent = value;
}

pub fn is_silent_mode(modes: &RunModes) -> (r: bool)
    ensures
        r == modes.silent,
{
    modes.silent
}

pub fn set_dry_run_mode(modes: &mut RunModes, value: bool)
    ensures
        *final(modes) == with_dry_run(*old(modes), value),
{
    modes.dry_run = value;
}

pub fn is_dry_run_mode(modes: &RunModes) -> (r: bool)
    ensures
        r == modes.dry_run,
{
    modes.dry_run
}

/// A mode reads back as it was last set, and setting one mode leaves the
/// other as it was.
pub proof fn law_modes_read_back(m: RunModes, a: bool, b: bool)
    ensures
        with_silent(m, a).silent == a,
        with_silent(m, a).dry_run == m.dry_run,
        with_dry_run(m, b).dry_run == b,
        with_dry_run(m, b).silent == m.silent,
        with_silent(with_dry_run(m, b), a) == with_dry_run(with_silent(m, a), b),
        with_silent(with_silent(m, b), a) == with_silent(m, a),
        with_dry_run(with_dry_run(m, a), b) == with_dry_run(m, b),
{
}

} // verus!
