use vstd::prelude::*;
use crate::config::BuildConfig;
use crate::text::{starts_with, starts_with_chars, str_chars, string_views};

verus! {

broadcast use vstd::string::group_string_axioms;

/// The command line of a run.
#[derive(Debug)]
pub struct Cli {
    /// Download package sources only. Do not build.
    pub download_only: bool,
    /// Build locally with makepkg (overrides default)
    pub local_build: bool,
    /// Build inside a chroot with makechrootpkg (overrides default)
    pub chroot_build: bool,
    /// Compile only. Skip the package installation prompt
    pub compile_only: bool,
    /// Skip package test suite (--nocheck)
    pub no_check: bool,
    /// Force a new build even if package artifacts already exist
    pub force_build: bool,
    /// Delete the existing package repository and clone it again
    pub clean: bool,
    /// Run full cleaning, including removing downloaded repositories and built packages
    pub clean_all: bool,
    /// Use sudo when deleting repositories or build artifacts
    pub use_sudo_clean: bool,
    /// Remove the configured chroot
    pub remove_chroot: bool,
    /// Install and populate Arch Linux / CachyOS signing keys
    pub install_keys: bool,
    /// Update PKGBUILD checksums before building
    pub update_sums: bool,
    /// Enable verbose output
    pub verbose: bool,
    /// Silent mode. Hide normal status output
    pub silent: bool,
    /// Refresh git clones for `manual_update_packages`.
    pub force_repo_update: bool,
    /// Perform full system update with manual compilation of configured packages
    pub system_update: bool,
    /// Specify which repository to pull the package from
    pub repo: Option<String>,
    /// Only install already built artifacts from the ready-made packages path
    pub install_only: bool,
    /// Before compilation, remove `src/` and `pkg/` under the package directory
    pub clean_install: bool,
    /// Print commands without executing them
    pub dry_run: bool,
    /// List configured packages and exit
    pub list: bool,
    /// Show help information
    pub help: Option<bool>,
    /// Packages to build
    pub packages: Vec<String>,
}

/// What a run does after the maintenance flags (`-k`, `-r`, `-e`) have been
/// acted on.
#[derive(Debug, Clone, Copy, PartialEq, Eq)]
pub enum RunPlan {
    /// `--list`: print the configuration and stop.
    ListConfig,
    /// `--install-only` together with `-U`: refused.
    Conflict,
    /// Only maintenance flags were given: stop after them.
    MaintenanceOnly,
    /// `-R` alone: refresh the manual repositories, report, then run the
    /// repository update command.
    RefreshRepositories,
    /// `-U` (or `-RU`): the system update.
    SystemUpdate,
    /// Build the packages named on the command line.
    BuildPackages,
    /// Nothing to build: refused.
    NoPackages,
}

pub open spec fn maintenance_only(c: Cli) -> bool {
    c.packages.len() == 0 && !c.system_update && !c.force_repo_update
        && (c.install_keys || c.remove_chroot || c.clean_all)
}

/// The plan of a run, in the order the checks are made.
pub open spec fn plan_of(c: Cli) -> RunPlan {
    if c.list {
        RunPlan::ListConfig
    } else if c.system_update && c.install_only {
        RunPlan::Conflict
    } else if maintenance_only(c) {
        RunPlan::MaintenanceOnly
    } else if c.force_repo_update && !c.system_update && c.packages.len() == 0 {
        RunPlan::RefreshRepositories
    } else if c.system_update {
        RunPlan::SystemUpdate
    } else if c.packages.len() == 0 {
        RunPlan::NoPackages
    } else {
        RunPlan::BuildPackages
    }
}

impl Cli {
    /// What the run does (the decisions of `main`).
    pub fn run_plan(&self) -> (r: RunPlan)
        ensures
            r == plan_of(*self),
            self.list ==> r == RunPlan::ListConfig,
            !self.list && self.system_update ==> r == (if self.install_only { RunPlan::Conflict } else { RunPlan::SystemUpdate }),
            !self.list && !self.system_update && self.packages.len() > 0 ==> r == RunPlan::BuildPackages,
            r == RunPlan::RefreshRepositories ==> self.packages.len() == 0 && self.force_repo_update && !self.system_update,
            !self.list && !self.system_update && self.packages.len() == 0 ==> r == (if self.force_repo_update {
                RunPlan::RefreshRepositories
            } else if self.install_keys || self.remove_chroot || self.clean_all {
                RunPlan::MaintenanceOnly
            } else {
                RunPlan::NoPackages
            }),
    {
        proof {
            law_run_plan(*self);
        }
        if self.list {
            RunPlan::ListConfig
        } else if self.system_update && self.install_only {
            RunPlan::Conflict
        } else if self.packages.len() == 0 && !self.system_update && !self.force_repo_update
            && (self.install_keys || self.remove_chroot || self.clean_all) {
            RunPlan::MaintenanceOnly
        } else if self.force_repo_update && !self.system_update && self.packages.len() == 0 {
            RunPlan::RefreshRepositories
        } else if self.system_update {
            RunPlan::SystemUpdate
        } else if self.packages.len() == 0 {
            RunPlan::NoPackages
        } else {
            RunPlan::BuildPackages
        }
    }

    /// Whether installing waits until every scheduled build has finished:
    /// `compile_first_install_after` is set and the run builds and installs
    /// (no `-o`, `--install-only` or `-d`).
    pub fn defer_install_pass(&self, build: &BuildConfig) -> (r: bool)
        ensures
            r == (build.compile_first_install_after && !self.compile_only && !self.install_only && !self.download_only),
    {
        build.compile_first_install_after && !self.compile_only && !self.install_only && !self.download_only
    }

    /// The repository update command with refresh (`-RU`) or without.
    pub fn use_refresh_command(&self) -> (r: bool)
        ensures
            r == self.force_repo_update,
    {
        self.force_repo_update
    }
}

/// Some line of the pending updates starts with `pkg` and a space: the
/// update helper lists an update for the package.
pub open spec fn lists_update(lines: Seq<Seq<char>>, pkg: Seq<char>) -> bool {
    exists|i: int| 0 <= i < lines.len() && #[trigger] starts_with(lines[i], pkg.push(' '))
}

/// Whether the list of pending updates (one per line, as the update helper
/// prints it) names `pkg` at the start of a line, followed by a space.
pub fn helper_line_matches(update_lines: &Vec<String>, pkg: &str) -> (r: bool)
    ensures
        r == lists_update(string_views(update_lines@), pkg@),
{
    let mut p = str_chars(pkg);
    p.push(' ');
    let mut i: usize = 0;
    while i < update_lines.len()
        invariant
            i <= update_lines.len(),
            p@ == pkg@.push(' '),
            forall|k: int| 0 <= k < i ==> !#[trigger] starts_with(string_views(update_lines@)[k], pkg@.push(' ')),
        decreases update_lines.len() - i,
    {
        let line = str_chars(update_lines[i].as_str());
        assert(string_views(update_lines@)[i as int] == line@);
        if starts_with_chars(&line, &p) {
            return true;
        }
        i = i + 1;
    }
    false
}

/// The manual update packages that the system update builds itself: those
/// not named on the command line, in order.
pub open spec fn manual_only(manual: Seq<Seq<char>>, requested: Seq<Seq<char>>) -> Seq<Seq<char>> {
    manual.filter(|m: Seq<char>| !requested.contains(m))
}

pub fn manual_packages_to_process(manual: &Vec<String>, requested: &Vec<String>) -> (r: Vec<String>)
    ensures
        string_views(r@) == manual_only(string_views(manual@), string_views(requested@)),
{
    let ghost mv = string_views(manual@);
    let ghost rv = string_views(requested@);
    let mut out: Vec<String> = Vec::new();
    let mut i: usize = 0;
    assert(mv.take(0) =~= Seq::<Seq<char>>::empty());
    while i < manual.len()
        invariant
            i <= manual.len(),
            mv == string_views(manual@),
            rv == string_views(requested@),
            string_views(out@) == manual_only(mv.take(i as int), rv),
        decreases manual.len() - i,
    {
        let m = &manual[i];
        let mut found = false;
        let mut j: usize = 0;
        while j < requested.len()
            invariant
                j <= requested.len(),
                rv == string_views(requested@),
                found == exists|t: int| 0 <= t < j && rv[t] == m@,
            decreases requested.len() - j,
        {
            assert(rv[j as int] == requested@[j as int]@);
            if requested[j] == *m {
                found = true;
            }
            assert(found == exists|t: int| 0 <= t < j + 1 && rv[t] == m@) by {
                if exists|t: int| 0 <= t < j + 1 && rv[t] == m@ {
                    let t = choose|t: int| 0 <= t < j + 1 && rv[t] == m@;
                    if t < j {
                        assert(exists|t2: int| 0 <= t2 < j && rv[t2] == m@);
                    }
                }
            }
            j = j + 1;
        }
        assert(found == rv.contains(m@)) by {
            if rv.contains(m@) {
                let t = choose|t: int| 0 <= t < rv.len() && rv[t] == m@;
            }
        }
        assert(mv.take(i + 1) =~= mv.take(i as int).push(m@));
        assert(mv.take(i + 1).drop_last() =~= mv.take(i as int));
        reveal(Seq::filter);
        if !found {
            let ghost before = out@;
            out.push(m.clone());
            assert(string_views(out@) =~= string_views(before).push(m@));
        }
        i = i + 1;
    }
    assert(mv.take(manual.len() as int) =~= mv);
    out
}

} // verus!

verus! {

/// What a run does, by its flags: `--list` lists; then `-U` with
/// `--install-only` is refused and `-U` alone updates the system; without
/// `-U`, named packages are built; with none named, `-R` refreshes the
/// repositories, maintenance flags alone stop after the maintenance, and
/// nothing at all is refused. In particular the repository refresh needs an
/// empty package list.
pub proof fn law_run_plan(c: Cli)
    ensures
        c.list ==> plan_of(c) == RunPlan::ListConfig,
        !c.list && c.system_update && c.install_only ==> plan_of(c) == RunPlan::Conflict,
        !c.list && c.system_update && !c.install_only ==> plan_of(c) == RunPlan::SystemUpdate,
        !c.list && !c.system_update && c.packages.len() > 0 ==> plan_of(c) == RunPlan::BuildPackages,
        !c.list && !c.system_update && c.packages.len() == 0 && c.force_repo_update
            ==> plan_of(c) == RunPlan::RefreshRepositories,
        !c.list && !c.system_update && c.packages.len() == 0 && !c.force_repo_update
            && (c.install_keys || c.remove_chroot || c.clean_all) ==> plan_of(c) == RunPlan::MaintenanceOnly,
        !c.list && !c.system_update && c.packages.len() == 0 && !c.force_repo_update
            && !(c.install_keys || c.remove_chroot || c.clean_all) ==> plan_of(c) == RunPlan::NoPackages,
        plan_of(c) == RunPlan::RefreshRepositories ==> c.packages.len() == 0 && c.force_repo_update && !c.system_update,
        plan_of(c) == RunPlan::BuildPackages ==> c.packages.len() > 0 && !c.system_update && !c.list,
{
}

} // verus!
