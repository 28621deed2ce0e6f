use vstd::prelude::*;
use crate::git::{UpdatedRemotes, remote_set, shared_repo_remote_already_updated, shared_repo_remote_note_updated};
use crate::maintenance::{join_path, join_path_str};
use crate::text::{chars_string, str_chars, str_eq, str_to_lowercase, trim_chars, trim_ws, unicode_lowercase};

verus! {

broadcast use vstd::string::group_string_axioms;

// ---------------------------------------------------------------------------
// Where a package's repository lives
// ---------------------------------------------------------------------------

/// What `prepare_repo` is asked for.
#[derive(Debug)]
pub struct RepoRequest {
    pub pkg_name: String,
    pub base_pkg_name: String,
    pub repo_name: String,
    pub repo_url: String,
    pub packages_path: String,
    /// Delete the clone first (`-c`).
    pub clean: bool,
    /// Bring the clone up to date (`-R`).
    pub force_update: bool,
}

pub open spec fn is_arch(r: RepoRequest) -> bool {
    r.repo_name@ == "arch"@
}

/// The clone's directory: `arch/{base}` under the packages path for the
/// Arch repository (one clone per package), `{repo_name}` otherwise (one
/// shared clone).
pub open spec fn repo_dir_of(r: RepoRequest) -> Seq<char> {
    if is_arch(r) {
        join_path(join_path(r.packages_path@, "arch"@), r.base_pkg_name@)
    } else {
        join_path(r.packages_path@, r.repo_name@)
    }
}

/// `s` without the characters `c` at its end (`str::trim_end_matches`).
pub open spec fn trim_end_char(s: Seq<char>, c: char) -> Seq<char>
    decreases s.len(),
{
    if s.len() > 0 && s.last() == c {
        trim_end_char(s.drop_last(), c)
    } else {
        s
    }
}

/// The URL cloned: `{url}/{base}.git` for the Arch repository (without the
/// URL's trailing slashes), the repository URL otherwise.
pub open spec fn clone_url_of(r: RepoRequest) -> Seq<char> {
    if is_arch(r) {
        trim_end_char(r.repo_url@, '/') + "/"@ + r.base_pkg_name@ + ".git"@
    } else {
        r.repo_url@
    }
}

fn trim_end_slashes(s: &str) -> (r: Vec<char>)
    ensures
        r@ == trim_end_char(s@, '/'),
{
    let mut v = str_chars(s);
    while v.len() > 0 && v[v.len() - 1] == '/'
        invariant
            trim_end_char(v@, '/') == trim_end_char(s@, '/'),
        decreases v.len(),
    {
        let ghost before = v@;
        v.pop();
        assert(v@ =~= before.drop_last());
    }
    v
}

impl RepoRequest {
    pub fn repo_dir(&self) -> (r: String)
        ensures
            r@ == repo_dir_of(*self),
    {
        if str_eq(self.repo_name.as_str(), "arch") {
            let arch = join_path_str(self.packages_path.as_str(), "arch");
            join_path_str(arch.as_str(), self.base_pkg_name.as_str())
        } else {
            join_path_str(self.packages_path.as_str(), self.repo_name.as_str())
        }
    }

    pub fn clone_url(&self) -> (r: String)
        ensures
            r@ == clone_url_of(*self),
    {
        if str_eq(self.repo_name.as_str(), "arch") {
            let t = trim_end_slashes(self.repo_url.as_str());
            let mut s = chars_string(&t);
            s.append("/");
            s.append(self.base_pkg_name.as_str());
            s.append(".git");
            s
        } else {
            self.repo_url.clone()
        }
    }
}

// ---------------------------------------------------------------------------
// The answer after a failed update
// ---------------------------------------------------------------------------

/// The options offered when a shared clone could not be updated.
#[derive(Debug, Clone, Copy, PartialEq, Eq, Structural)]
pub enum UpdateChoice {
    /// `r`: try the update again.
    Retry,
    /// `d`: delete the clone and clone it again.
    Reclone,
    /// `a`: stop.
    Abort,
    /// Anything else: say so and try the update again.
    Invalid,
}

pub open spec fn update_choice_of(input: Seq<char>) -> UpdateChoice {
    let v = unicode_lowercase(trim_ws(input));
    if v == "r"@ {
        UpdateChoice::Retry
    } else if v == "d"@ {
        UpdateChoice::Reclone
    } else if v == "a"@ {
        UpdateChoice::Abort
    } else {
        UpdateChoice::Invalid
    }
}

/// Reads the answer to "Choice [r/d/a]", trimmed and lower-cased.
pub fn update_choice(input: &str) -> (r: UpdateChoice)
    ensures
        r == update_choice_of(input@),
{
    let t = chars_string(&trim_chars(&str_chars(input)));
    let v = str_to_lowercase(t.as_str());
    if str_eq(v.as_str(), "r") {
        UpdateChoice::Retry
    } else if str_eq(v.as_str(), "d") {
        UpdateChoice::Reclone
    } else if str_eq(v.as_str(), "a") {
        UpdateChoice::Abort
    } else {
        UpdateChoice::Invalid
    }
}

// ---------------------------------------------------------------------------
// Preparing the clone, step by step
// ---------------------------------------------------------------------------

/// Where the preparation of a clone stands.
#[derive(Debug, Clone, Copy, PartialEq, Eq, Structural)]
pub enum RepoPhase {
    /// Nothing done yet.
    Start,
    /// Waiting for what is on disk; `cleaned`: after the clone was deleted.
    Probing { cleaned: bool },
    /// Waiting for the deletion of the clone (`-c`).
    Cleaning,
    /// Waiting for a clone; `again`: after the user chose to clone again.
    Cloning { again: bool },
    /// Waiting for a `git pull --ff-only`.
    Pulling,
    /// The failed pull of an Arch clone was reported.
    PullReported,
    /// Waiting for the user's choice after a failed pull.
    Asking,
    /// The user's choice was acknowledged.
    Acknowledged { choice: UpdateChoice },
    /// Waiting for the deletion before cloning again.
    Deleting,
    /// Waiting for the search of the package's directory.
    Locating,
    /// Done, or failed.
    Over,
}

/// What `prepare_repo` fails with; each ends the run.
#[derive(Debug)]
pub enum RepoFailure {
    /// The clone could not be deleted.
    CleanFailed(String),
    /// The clone failed: the URL and the error.
    CloneFailed { url: String, error: String },
    /// The terminal could not be read.
    ReadFailed,
    /// The user chose to stop.
    Aborted,
    /// The package has no directory in the clone.
    NotFound { pkg_name: String, repo_name: String },
}

/// What the caller is to do next.
#[derive(Debug)]
pub enum RepoAction {
    /// Look whether the directory and its `.git` exist; answer `Probed`.
    Probe(String),
    /// Delete the directory; answer `Succeeded` or `Failed`.
    Remove(String),
    /// Clone `url` into `dir`; `quiet`: with git's output hidden unless the
    /// run is verbose. Answer `Succeeded` or `Failed`.
    Clone { url: String, dir: String, quiet: bool },
    /// Run `git pull --ff-only` in the directory; answer `Succeeded` or
    /// `Failed`.
    Pull(String),
    /// Warn that the pull of package `name` failed; answer `Continue`.
    WarnPullFailed { name: String, error: String },
    /// Say that the update of the directory failed, offer the choices and
    /// read one; answer `Answer` or `ReadFailed`.
    AskAfterFailedPull(String),
    /// Acknowledge the choice; answer `Continue`.
    Acknowledge(UpdateChoice),
    /// Search the directory for the package's PKGBUILD directory; answer
    /// `Located`.
    Locate { dir: String, pkg: String },
    /// The package's directory.
    Finish(String),
    /// Stop the run.
    Fail(RepoFailure),
}

/// What happened since the last action.
#[derive(Debug)]
pub enum RepoEvent {
    Begin,
    Probed { exists: bool, git_exists: bool },
    Succeeded,
    Failed(String),
    Continue,
    Answer(String),
    ReadFailed,
    Located(Option<String>),
}

/// The event answers the action that led to the phase.
pub open spec fn event_fits(phase: RepoPhase, e: RepoEvent) -> bool {
    match phase {
        RepoPhase::Start => e is Begin,
        RepoPhase::Probing { .. } => e is Probed,
        RepoPhase::Cleaning | RepoPhase::Cloning { .. } | RepoPhase::Pulling | RepoPhase::Deleting =>
            e is Succeeded || e is Failed,
        RepoPhase::PullReported | RepoPhase::Acknowledged { .. } => e is Continue,
        RepoPhase::Asking => e is Answer || e is ReadFailed,
        RepoPhase::Locating => e is Located,
        RepoPhase::Over => false,
    }
}

/// The step after the clone is known to be in place (or not): clone it,
/// update it, or go on.
pub open spec fn after_probe(r: RepoRequest, exists: bool, git_exists: bool, updated: bool, a: RepoAction, p: RepoPhase) -> bool {
    let dir = repo_dir_of(r);
    if is_arch(r) {
        if !exists {
            p == (RepoPhase::Cloning { again: false }) && (a matches RepoAction::Clone { url, dir: d, quiet } && url@ == clone_url_of(r) && d@ == dir && quiet)
        } else if r.force_update && git_exists && !updated {
            p == RepoPhase::Pulling && (a matches RepoAction::Pull(d) && d@ == dir)
        } else {
            p == RepoPhase::Over && (a matches RepoAction::Finish(d) && d@ == dir)
        }
    } else {
        if !git_exists {
            p == (RepoPhase::Cloning { again: false }) && (a matches RepoAction::Clone { url, dir: d, quiet } && url@ == clone_url_of(r) && d@ == dir && quiet)
        } else if r.force_update && !updated {
            p == RepoPhase::Pulling && (a matches RepoAction::Pull(d) && d@ == dir)
        } else {
            locating(r, a, p)
        }
    }
}

/// Search the clone for the package's directory.
pub open spec fn locating(r: RepoRequest, a: RepoAction, p: RepoPhase) -> bool {
    p == RepoPhase::Locating && (a matches RepoAction::Locate { dir, pkg } && dir@ == repo_dir_of(r) && pkg@ == r.base_pkg_name@)
}

/// The clone is up to date: finish (Arch) or search it.
pub open spec fn after_update(r: RepoRequest, a: RepoAction, p: RepoPhase) -> bool {
    if is_arch(r) {
        p == RepoPhase::Over && (a matches RepoAction::Finish(d) && d@ == repo_dir_of(r))
    } else {
        locating(r, a, p)
    }
}

/// One step of `prepare_repo`: from the phase, the remotes updated so far
/// and the event, the next phase, action and remotes.
pub open spec fn step_ok(
    r: RepoRequest,
    phase: RepoPhase,
    before: Set<Seq<char>>,
    e: RepoEvent,
    p: RepoPhase,
    a: RepoAction,
    after: Set<Seq<char>>,
) -> bool {
    let dir = repo_dir_of(r);
    let updated = before.contains(dir);
    match phase {
        RepoPhase::Start => after == before && p == (RepoPhase::Probing { cleaned: false }) && (a matches RepoAction::Probe(d) && d@ == dir),
        RepoPhase::Probing { cleaned } => after == before && match e {
            RepoEvent::Probed { exists, git_exists } =>
                if r.clean && exists && !cleaned {
                    p == RepoPhase::Cleaning && (a matches RepoAction::Remove(d) && d@ == dir)
                } else {
                    after_probe(r, exists, git_exists, updated, a, p)
                },
            _ => false,
        },
        RepoPhase::Cleaning => after == before && match e {
            RepoEvent::Succeeded => p == (RepoPhase::Probing { cleaned: true }) && (a matches RepoAction::Probe(d) && d@ == dir),
            RepoEvent::Failed(err) => p == RepoPhase::Over && (a matches RepoAction::Fail(RepoFailure::CleanFailed(x)) && x@ == err@),
            _ => false,
        },
        RepoPhase::Cloning { again } => match e {
            RepoEvent::Succeeded => after == before.insert(dir) && after_update(r, a, p),
            RepoEvent::Failed(err) => after == before && p == RepoPhase::Over && (a matches RepoAction::Fail(RepoFailure::CloneFailed { url, error }) && url@ == clone_url_of(r) && error@ == err@),
            _ => false,
        },
        RepoPhase::Pulling => match e {
            RepoEvent::Succeeded => after == before.insert(dir) && after_update(r, a, p),
            RepoEvent::Failed(err) => after == before && if is_arch(r) {
                p == RepoPhase::PullReported && (a matches RepoAction::WarnPullFailed { name, error }
                    && name@ == r.base_pkg_name@ && error@ == err@)
            } else {
                p == RepoPhase::Asking && (a matches RepoAction::AskAfterFailedPull(d) && d@ == dir)
            },
            _ => false,
        },
        RepoPhase::PullReported => after == before && p == RepoPhase::Over && (a matches RepoAction::Finish(d) && d@ == dir),
        RepoPhase::Asking => after == before && match e {
            RepoEvent::Answer(text) => match update_choice_of(text@) {
                UpdateChoice::Abort => p == RepoPhase::Over && (a matches RepoAction::Fail(RepoFailure::Aborted)),
                c => p == (RepoPhase::Acknowledged { choice: c }) && (a matches RepoAction::Acknowledge(k) && k == c),
            },
            RepoEvent::ReadFailed => p == RepoPhase::Over && (a matches RepoAction::Fail(RepoFailure::ReadFailed)),
            _ => false,
        },
        RepoPhase::Acknowledged { choice } => after == before && if choice == UpdateChoice::Reclone {
            p == RepoPhase::Deleting && (a matches RepoAction::Remove(d) && d@ == dir)
        } else {
            p == RepoPhase::Pulling && (a matches RepoAction::Pull(d) && d@ == dir)
        },
        RepoPhase::Deleting => after == before && match e {
            RepoEvent::Succeeded => p == (RepoPhase::Cloning { again: true }) && (a matches RepoAction::Clone { url, dir: d, quiet } && url@ == clone_url_of(r) && d@ == dir && !quiet),
            RepoEvent::Failed(err) => p == RepoPhase::Over && (a matches RepoAction::Fail(RepoFailure::CleanFailed(x)) && x@ == err@),
            _ => false,
        },
        RepoPhase::Locating => after == before && p == RepoPhase::Over && match e {
            RepoEvent::Located(Some(path)) => (a matches RepoAction::Finish(x) && x@ == path@),
            RepoEvent::Located(None) => (a matches RepoAction::Fail(RepoFailure::NotFound { pkg_name, repo_name })
                && pkg_name@ == r.pkg_name@ && repo_name@ == r.repo_name@),
            _ => false,
        },
        RepoPhase::Over => false,
    }
}

/// The preparation of a package's clone (`prepare_repo`), run by the caller
/// one action at a time.
pub struct RepoPrep {
    pub request: RepoRequest,
    pub phase: RepoPhase,
}

impl RepoPrep {
    pub fn new(request: RepoRequest) -> (r: RepoPrep)
        ensures
            r.request == request,
            r.phase == RepoPhase::Start,
    {
        RepoPrep { request, phase: RepoPhase::Start }
    }

    fn probe_step(&self, exists: bool, git_exists: bool, remotes: &UpdatedRemotes) -> (r: (RepoPhase, RepoAction))
        ensures
            after_probe(self.request, exists, git_exists, remote_set(remotes.dirs@).contains(repo_dir_of(self.request)), r.1, r.0),
    {
        let dir = self.request.repo_dir();
        let updated = shared_repo_remote_already_updated(remotes, dir.as_str());
        if str_eq(self.request.repo_name.as_str(), "arch") {
            if !exists {
                (RepoPhase::Cloning { again: false }, RepoAction::Clone { url: self.request.clone_url(), dir, quiet: true })
            } else if self.request.force_update && git_exists && !updated {
                (RepoPhase::Pulling, RepoAction::Pull(dir))
            } else {
                (RepoPhase::Over, RepoAction::Finish(dir))
            }
        } else {
            if !git_exists {
                (RepoPhase::Cloning { again: false }, RepoAction::Clone { url: self.request.clone_url(), dir, quiet: true })
            } else if self.request.force_update && !updated {
                (RepoPhase::Pulling, RepoAction::Pull(dir))
            } else {
                (RepoPhase::Locating, RepoAction::Locate { dir, pkg: self.request.base_pkg_name.clone() })
            }
        }
    }

    fn updated_step(&self) -> (r: (RepoPhase, RepoAction))
        ensures
            after_update(self.request, r.1, r.0),
    {
        let dir = self.request.repo_dir();
        if str_eq(self.request.repo_name.as_str(), "arch") {
            (RepoPhase::Over, RepoAction::Finish(dir))
        } else {
            (RepoPhase::Locating, RepoAction::Locate { dir, pkg: self.request.base_pkg_name.clone() })
        }
    }

    /// Takes the event that answers the last action and gives the next
    /// action. `remotes` are the shared clones updated in this run: a clone
    /// or pull that succeeds adds the directory, and a clone already
    /// updated is not pulled again.
    pub fn step(&mut self, remotes: &mut UpdatedRemotes, event: RepoEvent) -> (a: RepoAction)
        requires
            event_fits(old(self).phase, event),
        ensures
            final(self).request == old(self).request,
            step_ok(
                old(self).request,
                old(self).phase,
                remote_set(old(remotes).dirs@),
                event,
                final(self).phase,
                a,
                remote_set(final(remotes).dirs@),
            ),
            old(self).request.clean && old(self).phase == (RepoPhase::Probing { cleaned: false })
                && (event matches RepoEvent::Probed { exists, git_exists } && exists)
                ==> final(self).phase == RepoPhase::Cleaning && (a matches RepoAction::Remove(d) && d@ == repo_dir_of(old(self).request)),
            !old(self).request.clean ==> !(a is Remove) || old(self).phase is Acknowledged,
    {
        let dir = self.request.repo_dir();
        match self.phase {
            RepoPhase::Start => {
                self.phase = RepoPhase::Probing { cleaned: false };
                RepoAction::Probe(dir)
            },
            RepoPhase::Probing { cleaned } => {
                match event {
                    RepoEvent::Probed { exists, git_exists } => {
                        if self.request.clean && exists && !cleaned {
                            self.phase = RepoPhase::Cleaning;
                            RepoAction::Remove(dir)
                        } else {
                            let (p, a) = self.probe_step(exists, git_exists, remotes);
                            self.phase = p;
                            a
                        }
                    },
                    _ => { RepoAction::Fail(RepoFailure::ReadFailed) },
                }
            },
            RepoPhase::Cleaning => {
                match event {
                    RepoEvent::Succeeded => {
                        self.phase = RepoPhase::Probing { cleaned: true };
                        RepoAction::Probe(dir)
                    },
                    RepoEvent::Failed(err) => {
                        self.phase = RepoPhase::Over;
                        RepoAction::Fail(RepoFailure::CleanFailed(err))
                    },
                    _ => { RepoAction::Fail(RepoFailure::ReadFailed) },
                }
            },
            RepoPhase::Cloning { .. } | RepoPhase::Pulling => {
                let pulling = self.phase == RepoPhase::Pulling;
                match event {
                    RepoEvent::Succeeded => {
                        shared_repo_remote_note_updated(remotes, dir.as_str());
                        let (p, a) = self.updated_step();
                        self.phase = p;
                        a
                    },
                    RepoEvent::Failed(err) => {
                        if !pulling {
                            self.phase = RepoPhase::Over;
                            RepoAction::Fail(RepoFailure::CloneFailed { url: self.request.clone_url(), error: err })
                        } else if str_eq(self.request.repo_name.as_str(), "arch") {
                            self.phase = RepoPhase::PullReported;
                            RepoAction::WarnPullFailed { name: self.request.base_pkg_name.clone(), error: err }
                        } else {
                            self.phase = RepoPhase::Asking;
                            RepoAction::AskAfterFailedPull(dir)
                        }
                    },
                    _ => { RepoAction::Fail(RepoFailure::ReadFailed) },
                }
            },
            RepoPhase::PullReported => {
                self.phase = RepoPhase::Over;
                RepoAction::Finish(dir)
            },
            RepoPhase::Asking => {
                match event {
                    RepoEvent::Answer(text) => {
                        let c = update_choice(text.as_str());
                        if c == UpdateChoice::Abort {
                            self.phase = RepoPhase::Over;
                            RepoAction::Fail(RepoFailure::Aborted)
                        } else {
                            self.phase = RepoPhase::Acknowledged { choice: c };
                            RepoAction::Acknowledge(c)
                        }
                    },
                    _ => {
                        self.phase = RepoPhase::Over;
                        RepoAction::Fail(RepoFailure::ReadFailed)
                    },
                }
            },
            RepoPhase::Acknowledged { choice } => {
                if choice == UpdateChoice::Reclone {
                    self.phase = RepoPhase::Deleting;
                    RepoAction::Remove(dir)
                } else {
                    self.phase = RepoPhase::Pulling;
                    RepoAction::Pull(dir)
                }
            },
            RepoPhase::Deleting => {
                match event {
                    RepoEvent::Succeeded => {
                        self.phase = RepoPhase::Cloning { again: true };
                        RepoAction::Clone { url: self.request.clone_url(), dir, quiet: false }
                    },
                    RepoEvent::Failed(err) => {
                        self.phase = RepoPhase::Over;
                        RepoAction::Fail(RepoFailure::CleanFailed(err))
                    },
                    _ => { RepoAction::Fail(RepoFailure::ReadFailed) },
                }
            },
            RepoPhase::Locating => {
                self.phase = RepoPhase::Over;
                match event {
                    RepoEvent::Located(Some(path)) => RepoAction::Finish(path),
                    _ => RepoAction::Fail(RepoFailure::NotFound {
                        pkg_name: self.request.pkg_name.clone(),
                        repo_name: self.request.repo_name.clone(),
                    }),
                }
            },
            RepoPhase::Over => { RepoAction::Fail(RepoFailure::ReadFailed) },
        }
    }
}

} // verus!

verus! {

/// A clone already brought up to date in this run is not pulled again, and
/// after a clone or pull succeeds the clone counts as up to date.
pub proof fn law_one_pull_per_run(
    r: RepoRequest,
    exists: bool,
    git_exists: bool,
    a: RepoAction,
    p: RepoPhase,
    phase: RepoPhase,
    before: Set<Seq<char>>,
    e: RepoEvent,
    after: Set<Seq<char>>,
)
    ensures
        after_probe(r, exists, git_exists, true, a, p) ==> !(a is Pull),
        step_ok(r, phase, before, e, p, a, after) && (phase == RepoPhase::Pulling || phase is Cloning) && e is Succeeded
            ==> after.contains(repo_dir_of(r)),
        step_ok(r, phase, before, e, p, a, after) ==> before.subset_of(after),
{
}

} // verus!

verus! {

/// The same request with `force_update` off.
pub open spec fn without_force(r: RepoRequest) -> RepoRequest {
    RepoRequest { force_update: false, ..r }
}

/// The phases, remote sets, events and actions of a run of `prepare_repo`:
/// each step is one that `RepoPrep::step` takes.
pub open spec fn run_ok(
    r: RepoRequest,
    phases: Seq<RepoPhase>,
    sets: Seq<Set<Seq<char>>>,
    events: Seq<RepoEvent>,
    actions: Seq<RepoAction>,
) -> bool {
    &&& phases.len() == events.len() + 1
    &&& sets.len() == events.len() + 1
    &&& actions.len() == events.len()
    &&& forall|i: int| 0 <= i < events.len() ==> #[trigger] step_ok(r, phases[i], sets[i], events[i], phases[i + 1], actions[i], sets[i + 1])
}

/// One step for a clone already brought up to date in this run is the same
/// with and without `force_update`.
pub proof fn law_updated_step_as_unforced(
    r: RepoRequest,
    phase: RepoPhase,
    before: Set<Seq<char>>,
    e: RepoEvent,
    p: RepoPhase,
    a: RepoAction,
    after: Set<Seq<char>>,
)
    requires
        before.contains(repo_dir_of(r)),
    ensures
        step_ok(r, phase, before, e, p, a, after) == step_ok(without_force(r), phase, before, e, p, a, after),
{
    let r2 = without_force(r);
    assert(is_arch(r2) == is_arch(r));
    assert(repo_dir_of(r2) == repo_dir_of(r));
    assert(clone_url_of(r2) == clone_url_of(r));
}

proof fn lemma_run_keeps_dir(
    r: RepoRequest,
    phases: Seq<RepoPhase>,
    sets: Seq<Set<Seq<char>>>,
    events: Seq<RepoEvent>,
    actions: Seq<RepoAction>,
    i: int,
)
    requires
        run_ok(r, phases, sets, events, actions),
        sets[0].contains(repo_dir_of(r)),
        0 <= i < sets.len(),
    ensures
        sets[i].contains(repo_dir_of(r)),
    decreases i,
{
    if i > 0 {
        lemma_run_keeps_dir(r, phases, sets, events, actions, i - 1);
        let j = i - 1;
        assert(step_ok(r, phases[j], sets[j], events[j], phases[j + 1], actions[j], sets[j + 1]));
        law_one_pull_per_run(r, false, false, actions[j], phases[j + 1], phases[j], sets[j], events[j], sets[j + 1]);
        assert(j + 1 == i);
    }
}

/// A forced call for a clone that an earlier call of this run already
/// cloned or pulled goes exactly as the call without force: every step, and
/// so the result, is the same, and no pull is asked for.
pub proof fn law_updated_run_as_unforced(
    r: RepoRequest,
    phases: Seq<RepoPhase>,
    sets: Seq<Set<Seq<char>>>,
    events: Seq<RepoEvent>,
    actions: Seq<RepoAction>,
)
    requires
        run_ok(r, phases, sets, events, actions),
        sets[0].contains(repo_dir_of(r)),
    ensures
        run_ok(without_force(r), phases, sets, events, actions),
{
    assert forall|i: int| 0 <= i < events.len() implies #[trigger] step_ok(without_force(r), phases[i], sets[i], events[i], phases[i + 1], actions[i], sets[i + 1]) by {
        lemma_run_keeps_dir(r, phases, sets, events, actions, i);
        assert(step_ok(r, phases[i], sets[i], events[i], phases[i + 1], actions[i], sets[i + 1]));
        law_updated_step_as_unforced(r, phases[i], sets[i], events[i], phases[i + 1], actions[i], sets[i + 1]);
    }
}

} // verus!

verus! {

/// With `-c`, the first probe that finds the clone's directory leads to its
/// removal, for the Arch repository as for any other; without `-c` the
/// clone is never removed at a probe.
pub proof fn law_clean_removes_clone(
    r: RepoRequest,
    before: Set<Seq<char>>,
    git_exists: bool,
    cleaned: bool,
    exists: bool,
    p: RepoPhase,
    a: RepoAction,
    after: Set<Seq<char>>,
)
    ensures
        r.clean && step_ok(r, RepoPhase::Probing { cleaned: false }, before, RepoEvent::Probed { exists: true, git_exists }, p, a, after)
            ==> p == RepoPhase::Cleaning && (a matches RepoAction::Remove(d) && d@ == repo_dir_of(r)),
        !r.clean && step_ok(r, RepoPhase::Probing { cleaned }, before, RepoEvent::Probed { exists, git_exists }, p, a, after)
            ==> !(a is Remove),
{
}

} // verus!
