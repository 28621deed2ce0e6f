use vstd::prelude::*;
use crate::text::{str_chars, str_eq, str_to_lowercase, unicode_lowercase};

verus! {

broadcast use vstd::string::group_string_axioms;

// ---------------------------------------------------------------------------
// Finding a package's directory
// ---------------------------------------------------------------------------

/// A directory that holds a PKGBUILD.
#[derive(Debug)]
pub struct PkgbuildDir {
    pub path: String,
    /// The directory's own name, where it is valid Unicode.
    pub name: Option<String>,
}

/// `needle` occurs in `hay`.
pub open spec fn contains_seq(hay: Seq<char>, needle: Seq<char>) -> bool {
    exists|i: int| 0 <= i <= hay.len() - needle.len() && #[trigger] hay.subrange(i, i + needle.len()) == needle
}

/// The directory is named exactly `pkg`.
pub open spec fn exact_match(d: PkgbuildDir, pkg: Seq<char>) -> bool {
    d.name matches Some(n) && n@ == pkg
}

/// The directory's lower-cased name contains the lower-cased `pkg`.
pub open spec fn loose_match(d: PkgbuildDir, pkg: Seq<char>) -> bool {
    d.name matches Some(n) && contains_seq(unicode_lowercase(n@), unicode_lowercase(pkg))
}

/// Entry `i` is the one picked for `pkg`: the first exact match, or, when
/// there is none, the first loose match.
pub open spec fn picked_at(dirs: Seq<PkgbuildDir>, pkg: Seq<char>, i: int) -> bool {
    &&& 0 <= i < dirs.len()
    &&& {
        ||| (exact_match(dirs[i], pkg) && forall|j: int| 0 <= j < i ==> !exact_match(#[trigger] dirs[j], pkg))
        ||| ((forall|j: int| 0 <= j < dirs.len() ==> !exact_match(#[trigger] dirs[j], pkg))
            && loose_match(dirs[i], pkg) && forall|j: int| 0 <= j < i ==> !loose_match(#[trigger] dirs[j], pkg))
    }
}

/// What the search in a list of directories gives for `pkg`: the path of the
/// picked entry, or nothing when no entry matches at all.
pub open spec fn lookup_result(dirs: Seq<PkgbuildDir>, pkg: Seq<char>, r: Option<String>) -> bool {
    match r {
        Some(p) => exists|i: int| picked_at(dirs, pkg, i) && p@ == dirs[i].path@,
        None => forall|j: int| 0 <= j < dirs.len() ==> !exact_match(#[trigger] dirs[j], pkg) && !loose_match(dirs[j], pkg),
    }
}

/// Whether `needle` occurs in `hay`.
fn contains_chars(hay: &Vec<char>, needle: &Vec<char>) -> (r: bool)
    ensures
        r == contains_seq(hay@, needle@),
{
    if needle.len() > hay.len() {
        assert(!contains_seq(hay@, needle@));
        return false;
    }
    let last = hay.len() - needle.len();
    let mut i: usize = 0;
    while i <= last
        invariant
            last == hay.len() - needle.len(),
            i <= last + 1,
            forall|k: int| 0 <= k < i ==> #[trigger] hay@.subrange(k, k + needle.len()) != needle@,
        decreases last + 1 - i,
    {
        let mut j: usize = 0;
        while j < needle.len() && hay[i + j] == needle[j]
            invariant
                i <= last,
                last == hay.len() - needle.len(),
                j <= needle.len(),
                forall|t: int| 0 <= t < j ==> hay@[i + t] == needle@[t],
            decreases needle.len() - j,
        {
            j = j + 1;
        }
        if j == needle.len() {
            assert(hay@.subrange(i as int, i + needle.len()) =~= needle@);
            return true;
        }
        assert(hay@.subrange(i as int, i + needle.len())[j as int] != needle@[j as int]);
        i = i + 1;
    }
    false
}

fn is_exact(d: &PkgbuildDir, pkg: &str) -> (r: bool)
    ensures
        r == exact_match(*d, pkg@),
{
    match &d.name {
        Some(n) => str_eq(n.as_str(), pkg),
        None => false,
    }
}

fn is_loose(d: &PkgbuildDir, pkg_lower: &Vec<char>, Ghost(pkg): Ghost<Seq<char>>) -> (r: bool)
    requires
        pkg_lower@ == unicode_lowercase(pkg),
    ensures
        r == loose_match(*d, pkg),
{
    match &d.name {
        Some(n) => {
            let lower = str_to_lowercase(n.as_str());
            contains_chars(&str_chars(lower.as_str()), pkg_lower)
        },
        None => false,
    }
}

/// The directory of package `pkg_name` among `dirs`: the first one named
/// exactly so, else the first whose name contains it, both lower-cased.
pub fn find_pkg_dir_in_list(dirs: &Vec<PkgbuildDir>, pkg_name: &str) -> (r: Option<String>)
    ensures
        lookup_result(dirs@, pkg_name@, r),
{
    let mut i: usize = 0;
    while i < dirs.len()
        invariant
            i <= dirs.len(),
            forall|j: int| 0 <= j < i ==> !exact_match(#[trigger] dirs@[j], pkg_name@),
        decreases dirs.len() - i,
    {
        if is_exact(&dirs[i], pkg_name) {
            let p = dirs[i].path.clone();
            assert(picked_at(dirs@, pkg_name@, i as int));
            return Some(p);
        }
        i = i + 1;
    }
    let lower = str_to_lowercase(pkg_name);
    let pkg_lower = str_chars(lower.as_str());
    let mut k: usize = 0;
    while k < dirs.len()
        invariant
            k <= dirs.len(),
            pkg_lower@ == unicode_lowercase(pkg_name@),
            forall|j: int| 0 <= j < dirs.len() ==> !exact_match(#[trigger] dirs@[j], pkg_name@),
            forall|j: int| 0 <= j < k ==> !loose_match(#[trigger] dirs@[j], pkg_name@),
        decreases dirs.len() - k,
    {
        if is_loose(&dirs[k], &pkg_lower, Ghost(pkg_name@)) {
            let p = dirs[k].path.clone();
            assert(picked_at(dirs@, pkg_name@, k as int));
            return Some(p);
        }
        k = k + 1;
    }
    None
}

// ---------------------------------------------------------------------------
// The per-repository cache of PKGBUILD directories
// ---------------------------------------------------------------------------

/// The PKGBUILD directories found under each scanned repository root, so
/// that a large tree is scanned once per run. Each root is held once.
pub struct PkgbuildDirCache {
    pub roots: Vec<(String, Vec<PkgbuildDir>)>,
}

pub open spec fn root_names(c: Seq<(String, Vec<PkgbuildDir>)>) -> Seq<Seq<char>> {
    c.map_values(|e: (String, Vec<PkgbuildDir>)| e.0@)
}

/// The directories recorded for `root`.
pub open spec fn cached_dirs(c: Seq<(String, Vec<PkgbuildDir>)>, root: Seq<char>) -> Option<Seq<PkgbuildDir>>
    decreases c.len(),
{
    if c.len() == 0 {
        None
    } else if c.last().0@ == root {
        Some(c.last().1@)
    } else {
        cached_dirs(c.drop_last(), root)
    }
}

/// The cache after a scan of `root` found `dirs`: a root already recorded
/// keeps what it had.
pub open spec fn with_scan(c: Seq<(String, Vec<PkgbuildDir>)>, root: String, dirs: Vec<PkgbuildDir>) -> Seq<(String, Vec<PkgbuildDir>)> {
    if cached_dirs(c, root@) is Some {
        c
    } else {
        c.push((root, dirs))
    }
}

impl PkgbuildDirCache {
    pub open spec fn wf(&self) -> bool {
        forall|i: int, j: int| 0 <= i < j < self.roots.len() ==> root_names(self.roots@)[i] != root_names(self.roots@)[j]
    }

    pub fn new() -> (r: PkgbuildDirCache)
        ensures
            r.wf(),
            r.roots@.len() == 0,
    {
        PkgbuildDirCache { roots: Vec::new() }
    }

    fn position(&self, root: &str) -> (r: Option<usize>)
        ensures
            match r {
                Some(k) => k < self.roots.len() && self.roots@[k as int].0@ == root@
                    && cached_dirs(self.roots@, root@) == Some(self.roots@[k as int].1@),
                None => cached_dirs(self.roots@, root@) is None,
            },
    {
        let ghost c = self.roots@;
        let mut i: usize = self.roots.len();
        assert(c.take(c.len() as int) =~= c);
        while i > 0
            invariant
                i <= self.roots.len(),
                c == self.roots@,
                cached_dirs(c, root@) == cached_dirs(c.take(i as int), root@),
            decreases i,
        {
            assert(c.take(i as int).drop_last() =~= c.take(i - 1));
            assert(c.take(i as int).last() == c[i - 1]);
            if str_eq(self.roots[i - 1].0.as_str(), root) {
                return Some(i - 1);
            }
            i = i - 1;
        }
        assert(c.take(0) =~= Seq::<(String, Vec<PkgbuildDir>)>::empty());
        None
    }

    /// Whether `root` has been scanned.
    pub fn has_root(&self, root: &str) -> (r: bool)
        ensures
            r == (cached_dirs(self.roots@, root@) is Some),
    {
        self.position(root).is_some()
    }

    /// Records what a scan of `root` found; a root scanned before keeps
    /// its first result.
    pub fn record_scan(&mut self, root: String, dirs: Vec<PkgbuildDir>)
        requires
            old(self).wf(),
        ensures
            final(self).wf(),
            final(self).roots@ == with_scan(old(self).roots@, root, dirs),
    {
        if self.position(root.as_str()).is_none() {
            proof { lemma_absent_root(self.roots@, root@); }
            let ghost before = self.roots@;
            self.roots.push((root, dirs));
            assert(root_names(self.roots@) =~= root_names(before).push(root@));
        }
    }
}

proof fn lemma_absent_root(c: Seq<(String, Vec<PkgbuildDir>)>, root: Seq<char>)
    requires
        cached_dirs(c, root) is None,
    ensures
        forall|i: int| 0 <= i < c.len() ==> root_names(c)[i] != root,
    decreases c.len(),
{
    if c.len() > 0 {
        lemma_absent_root(c.drop_last(), root);
        assert forall|i: int| 0 <= i < c.len() implies root_names(c)[i] != root by {
            if i < c.len() - 1 {
                assert(root_names(c)[i] == root_names(c.drop_last())[i]);
            }
        }
    }
}

/// The answer of a cached search.
#[derive(Debug)]
pub enum CachedLookup {
    /// The root was scanned before; this is what the search gives.
    Found(Option<String>),
    /// The root has not been scanned yet: scan it, record the result with
    /// `record_scan`, and search again.
    ScanNeeded,
}

/// Searches the cached PKGBUILD directories of `repo_dir` for `pkg_name`.
pub fn find_pkg_dir_cached(repo_dir: &str, pkg_name: &str, cache: &PkgbuildDirCache) -> (r: CachedLookup)
    ensures
        match cached_dirs(cache.roots@, repo_dir@) {
            Some(dirs) => r matches CachedLookup::Found(x) && lookup_result(dirs, pkg_name@, x),
            None => r is ScanNeeded,
        },
{
    match cache.position(repo_dir) {
        Some(k) => CachedLookup::Found(find_pkg_dir_in_list(&cache.roots[k].1, pkg_name)),
        None => CachedLookup::ScanNeeded,
    }
}

/// A search after a scan sees the scan's result, and a second scan of the
/// same root changes nothing: each root is scanned at most once.
pub proof fn law_scan_is_kept(c: Seq<(String, Vec<PkgbuildDir>)>, root: String, dirs: Vec<PkgbuildDir>, other: Vec<PkgbuildDir>)
    ensures
        cached_dirs(c, root@) is None ==> cached_dirs(with_scan(c, root, dirs), root@) == Some(dirs@),
        cached_dirs(c, root@) is Some ==> with_scan(c, root, dirs) == c,
        with_scan(with_scan(c, root, dirs), root, other) == with_scan(c, root, dirs),
        forall|r2: Seq<char>| r2 != root@ ==> cached_dirs(with_scan(c, root, dirs), r2) == #[trigger] cached_dirs(c, r2),
{
    let c2 = with_scan(c, root, dirs);
    if cached_dirs(c, root@) is None {
        assert(c2.drop_last() =~= c);
        assert(cached_dirs(c2, root@) == Some(dirs@));
    }
    assert forall|r2: Seq<char>| r2 != root@ implies cached_dirs(c2, r2) == #[trigger] cached_dirs(c, r2) by {
        if cached_dirs(c, root@) is None {
            assert(c2.drop_last() =~= c);
        }
    }
}

// ---------------------------------------------------------------------------
// Scanning a repository tree
// ---------------------------------------------------------------------------

/// What the scan does with a directory entry.
#[derive(Debug, Clone, Copy, PartialEq, Eq)]
pub enum ScanStep {
    /// Scan the subdirectory.
    Descend,
    /// Record the entry's parent directory: it holds a PKGBUILD.
    RecordParent,
    /// Pass over the entry.
    Pass,
}

pub open spec fn is_pruned_dir(name: Seq<char>) -> bool {
    name == ".git"@ || name == "pkg"@ || name == "src"@
}

/// The step for an entry of a scanned tree (the decision of
/// `collect_pkgbuild_dirs`): subdirectories are scanned but for `.git`,
/// `pkg` and `src`; a file named `PKGBUILD` marks its directory.
pub open spec fn scan_step_of(is_dir: bool, name: Option<Seq<char>>, has_parent: bool) -> ScanStep {
    if is_dir {
        match name {
            Some(n) => if is_pruned_dir(n) { ScanStep::Pass } else { ScanStep::Descend },
            None => ScanStep::Descend,
        }
    } else if name == Some("PKGBUILD"@) && has_parent {
        ScanStep::RecordParent
    } else {
        ScanStep::Pass
    }
}

pub fn scan_step(is_dir: bool, name: Option<&str>, has_parent: bool) -> (r: ScanStep)
    ensures
        r == scan_step_of(is_dir, match name { Some(n) => Some(n@), None => None }, has_parent),
{
    match name {
        Some(n) => {
            if is_dir {
                if str_eq(n, ".git") || str_eq(n, "pkg") || str_eq(n, "src") {
                    ScanStep::Pass
                } else {
                    ScanStep::Descend
                }
            } else if str_eq(n, "PKGBUILD") && has_parent {
                ScanStep::RecordParent
            } else {
                ScanStep::Pass
            }
        },
        None => if is_dir { ScanStep::Descend } else { ScanStep::Pass },
    }
}

// ---------------------------------------------------------------------------
// Remotes already brought up to date in this run
// ---------------------------------------------------------------------------

/// The shared clones whose remote was cloned or pulled in this run, so that
/// several packages of one repository cause one `git pull`.
pub struct UpdatedRemotes {
    pub dirs: Vec<String>,
}

pub open spec fn remote_set(u: Seq<String>) -> Set<Seq<char>> {
    Set::new(|x: Seq<char>| exists|j: int| 0 <= j < u.len() && (#[trigger] u[j])@ == x)
}

pub fn shared_repo_remote_cache() -> (r: UpdatedRemotes)
    ensures
        remote_set(r.dirs@) == Set::<Seq<char>>::empty(),
{
    let r = UpdatedRemotes { dirs: Vec::new() };
    assert(remote_set(r.dirs@) =~= Set::<Seq<char>>::empty());
    r
}

pub fn shared_repo_remote_already_updated(remotes: &UpdatedRemotes, repo_dir: &str) -> (r: bool)
    ensures
        r == remote_set(remotes.dirs@).contains(repo_dir@),
{
    let mut i: usize = 0;
    while i < remotes.dirs.len()
        invariant
            i <= remotes.dirs.len(),
            forall|j: int| 0 <= j < i ==> remotes.dirs@[j]@ != repo_dir@,
        decreases remotes.dirs.len() - i,
    {
        if str_eq(remotes.dirs[i].as_str(), repo_dir) {
            assert(remotes.dirs@[i as int]@ == repo_dir@);
            return true;
        }
        i = i + 1;
    }
    false
}

pub fn shared_repo_remote_note_updated(remotes: &mut UpdatedRemotes, repo_dir: &str)
    ensures
        remote_set(final(remotes).dirs@) == remote_set(old(remotes).dirs@).insert(repo_dir@),
{
    if !shared_repo_remote_already_updated(remotes, repo_dir) {
        let ghost before = remotes.dirs@;
        remotes.dirs.push(String::from_str(repo_dir));
        assert forall|x: Seq<char>| remote_set(remotes.dirs@).contains(x) == remote_set(before).insert(repo_dir@).contains(x) by {
            if remote_set(remotes.dirs@).contains(x) {
                let j = choose|j: int| 0 <= j < remotes.dirs@.len() && (#[trigger] remotes.dirs@[j])@ == x;
                if j < before.len() {
                    assert(before[j]@ == x);
                }
            }
            if remote_set(before).contains(x) {
                let j = choose|j: int| 0 <= j < before.len() && (#[trigger] before[j])@ == x;
                assert(remotes.dirs@[j] == before[j]);
            }
            if x == repo_dir@ {
                assert(remotes.dirs@[before.len() as int]@ == x);
            }
        }
        assert(remote_set(remotes.dirs@) =~= remote_set(before).insert(repo_dir@));
    } else {
        assert(remote_set(remotes.dirs@) =~= remote_set(remotes.dirs@).insert(repo_dir@));
    }
}

} // verus!
