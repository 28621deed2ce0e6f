use abs::git::{
    find_pkg_dir_cached, find_pkg_dir_in_list, scan_step, shared_repo_remote_already_updated,
    shared_repo_remote_cache, shared_repo_remote_note_updated, CachedLookup, PkgbuildDir,
    PkgbuildDirCache, ScanStep,
};
use abs::repo::{
    update_choice, RepoAction, RepoEvent, RepoFailure, RepoPrep, RepoRequest, UpdateChoice,
};

fn dir(path: &str, name: &str) -> PkgbuildDir {
    PkgbuildDir { path: path.to_string(), name: Some(name.to_string()) }
}

#[test]
fn exact_name_wins() {
    let dirs = vec![dir("/r/x/linux-zen", "linux-zen"), dir("/r/y/linux", "linux")];
    assert_eq!(find_pkg_dir_in_list(&dirs, "linux"), Some("/r/y/linux".to_string()));
}

#[test]
fn loose_match_ignores_case() {
    let dirs = vec![dir("/r/a", "other"), dir("/r/Mesa-Git", "Mesa-Git")];
    assert_eq!(find_pkg_dir_in_list(&dirs, "MESA"), Some("/r/Mesa-Git".to_string()));
    assert_eq!(find_pkg_dir_in_list(&dirs, "vulkan"), None);
    let unnamed = vec![PkgbuildDir { path: "/r/?".to_string(), name: None }];
    assert_eq!(find_pkg_dir_in_list(&unnamed, ""), None);
}

#[test]
fn cache_scans_each_root_once() {
    let mut cache = PkgbuildDirCache::new();
    assert!(matches!(find_pkg_dir_cached("/r", "linux", &cache), CachedLookup::ScanNeeded));
    cache.record_scan("/r".to_string(), vec![dir("/r/core/linux", "linux")]);
    assert!(cache.has_root("/r"));
    match find_pkg_dir_cached("/r", "linux", &cache) {
        CachedLookup::Found(p) => assert_eq!(p, Some("/r/core/linux".to_string())),
        CachedLookup::ScanNeeded => panic!("scanned root"),
    }
    cache.record_scan("/r".to_string(), vec![]);
    match find_pkg_dir_cached("/r", "linux", &cache) {
        CachedLookup::Found(p) => assert_eq!(p, Some("/r/core/linux".to_string())),
        CachedLookup::ScanNeeded => panic!("scanned root"),
    }
}

#[test]
fn scan_steps() {
    assert_eq!(scan_step(true, Some(".git"), true), ScanStep::Pass);
    assert_eq!(scan_step(true, Some("src"), true), ScanStep::Pass);
    assert_eq!(scan_step(true, Some("linux"), true), ScanStep::Descend);
    assert_eq!(scan_step(true, None, true), ScanStep::Descend);
    assert_eq!(scan_step(false, Some("PKGBUILD"), true), ScanStep::RecordParent);
    assert_eq!(scan_step(false, Some("PKGBUILD"), false), ScanStep::Pass);
    assert_eq!(scan_step(false, Some("README"), true), ScanStep::Pass);
}

#[test]
fn remotes_noted_once() {
    let mut r = shared_repo_remote_cache();
    assert!(!shared_repo_remote_already_updated(&r, "/p/cachyos"));
    shared_repo_remote_note_updated(&mut r, "/p/cachyos");
    shared_repo_remote_note_updated(&mut r, "/p/cachyos");
    assert!(shared_repo_remote_already_updated(&r, "/p/cachyos"));
    assert_eq!(r.dirs.len(), 1);
}

#[test]
fn choices() {
    assert_eq!(update_choice(" R\n"), UpdateChoice::Retry);
    assert_eq!(update_choice("d"), UpdateChoice::Reclone);
    assert_eq!(update_choice("A"), UpdateChoice::Abort);
    assert_eq!(update_choice("yes"), UpdateChoice::Invalid);
}

fn request(repo: &str, clean: bool, force: bool) -> RepoRequest {
    RepoRequest {
        pkg_name: "linux-tkg".to_string(),
        base_pkg_name: "linux".to_string(),
        repo_name: repo.to_string(),
        repo_url: "https://gitlab.archlinux.org/archlinux/packaging/packages//".to_string(),
        packages_path: "/srv/pkgs".to_string(),
        clean,
        force_update: force,
    }
}

#[test]
fn arch_fresh_clone() {
    let req = request("arch", false, false);
    assert_eq!(req.repo_dir(), "/srv/pkgs/arch/linux");
    assert_eq!(req.clone_url(), "https://gitlab.archlinux.org/archlinux/packaging/packages/linux.git");
    let mut prep = RepoPrep::new(req);
    let mut remotes = shared_repo_remote_cache();
    assert!(matches!(prep.step(&mut remotes, RepoEvent::Begin), RepoAction::Probe(d) if d == "/srv/pkgs/arch/linux"));
    let a = prep.step(&mut remotes, RepoEvent::Probed { exists: false, git_exists: false });
    assert!(matches!(a, RepoAction::Clone { ref url, quiet: true, .. } if url.ends_with("/packages/linux.git")));
    assert!(matches!(prep.step(&mut remotes, RepoEvent::Succeeded), RepoAction::Finish(d) if d == "/srv/pkgs/arch/linux"));
    assert!(shared_repo_remote_already_updated(&remotes, "/srv/pkgs/arch/linux"));
}

#[test]
fn arch_failed_pull_is_a_warning() {
    let mut prep = RepoPrep::new(request("arch", false, true));
    let mut remotes = shared_repo_remote_cache();
    prep.step(&mut remotes, RepoEvent::Begin);
    assert!(matches!(prep.step(&mut remotes, RepoEvent::Probed { exists: true, git_exists: true }), RepoAction::Pull(_)));
    let a = prep.step(&mut remotes, RepoEvent::Failed("offline".to_string()));
    assert!(matches!(a, RepoAction::WarnPullFailed { ref name, ref error } if name == "linux" && error == "offline"));
    assert!(matches!(prep.step(&mut remotes, RepoEvent::Continue), RepoAction::Finish(_)));
}

#[test]
fn shared_clone_pulled_once_per_run() {
    let mut remotes = shared_repo_remote_cache();
    let mut first = RepoPrep::new(request("cachyos", false, true));
    first.step(&mut remotes, RepoEvent::Begin);
    assert!(matches!(first.step(&mut remotes, RepoEvent::Probed { exists: true, git_exists: true }), RepoAction::Pull(_)));
    assert!(matches!(first.step(&mut remotes, RepoEvent::Succeeded), RepoAction::Locate { ref pkg, .. } if pkg == "linux"));
    assert!(matches!(first.step(&mut remotes, RepoEvent::Located(Some("/srv/pkgs/cachyos/linux".to_string()))), RepoAction::Finish(p) if p == "/srv/pkgs/cachyos/linux"));
    let mut second = RepoPrep::new(request("cachyos", false, true));
    second.step(&mut remotes, RepoEvent::Begin);
    assert!(matches!(second.step(&mut remotes, RepoEvent::Probed { exists: true, git_exists: true }), RepoAction::Locate { .. }));
}

#[test]
fn failed_pull_asks_and_reclones() {
    let mut remotes = shared_repo_remote_cache();
    let mut prep = RepoPrep::new(request("cachyos", false, true));
    prep.step(&mut remotes, RepoEvent::Begin);
    prep.step(&mut remotes, RepoEvent::Probed { exists: true, git_exists: true });
    assert!(matches!(prep.step(&mut remotes, RepoEvent::Failed("conflict".to_string())), RepoAction::AskAfterFailedPull(_)));
    assert!(matches!(prep.step(&mut remotes, RepoEvent::Answer("x\n".to_string())), RepoAction::Acknowledge(UpdateChoice::Invalid)));
    assert!(matches!(prep.step(&mut remotes, RepoEvent::Continue), RepoAction::Pull(_)));
    prep.step(&mut remotes, RepoEvent::Failed("conflict".to_string()));
    assert!(matches!(prep.step(&mut remotes, RepoEvent::Answer("d\n".to_string())), RepoAction::Acknowledge(UpdateChoice::Reclone)));
    assert!(matches!(prep.step(&mut remotes, RepoEvent::Continue), RepoAction::Remove(d) if d == "/srv/pkgs/cachyos"));
    let a = prep.step(&mut remotes, RepoEvent::Succeeded);
    assert!(matches!(a, RepoAction::Clone { quiet: false, ref dir, .. } if dir == "/srv/pkgs/cachyos"));
    assert!(matches!(prep.step(&mut remotes, RepoEvent::Succeeded), RepoAction::Locate { .. }));
    assert!(matches!(
        prep.step(&mut remotes, RepoEvent::Located(None)),
        RepoAction::Fail(RepoFailure::NotFound { ref pkg_name, ref repo_name }) if pkg_name == "linux-tkg" && repo_name == "cachyos"
    ));
}

#[test]
fn abort_and_clean() {
    let mut remotes = shared_repo_remote_cache();
    let mut prep = RepoPrep::new(request("cachyos", false, true));
    prep.step(&mut remotes, RepoEvent::Begin);
    prep.step(&mut remotes, RepoEvent::Probed { exists: true, git_exists: true });
    prep.step(&mut remotes, RepoEvent::Failed("conflict".to_string()));
    assert!(matches!(prep.step(&mut remotes, RepoEvent::Answer("a".to_string())), RepoAction::Fail(RepoFailure::Aborted)));

    let mut clean = RepoPrep::new(request("cachyos", true, false));
    clean.step(&mut remotes, RepoEvent::Begin);
    assert!(matches!(clean.step(&mut remotes, RepoEvent::Probed { exists: true, git_exists: true }), RepoAction::Remove(_)));
    assert!(matches!(clean.step(&mut remotes, RepoEvent::Succeeded), RepoAction::Probe(_)));
    let a = clean.step(&mut remotes, RepoEvent::Probed { exists: false, git_exists: false });
    assert!(matches!(a, RepoAction::Clone { ref url, .. } if url == "https://gitlab.archlinux.org/archlinux/packaging/packages//"));
    assert!(matches!(clean.step(&mut remotes, RepoEvent::Failed("denied".to_string())), RepoAction::Fail(RepoFailure::CloneFailed { .. })));
}

#[test]
fn absolute_repository_name() {
    let req = request("/srv/other", false, false);
    assert_eq!(req.repo_dir(), "/srv/other");
}
