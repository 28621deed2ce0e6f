use abs::deps::auto_include_local_dependencies;
use abs::install::{
    choose_candidate_files, confirmed_files, dependency_names_from_pkginfo,
    install_artifacts, install_from_ready_dir, package_name_from_query, packagelist_entry,
    packagelist_lookup_order, pacman_install_args, parse_install_confirmation, parse_selection,
    positions_of, prompt_kind, select_pkgdest_artifacts, selected_files, unskipped_artifacts, ArtifactPlace, CandidateStep, InstallOutcome, PkgdestEntry, PromptKind,
    SelectionReply,
};
use abs::paths::sort_dedup_paths;

fn s(v: &[&str]) -> Vec<String> {
    v.iter().map(|x| x.to_string()).collect()
}

#[test]
fn selection_empty_means_all() {
    assert_eq!(parse_selection("  \n", 3), SelectionReply::All);
}

#[test]
fn selection_n_means_skip() {
    assert_eq!(parse_selection(" n\n", 3), SelectionReply::Skip);
    assert_eq!(parse_selection("N", 3), SelectionReply::Skip);
}

#[test]
fn selection_numbers_and_ranges() {
    assert_eq!(parse_selection("1,3", 3), SelectionReply::Picked(vec![0, 2]));
    assert_eq!(parse_selection("1-3", 3), SelectionReply::Picked(vec![0, 1, 2]));
    assert_eq!(parse_selection("2 - 3 , 1", 3), SelectionReply::Picked(vec![1, 2, 0]));
    assert_eq!(parse_selection("1,,2", 3), SelectionReply::Picked(vec![0, 1]));
    assert_eq!(parse_selection("2-9", 3), SelectionReply::Picked(vec![1, 2]));
}

#[test]
fn selection_invalid_answers() {
    assert_eq!(parse_selection("0", 3), SelectionReply::Invalid);
    assert_eq!(parse_selection("x", 3), SelectionReply::Invalid);
    assert_eq!(parse_selection("3-1", 3), SelectionReply::Invalid);
    assert_eq!(parse_selection("7", 3), SelectionReply::Invalid);
    assert_eq!(parse_selection("1-", 3), SelectionReply::Invalid);
}

#[test]
fn confirmation_answers() {
    assert_eq!(parse_install_confirmation("\n"), Some(true));
    assert_eq!(parse_install_confirmation(" YES "), Some(true));
    assert_eq!(parse_install_confirmation("y"), Some(true));
    assert_eq!(parse_install_confirmation("No"), Some(false));
    assert_eq!(parse_install_confirmation("maybe"), None);
}

#[test]
fn prompt_kinds() {
    assert_eq!(prompt_kind(0), PromptKind::NoPrompt);
    assert_eq!(prompt_kind(1), PromptKind::Confirm);
    assert_eq!(prompt_kind(4), PromptKind::Choose);
}

#[test]
fn files_from_answers() {
    let files = s(&["/d/b.pkg", "/d/a.pkg", "/d/c.pkg"]);
    assert_eq!(selected_files(&files, SelectionReply::All), Some(files.clone()));
    assert_eq!(selected_files(&files, SelectionReply::Skip), Some(vec![]));
    // the chosen paths come out sorted and without repeats
    assert_eq!(
        selected_files(&files, SelectionReply::Picked(vec![2, 0, 1, 0])),
        Some(s(&["/d/a.pkg", "/d/b.pkg", "/d/c.pkg"]))
    );
    assert_eq!(selected_files(&files, SelectionReply::Picked(vec![0, 1])), Some(s(&["/d/a.pkg", "/d/b.pkg"])));
    assert_eq!(selected_files(&files, SelectionReply::Invalid), None);
    let one = s(&["/d/x.pkg"]);
    assert_eq!(confirmed_files(&one, Some(true)), Some(one.clone()));
    assert_eq!(confirmed_files(&one, Some(false)), Some(vec![]));
    assert_eq!(confirmed_files(&one, None), None);
    assert_eq!(positions_of(&files, &s(&["/d/a.pkg", "/d/c.pkg"])), vec![1, 2]);
}

#[test]
fn query_output_gives_package_name() {
    assert_eq!(package_name_from_query("foo-bin 1.0-1\n"), Some("foo-bin".to_string()));
    assert_eq!(package_name_from_query("  \n"), None);
}

#[test]
fn pkginfo_dependencies() {
    let text = "pkgname = foo\n depend = glibc>=2.3\ndepend = bash\ndepend = lib32-zlib=1.2\nmakedepend = cmake\n";
    assert_eq!(dependency_names_from_pkginfo(text), s(&["glibc", "bash", "lib32-zlib"]));
}

#[test]
fn packagelist_lines() {
    assert_eq!(packagelist_entry("./foo-1-1-x86_64.pkg.tar.zst\n"), Some("foo-1-1-x86_64.pkg.tar.zst".to_string()));
    assert_eq!(packagelist_entry("   "), None);
    assert_eq!(packagelist_lookup_order("/abs/foo.pkg.tar.zst").len(), 4);
    assert_eq!(
        packagelist_lookup_order("foo.pkg.tar.zst"),
        vec![ArtifactPlace::UnderPkgdest, ArtifactPlace::UnderRepo, ArtifactPlace::AsListed]
    );
}

fn entry(path: &str, name: &str, is_file: bool) -> PkgdestEntry {
    PkgdestEntry { path: path.to_string(), name: Some(name.to_string()), is_file }
}

#[test]
fn pkgdest_artifacts_of_package() {
    let entries = vec![
        entry("/d/foo-2-1-x86_64.pkg.tar.zst", "foo-2-1-x86_64.pkg.tar.zst", true),
        entry("/d/foo-1-1-x86_64.pkg.tar.zst", "foo-1-1-x86_64.pkg.tar.zst", true),
        entry("/d/foobar-1-1-x86_64.pkg.tar.zst", "foobar-1-1-x86_64.pkg.tar.zst", true),
        entry("/d/foo-1-1-x86_64.pkg.tar.zst.sig", "foo-1-1-x86_64.pkg.tar.zst.sig", true),
        entry("/d/foo-dir.pkg.tar.zst", "foo-dir.pkg.tar.zst", false),
        entry("/d/lib-foo-1-1.pkg.tar.zst", "lib-foo-1-1.pkg.tar.zst", true),
    ];
    assert_eq!(
        select_pkgdest_artifacts(&entries, "foo", "foo"),
        s(&["/d/foo-1-1-x86_64.pkg.tar.zst", "/d/foo-2-1-x86_64.pkg.tar.zst"])
    );
    assert_eq!(
        select_pkgdest_artifacts(&entries, "foo", "lib"),
        s(&["/d/foo-1-1-x86_64.pkg.tar.zst", "/d/foo-2-1-x86_64.pkg.tar.zst", "/d/lib-foo-1-1.pkg.tar.zst"])
    );
}

#[test]
fn candidate_choice() {
    assert!(matches!(choose_candidate_files(s(&["a"]), Some(s(&["b"]))), CandidateStep::Use(v) if v == s(&["a"])));
    assert!(matches!(choose_candidate_files(vec![], Some(s(&["c", "b", "c"]))), CandidateStep::Use(v) if v == s(&["b", "c"])));
    assert!(matches!(choose_candidate_files(vec![], Some(vec![])), CandidateStep::ScanPkgdestAgain));
    assert!(matches!(choose_candidate_files(vec![], None), CandidateStep::ScanPkgdestAgain));
}

#[test]
fn sort_dedup_like_pathbuf() {
    assert_eq!(sort_dedup_paths(&s(&["/b", "/a", "/a/", "/a"])), s(&["/a", "/b"]));
    assert_eq!(sort_dedup_paths(&s(&["/a/b", "/a-b", "/a"])), s(&["/a", "/a/b", "/a-b"]));
}

#[test]
fn skipped_artifacts_are_not_offered() {
    let names = vec![Some("foo".to_string()), None, Some("foo-debug".to_string())];
    assert_eq!(unskipped_artifacts(&names, &s(&["foo-debug"])), vec![0, 1]);
    assert_eq!(unskipped_artifacts(&names, &vec![]), vec![0, 1, 2]);
}

#[test]
fn install_args() {
    assert_eq!(pacman_install_args(&s(&["/a", "/b"])), s(&["pacman", "-U", "--noconfirm", "/a", "/b"]));
}

#[test]
fn dependencies_are_pulled_in() {
    let names = vec![Some("app".to_string()), Some("lib".to_string()), Some("base".to_string()), Some("other".to_string())];
    let deps = vec![s(&["lib", "glibc"]), s(&["base"]), vec![], vec![]];
    let mut selected = vec![0];
    auto_include_local_dependencies(&mut selected, &names, &deps);
    assert_eq!(selected, vec![0, 1, 2]);
}

#[test]
fn install_nothing_found() {
    assert!(matches!(install_artifacts(&vec![], &vec![], &vec![], &vec![], None), InstallOutcome::NothingFound));
}

#[test]
fn install_everything_skipped() {
    let files = s(&["/d/foo-debug.pkg.tar.zst"]);
    let names = vec![Some("foo-debug".to_string())];
    let out = install_artifacts(&files, &names, &vec![vec![]], &s(&["foo-debug"]), Some(vec![0]));
    assert!(matches!(out, InstallOutcome::Skipped));
}

#[test]
fn install_unread_and_declined() {
    let files = s(&["/d/foo.pkg.tar.zst"]);
    let names = vec![Some("foo".to_string())];
    assert!(matches!(install_artifacts(&files, &names, &vec![vec![]], &vec![], None), InstallOutcome::AnswerUnread));
    assert!(matches!(install_artifacts(&files, &names, &vec![vec![]], &vec![], Some(vec![])), InstallOutcome::Skipped));
}

#[test]
fn install_chosen_with_dependencies() {
    let files = s(&["/d/app.pkg.tar.zst", "/d/dbg.pkg.tar.zst", "/d/lib.pkg.tar.zst"]);
    let names = vec![Some("app".to_string()), Some("app-debug".to_string()), Some("lib".to_string())];
    let deps = vec![s(&["lib"]), vec![], vec![]];
    // the debug artifact is skipped, so the offered ones are app and lib
    let out = install_artifacts(&files, &names, &deps, &s(&["app-debug"]), Some(vec![0]));
    match out {
        InstallOutcome::Install(args) => {
            assert_eq!(args, s(&["pacman", "-U", "--noconfirm", "/d/app.pkg.tar.zst", "/d/lib.pkg.tar.zst"]))
        }
        other => panic!("unexpected {:?}", other),
    }
    let again = install_from_ready_dir(&files, &names, &deps, &s(&["app-debug"]), Some(vec![1]));
    match again {
        InstallOutcome::Install(args) => assert_eq!(args, s(&["pacman", "-U", "--noconfirm", "/d/lib.pkg.tar.zst"])),
        other => panic!("unexpected {:?}", other),
    }
}

#[test]
fn each_dependency_added_once() {
    let names = vec![Some("app".to_string()), Some("lib".to_string()), Some("lib".to_string()), Some("x".to_string())];
    let deps = vec![s(&["lib", "x"]), s(&["x"]), s(&["x"]), vec![]];
    let mut selected = vec![0];
    auto_include_local_dependencies(&mut selected, &names, &deps);
    // the later artifact named `lib` provides it; `x` is added once
    assert_eq!(selected, vec![0, 2, 3]);
}
