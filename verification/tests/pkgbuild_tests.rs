use abs::pkgbuild::{
    backup_pkgbuild, bash_strip_pkgrel_value, bump_pkgrel_text, compute_next_pkgrel,
    extract_pkgrel_stripped, pkgbuild_files, replace_all_pkgrel_lines, restore_pkgbuild,
    update_pkgsums,
};

#[test]
fn strip_drops_quotes_and_whitespace() {
    assert_eq!(bash_strip_pkgrel_value(" '1 2'\t\"3\" "), "123");
    assert_eq!(bash_strip_pkgrel_value(""), "");
}

#[test]
fn extract_reads_first_pkgrel_line() {
    let text = "pkgname=foo\npkgver=1.0\npkgrel='3' # local\npkgrel=9\n";
    assert_eq!(extract_pkgrel_stripped(text), Some("3".to_string()));
}

#[test]
fn extract_needs_line_start() {
    assert_eq!(extract_pkgrel_stripped("  pkgrel=3\n"), None);
    assert_eq!(extract_pkgrel_stripped("pkgname=foo\n"), None);
}

#[test]
fn extract_empty_value_is_none() {
    assert_eq!(extract_pkgrel_stripped("pkgrel=  # nothing\n"), None);
}

#[test]
fn next_pkgrel_appends_two() {
    assert_eq!(compute_next_pkgrel("1"), Some("1.2".to_string()));
    assert_eq!(compute_next_pkgrel("2.1"), Some("2.1.2".to_string()));
}

#[test]
fn next_pkgrel_counts_on() {
    assert_eq!(compute_next_pkgrel("1.2"), Some("1.3".to_string()));
    assert_eq!(compute_next_pkgrel("1.9"), Some("1.10".to_string()));
    assert_eq!(compute_next_pkgrel("3.1.41"), Some("3.1.42".to_string()));
}

#[test]
fn next_pkgrel_overflow_is_none() {
    assert_eq!(compute_next_pkgrel("1.4294967295"), None);
}

#[test]
fn replace_rewrites_every_pkgrel_line() {
    let text = "pkgrel=1\nfoo=bar\npkgrel=7 # x\n";
    assert_eq!(replace_all_pkgrel_lines(text, "1.2"), "pkgrel=1.2\nfoo=bar\npkgrel=1.2\n");
}

#[test]
fn bump_from_upstream() {
    let upstream = "pkgname=foo\npkgrel=1\n";
    assert_eq!(bump_pkgrel_text(upstream, upstream), Some("pkgname=foo\npkgrel=1.2\n".to_string()));
    assert_eq!(bump_pkgrel_text(upstream, ""), Some("pkgname=foo\npkgrel=1.2\n".to_string()));
}

#[test]
fn bump_chains_after_interrupted_run() {
    let upstream = "pkgname=foo\npkgrel=1\n";
    let live = "pkgname=foo\npkgrel=1.2\n";
    assert_eq!(bump_pkgrel_text(live, upstream), Some("pkgname=foo\npkgrel=1.3\n".to_string()));
}

#[test]
fn bump_adds_missing_pkgrel() {
    assert_eq!(bump_pkgrel_text("pkgname=foo", ""), Some("pkgname=foo\npkgrel=1.2\n".to_string()));
    assert_eq!(bump_pkgrel_text("pkgname=foo\n", ""), Some("pkgname=foo\npkgrel=1.2\n".to_string()));
    assert_eq!(bump_pkgrel_text("", ""), Some("pkgrel=1.2\n".to_string()));
}

#[test]
fn bump_overflow_is_none() {
    assert_eq!(bump_pkgrel_text("pkgrel=1.4294967295\n", ""), None);
}

#[test]
fn backup_only_when_missing() {
    assert!(backup_pkgbuild(true, false));
    assert!(!backup_pkgbuild(true, true));
    assert!(!backup_pkgbuild(false, false));
    assert!(restore_pkgbuild(true));
    assert!(!restore_pkgbuild(false));
}

#[test]
fn pkgbuild_files_under_dir() {
    let (p, b) = pkgbuild_files("/src/foo");
    assert_eq!(p, "/src/foo/PKGBUILD");
    assert_eq!(b, "/src/foo/.PKGBUILD.emerge_backup");
    let (p2, _) = pkgbuild_files("/src/foo/");
    assert_eq!(p2, "/src/foo/PKGBUILD");
}

#[test]
fn updpkgsums_runs_in_dir() {
    let c = update_pkgsums("/src/foo");
    assert_eq!(c.program, "updpkgsums");
    assert!(c.args.is_empty());
    assert_eq!(c.dir, Some("/src/foo".to_string()));
}

#[test]
fn next_pkgrel_unparsable_suffix_appends_two() {
    assert_eq!(compute_next_pkgrel("1.99999999999"), Some("1.99999999999.2".to_string()));
}

#[test]
fn replacement_is_literal() {
    assert_eq!(
        replace_all_pkgrel_lines("pkgname=foo\npkgrel=1\n", "$rel.2"),
        "pkgname=foo\npkgrel=$rel.2\n"
    );
    assert_eq!(bump_pkgrel_text("pkgrel=$x\n", ""), Some("pkgrel=$x.2\n".to_string()));
}

#[test]
fn bumps_without_restore_count_on() {
    let upstream = "pkgname=foo\npkgrel=1\narch=(any)\n";
    let mut live = upstream.to_string();
    for k in 1..=10u32 {
        live = bump_pkgrel_text(&live, upstream).unwrap();
        assert_eq!(live, format!("pkgname=foo\npkgrel=1.{}\narch=(any)\n", k + 1));
    }
}
