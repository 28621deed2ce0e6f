use abs::cli::{helper_line_matches, manual_packages_to_process, Cli, RunPlan};
use abs::builds::{build_plan, installs_after_build, package_settings, package_target, should_run_manual_prebuild};
use abs::config::{BuildConfig, Config, PackageConfig, SystemUpdateConfig};
use abs::maintenance::{install_all_keys, join_path_str, remove_chroot, run_full_cleaning};
use abs::config::PathsConfig;
use abs::modes::{is_dry_run_mode, is_silent_mode, set_dry_run_mode, set_silent_mode, RunModes};
use abs::order::{compare_chars, Order3};

fn s(v: &[&str]) -> Vec<String> {
    v.iter().map(|x| x.to_string()).collect()
}

fn cli() -> Cli {
    Cli {
        download_only: false,
        local_build: false,
        chroot_build: false,
        compile_only: false,
        no_check: false,
        force_build: false,
        clean: false,
        clean_all: false,
        use_sudo_clean: false,
        remove_chroot: false,
        install_keys: false,
        update_sums: false,
        verbose: false,
        silent: false,
        force_repo_update: false,
        system_update: false,
        repo: None,
        install_only: false,
        clean_install: false,
        dry_run: false,
        list: false,
        help: None,
        packages: vec![],
    }
}

#[test]
fn modes_read_back() {
    let mut m = RunModes::new();
    assert!(!is_silent_mode(&m) && !is_dry_run_mode(&m));
    set_silent_mode(&mut m, true);
    assert!(is_silent_mode(&m));
    assert!(!is_dry_run_mode(&m));
    set_dry_run_mode(&mut m, true);
    set_silent_mode(&mut m, false);
    assert!(!is_silent_mode(&m));
    assert!(is_dry_run_mode(&m));
}

#[test]
fn run_plans() {
    let mut c = cli();
    assert_eq!(c.run_plan(), RunPlan::NoPackages);
    c.install_keys = true;
    assert_eq!(c.run_plan(), RunPlan::MaintenanceOnly);
    c.packages = s(&["foo"]);
    assert_eq!(c.run_plan(), RunPlan::BuildPackages);
    c.packages = vec![];
    c.force_repo_update = true;
    assert_eq!(c.run_plan(), RunPlan::RefreshRepositories);
    c.system_update = true;
    assert_eq!(c.run_plan(), RunPlan::SystemUpdate);
    assert!(c.use_refresh_command());
    c.install_only = true;
    assert_eq!(c.run_plan(), RunPlan::Conflict);
    c.list = true;
    assert_eq!(c.run_plan(), RunPlan::ListConfig);
}

#[test]
fn deferred_install() {
    let build = BuildConfig {
        default_environment: "local".to_string(),
        ignore_compilation_failures: false,
        compile_first_install_after: true,
        clean_install_by_default: false,
    };
    let mut c = cli();
    assert!(c.defer_install_pass(&build));
    c.compile_only = true;
    assert!(!c.defer_install_pass(&build));
}

#[test]
fn update_lines() {
    let lines = s(&["linux 6.1-1 -> 6.2-1", "mesa-git 1 -> 2"]);
    assert!(helper_line_matches(&lines, "linux"));
    assert!(!helper_line_matches(&lines, "mesa"));
    assert!(helper_line_matches(&lines, "mesa-git"));
    assert!(!helper_line_matches(&vec![], "linux"));
}

#[test]
fn manual_packages_not_requested() {
    assert_eq!(manual_packages_to_process(&s(&["a", "b", "c"]), &s(&["b"])), s(&["a", "c"]));
}

fn paths() -> PathsConfig {
    PathsConfig {
        packages_path: "/srv/pkgs".to_string(),
        chroot_base_path: "/srv/chroot/".to_string(),
        ready_made_packages_path: "/srv/ready".to_string(),
    }
}

#[test]
fn chroot_and_cleaning() {
    assert_eq!(remove_chroot(&paths()), "/srv/chroot/base");
    assert_eq!(join_path_str("", "base"), "base");
    assert_eq!(join_path_str("/x", "base"), "/x/base");
    assert_eq!(join_path_str("/x", "/abs/base"), "/abs/base");
    let plan = run_full_cleaning(&paths());
    assert_eq!(plan.remove, s(&["/srv/chroot/base", "/srv/pkgs", "/srv/ready"]));
    assert_eq!(plan.recreate, s(&["/srv/pkgs", "/srv/ready"]));
}

#[test]
fn keyring_steps() {
    let steps = install_all_keys();
    assert_eq!(steps.len(), 4);
    assert_eq!(steps[0].command.program, "sudo");
    assert_eq!(steps[0].command.args, s(&["pacman", "-Sy", "--noconfirm", "archlinux-keyring", "cachyos-keyring"]));
    assert_eq!(steps[3].command.args, s(&["pacman-key", "--keyserver", "hkps://keyserver.ubuntu.com", "--refresh-keys"]));
    assert_eq!(steps[1].announce, Some("Populating keyrings...".to_string()));
    assert_eq!(steps[2].announce, None);
    assert_eq!(steps[2].on_failure, "Failed to populate cachyos keys");
}

#[test]
fn char_order() {
    assert_eq!(compare_chars(&vec!['a'], &vec!['a', 'b']), Order3::Before);
    assert_eq!(compare_chars(&vec!['b'], &vec!['a', 'b']), Order3::After);
    assert_eq!(compare_chars(&vec!['x'], &vec!['x']), Order3::Same);
}

#[test]
fn build_plans() {
    let mut pkg = PackageConfig::default();
    pkg.tests = Some(false);
    pkg.alias = Some("linux".to_string());
    let mut custom = PackageConfig::default();
    custom.build_env = Some("chroot".to_string());
    custom.custom_chroot_build_command = Some("make it".to_string());
    let config = Config {
        paths: paths(),
        build: BuildConfig {
            default_environment: "local".to_string(),
            ignore_compilation_failures: true,
            compile_first_install_after: false,
            clean_install_by_default: false,
        },
        system_update: SystemUpdateConfig {
            command_to_update_repositories: "yay -Sy".to_string(),
            command_to_perform_system_update: "yay -Syu".to_string(),
            ignore_flag: "--ignore".to_string(),
            ignore_packages: vec![],
        },
        repositories: vec![("default".to_string(), "https://d".to_string())],
        manual_update_packages: vec![],
        skip_install_packages: vec![],
        packages: vec![("linux-tkg".to_string(), pkg), ("tool".to_string(), custom)],
    };
    let mut c = cli();
    let t = package_target(&config, &None, "linux-tkg").unwrap();
    assert_eq!((t.repo_name.as_str(), t.repo_url.as_str(), t.base_pkg_name.as_str()), ("default", "https://d", "linux"));
    assert_eq!(package_target(&config, &Some("cachyos".to_string()), "x").err(), Some("cachyos".to_string()));
    let settings = package_settings(&config, "linux-tkg");
    c.force_build = true;
    let plan = build_plan(&config, &c, &settings, "/p/linux");
    assert_eq!(plan.command.program, "env");
    assert_eq!(plan.command.args, s(&["PKGDEST=/srv/ready", "makepkg", "-s", "--noconfirm", "-f", "--nocheck"]));
    assert_eq!(plan.command.dir, Some("/p/linux".to_string()));
    assert!(plan.remove_first.is_empty());
    assert!(plan.continue_on_failure);
    c.chroot_build = true;
    c.clean_install = true;
    let plan = build_plan(&config, &c, &settings, "/p/linux");
    assert_eq!(plan.command.args, s(&["PKGDEST=/srv/ready", "makechrootpkg", "-c", "-r", "/srv/chroot/", "--", "--nocheck"]));
    assert_eq!(plan.remove_first, s(&["/p/linux/src", "/p/linux/pkg"]));
    let tool = build_plan(&config, &cli(), &package_settings(&config, "tool"), "/p/tool");
    assert_eq!(tool.command.program, "sh");
    assert_eq!(tool.command.args, s(&["-c", "make it"]));
    assert!(installs_after_build(&cli(), false));
    assert!(!installs_after_build(&cli(), true));
    assert!(should_run_manual_prebuild(&cli(), true));
    assert!(!should_run_manual_prebuild(&cli(), false));
}
