use abs::config::{
    choose_config_file, system_config_file, user_config_file, BuildConfig, Config, ConfigError,
    PackageConfig, PathsConfig, SystemUpdateConfig,
};
use abs::report::LineStyle;
use abs::system::{run_system_update, system_update_command};

fn s(v: &[&str]) -> Vec<String> {
    v.iter().map(|x| x.to_string()).collect()
}

fn sample() -> Config {
    let mut pkg = PackageConfig::default();
    pkg.source = Some("aur".to_string());
    pkg.tests = Some(false);
    pkg.alias = Some("z".to_string());
    pkg.pre_update_command = Some("echo hi".to_string());
    let mut other = PackageConfig::default();
    other.build_env = Some("chroot".to_string());
    Config {
        paths: PathsConfig {
            packages_path: "/srv/pkgs".to_string(),
            chroot_base_path: "/srv/chroot".to_string(),
            ready_made_packages_path: "/srv/ready".to_string(),
        },
        build: BuildConfig {
            default_environment: "local".to_string(),
            ignore_compilation_failures: false,
            compile_first_install_after: true,
            clean_install_by_default: false,
        },
        system_update: SystemUpdateConfig {
            command_to_update_repositories: "yay -Sy".to_string(),
            command_to_perform_system_update: "yay -Syu".to_string(),
            ignore_flag: "--ignore".to_string(),
            ignore_packages: s(&["linux", "mesa"]),
        },
        repositories: vec![
            ("zeta".to_string(), "https://z".to_string()),
            ("default".to_string(), "https://d".to_string()),
            ("arch".to_string(), "https://a/".to_string()),
        ],
        manual_update_packages: s(&["mesa", "foo", "foo"]),
        skip_install_packages: vec![],
        packages: vec![("zed".to_string(), pkg), ("alpha".to_string(), other)],
    }
}

#[test]
fn validate_accepts_local_and_chroot() {
    assert!(sample().validate().is_ok());
}

#[test]
fn validate_rejects_default_environment() {
    let mut c = sample();
    c.build.default_environment = "docker".to_string();
    match c.validate() {
        Err(ConfigError::InvalidDefaultEnvironment(e)) => assert_eq!(e, "docker"),
        other => panic!("unexpected {:?}", other),
    }
}

#[test]
fn validate_rejects_package_build_env() {
    let mut c = sample();
    c.packages[1].1.build_env = Some("Local".to_string());
    match c.validate() {
        Err(ConfigError::InvalidBuildEnv { package, build_env }) => {
            assert_eq!(package, "alpha");
            assert_eq!(build_env, "Local");
        }
        other => panic!("unexpected {:?}", other),
    }
}

#[test]
fn system_update_ignores_each_package_once() {
    let c = sample();
    assert_eq!(
        system_update_command(&c, false),
        "yay -Sy --ignore linux --ignore mesa --ignore foo"
    );
    let run = run_system_update(&c, true);
    assert_eq!(run.program, "sh");
    assert_eq!(run.args, s(&["-c", "yay -Syu --ignore linux --ignore mesa --ignore foo"]));
    assert_eq!(run.dir, None);
}

#[test]
fn report_lists_everything_in_order() {
    let lines = sample().report_lines();
    let texts: Vec<&str> = lines.iter().map(|l| l.text.as_str()).collect();
    let expected = vec![
        "Arch-Emerge Configuration",
        "-------------------------",
        "",
        "Paths",
        "  packages_path: /srv/pkgs",
        "  chroot_base_path: /srv/chroot",
        "  ready_made_packages_path: /srv/ready",
        "",
        "Build",
        "  default_environment: local",
        "  ignore_compilation_failures: false",
        "  compile_first_install_after: true",
        "  clean_install_by_default: false",
        "",
        "System Update",
        "  command_to_update_repositories: yay -Sy",
        "  command_to_perform_system_update: yay -Syu",
        "  ignore_flag: --ignore",
        "  ignore_packages:",
        "    - linux",
        "    - mesa",
        "",
        "Repositories",
        "  default -> https://d",
        "  arch -> https://a/",
        "  zeta -> https://z",
        "",
        "Manual Update Packages",
        "  - mesa",
        "  - foo",
        "  - foo",
        "",
        "Skip Install Packages",
        "  (none)",
        "",
        "Package Profiles",
        "  - alpha",
        "    source=- build_env=chroot tests=-",
        "  - zed",
        "    source=aur build_env=- tests=off alias=z",
        "    pre_update_command: echo hi",
    ];
    assert_eq!(texts, expected);
    assert_eq!(lines[0].style, LineStyle::Title);
    assert_eq!(lines[1].style, LineStyle::Rule);
    assert_eq!(lines[3].style, LineStyle::Heading);
    assert_eq!(lines[36].style, LineStyle::Name);
    assert_eq!(lines[37].style, LineStyle::Plain);
}

#[test]
fn config_file_choice() {
    assert_eq!(user_config_file("/home/u/.config"), "/home/u/.config/abs/abs.toml");
    assert_eq!(system_config_file(), "/etc/abs/abs.toml");
    let user = Some("/home/u/.config/abs/abs.toml".to_string());
    assert_eq!(choose_config_file(user.clone(), true, true), user);
    assert_eq!(choose_config_file(user.clone(), false, true), Some("/etc/abs/abs.toml".to_string()));
    assert_eq!(choose_config_file(None, true, true), Some("/etc/abs/abs.toml".to_string()));
    assert_eq!(choose_config_file(user, false, false), None);
}
