use vstd::prelude::*;
use crate::cli::Cli;
use crate::command::{CommandLine, arg_views};
use crate::config::{Config, PackageConfig};
use crate::maintenance::{join_path, join_path_str};
use crate::text::str_eq;

verus! {

broadcast use vstd::string::group_string_axioms;

// ---------------------------------------------------------------------------
// Which repository a package comes from
// ---------------------------------------------------------------------------

/// The settings of package `pkg`, where the configuration has them.
pub open spec fn settings_of(entries: Seq<(String, PackageConfig)>, pkg: Seq<char>) -> Option<PackageConfig>
    decreases entries.len(),
{
    if entries.len() == 0 {
        None
    } else if entries.last().0@ == pkg {
        Some(entries.last().1)
    } else {
        settings_of(entries.drop_last(), pkg)
    }
}

/// The URL configured for repository `name`.
pub open spec fn repo_url_of(entries: Seq<(String, String)>, name: Seq<char>) -> Option<Seq<char>>
    decreases entries.len(),
{
    if entries.len() == 0 {
        None
    } else if entries.last().0@ == name {
        Some(entries.last().1@)
    } else {
        repo_url_of(entries.drop_last(), name)
    }
}

/// The repository a package is taken from: `--repo`, else the package's
/// `source`, else `default`.
pub open spec fn target_repo(cli_repo: Option<String>, settings: Option<PackageConfig>) -> Seq<char> {
    match cli_repo {
        Some(r) => r@,
        None => match settings {
            Some(p) => match p.source {
                Some(s) => s@,
                None => "default"@,
            },
            None => "default"@,
        },
    }
}

/// The name under which the package's PKGBUILD is looked up: its `alias`,
/// else its own name.
pub open spec fn target_base(pkg: Seq<char>, settings: Option<PackageConfig>) -> Seq<char> {
    match settings {
        Some(p) => match p.alias {
            Some(a) => a@,
            None => pkg,
        },
        None => pkg,
    }
}

/// Where a package is built from.
#[derive(Debug)]
pub struct BuildTarget {
    pub repo_name: String,
    pub repo_url: String,
    pub base_pkg_name: String,
}

fn clone_opt(o: &Option<String>) -> (r: Option<String>)
    ensures
        r == *o,
{
    match o {
        Some(s) => Some(s.clone()),
        None => None,
    }
}

/// The settings of `pkg` in the configuration.
pub fn package_settings(config: &Config, pkg: &str) -> (r: Option<PackageConfig>)
    ensures
        r == settings_of(config.packages@, pkg@),
{
    let ghost c = config.packages@;
    let mut i: usize = config.packages.len();
    assert(c.take(c.len() as int) =~= c);
    while i > 0
        invariant
            i <= config.packages.len(),
            c == config.packages@,
            settings_of(c, pkg@) == settings_of(c.take(i as int), pkg@),
        decreases i,
    {
        assert(c.take(i as int).drop_last() =~= c.take(i - 1));
        assert(c.take(i as int).last() == c[i - 1]);
        if str_eq(config.packages[i - 1].0.as_str(), pkg) {
            let p = &config.packages[i - 1].1;
            return Some(PackageConfig {
                source: clone_opt(&p.source),
                build_env: clone_opt(&p.build_env),
                tests: p.tests,
                alias: clone_opt(&p.alias),
                custom_local_build_command: clone_opt(&p.custom_local_build_command),
                custom_chroot_build_command: clone_opt(&p.custom_chroot_build_command),
                pre_update_command: clone_opt(&p.pre_update_command),
                post_update_command: clone_opt(&p.post_update_command),
            });
        }
        i = i - 1;
    }
    assert(c.take(0) =~= Seq::<(String, PackageConfig)>::empty());
    None
}

/// The repository, its URL and the lookup name of a package; `Err` with the
/// repository's name when no URL is configured for it.
pub fn package_target(config: &Config, cli_repo: &Option<String>, pkg: &str) -> (r: Result<BuildTarget, String>)
    ensures
        ({
            let settings = settings_of(config.packages@, pkg@);
            let repo = target_repo(*cli_repo, settings);
            match repo_url_of(config.repositories@, repo) {
                Some(url) => r matches Ok(t) && t.repo_name@ == repo && t.repo_url@ == url
                    && t.base_pkg_name@ == target_base(pkg@, settings),
                None => r matches Err(name) && name@ == repo,
            }
        }),
{
    let settings = package_settings(config, pkg);
    let repo: String = match cli_repo {
        Some(r) => r.clone(),
        None => match &settings {
            Some(p) => match &p.source {
                Some(s) => s.clone(),
                None => String::from_str("default"),
            },
            None => String::from_str("default"),
        },
    };
    let base: String = match &settings {
        Some(p) => match &p.alias {
            Some(a) => a.clone(),
            None => String::from_str(pkg),
        },
        None => String::from_str(pkg),
    };
    let ghost c = config.repositories@;
    let mut i: usize = config.repositories.len();
    assert(c.take(c.len() as int) =~= c);
    while i > 0
        invariant
            i <= config.repositories.len(),
            c == config.repositories@,
            repo_url_of(c, repo@) == repo_url_of(c.take(i as int), repo@),
            repo@ == target_repo(*cli_repo, settings_of(config.packages@, pkg@)),
            base@ == target_base(pkg@, settings_of(config.packages@, pkg@)),
        decreases i,
    {
        assert(c.take(i as int).drop_last() =~= c.take(i - 1));
        assert(c.take(i as int).last() == c[i - 1]);
        if config.repositories[i - 1].0 == repo {
            let url = config.repositories[i - 1].1.clone();
            return Ok(BuildTarget { repo_name: repo, repo_url: url, base_pkg_name: base });
        }
        i = i - 1;
    }
    assert(c.take(0) =~= Seq::<(String, String)>::empty());
    Err(repo)
}

// ---------------------------------------------------------------------------
// How a package is built
// ---------------------------------------------------------------------------

/// The build environment: `-l` or `-h`, else the package's `build_env`,
/// else the configured default.
pub open spec fn build_env_of(c: Config, cli: Cli, settings: Option<PackageConfig>) -> Seq<char> {
    if cli.local_build {
        "local"@
    } else if cli.chroot_build {
        "chroot"@
    } else {
        match settings {
            Some(p) => match p.build_env {
                Some(e) => e@,
                None => c.build.default_environment@,
            },
            None => c.build.default_environment@,
        }
    }
}

/// Tests are skipped with `-t` or where the package turns them off.
pub open spec fn skips_tests(cli: Cli, settings: Option<PackageConfig>) -> bool {
    cli.no_check || (settings matches Some(p) && p.tests == Some(false))
}

/// The custom build command of the package for the environment, if any.
pub open spec fn custom_command(local: bool, settings: Option<PackageConfig>) -> Option<String> {
    match settings {
        Some(p) => if local { p.custom_local_build_command } else { p.custom_chroot_build_command },
        None => None,
    }
}

pub open spec fn opt_arg(on: bool, a: Seq<char>) -> Seq<Seq<char>> {
    if on { seq![a] } else { Seq::empty() }
}

/// The arguments of `env` for a local build: `PKGDEST` set to the
/// ready-made packages path, then `makepkg -s --noconfirm`, with `-o` for
/// `-d`, `-f` for `-n` and `--nocheck` when tests are skipped.
pub open spec fn local_build_args(c: Config, cli: Cli, nocheck: bool) -> Seq<Seq<char>> {
    seq!["PKGDEST="@ + c.paths.ready_made_packages_path@, "makepkg"@, "-s"@, "--noconfirm"@]
        + opt_arg(cli.download_only, "-o"@) + opt_arg(cli.force_build, "-f"@) + opt_arg(nocheck, "--nocheck"@)
}

/// The arguments of `env` for a chroot build: `PKGDEST` as above, then
/// `makechrootpkg -c -r` with the chroot base path, and `-- --nocheck` when
/// tests are skipped.
pub open spec fn chroot_build_args(c: Config, nocheck: bool) -> Seq<Seq<char>> {
    seq!["PKGDEST="@ + c.paths.ready_made_packages_path@, "makechrootpkg"@, "-c"@, "-r"@, c.paths.chroot_base_path@]
        + if nocheck { seq!["--"@, "--nocheck"@] } else { Seq::empty() }
}

/// How a package is built in its directory.
#[derive(Debug)]
pub struct BuildPlan {
    /// Directories removed before the build (`--clean-install`).
    pub remove_first: Vec<String>,
    /// The build command.
    pub command: CommandLine,
    /// A failed build is reported and the run goes on.
    pub continue_on_failure: bool,
}

fn push_arg(v: &mut Vec<String>, a: &str)
    ensures
        arg_views(final(v)@) == arg_views(old(v)@).push(a@),
{
    let ghost before = v@;
    v.push(String::from_str(a));
    assert(arg_views(v@) =~= arg_views(before).push(a@));
}

/// The plan of a build: with `--clean-install` or `clean_install_by_default`
/// the `src` and `pkg` directories go first; a custom build command for the
/// environment runs through `sh -c`; otherwise `makepkg` or `makechrootpkg`
/// runs under `env`. All run in the package directory.
pub fn build_plan(config: &Config, cli: &Cli, settings: &Option<PackageConfig>, dir: &str) -> (r: BuildPlan)
    ensures
        ({
            let local = build_env_of(*config, *cli, *settings) == "local"@;
            let nocheck = skips_tests(*cli, *settings);
            &&& arg_views(r.remove_first@) == (if cli.clean_install || config.build.clean_install_by_default {
                seq![join_path(dir@, "src"@), join_path(dir@, "pkg"@)]
            } else {
                Seq::empty()
            })
            &&& r.command.dir matches Some(d) && d@ == dir@
            &&& match custom_command(local, *settings) {
                Some(cmd) => r.command.program@ == "sh"@ && arg_views(r.command.args@) == seq!["-c"@, cmd@],
                None => r.command.program@ == "env"@ && arg_views(r.command.args@) == if local {
                    local_build_args(*config, *cli, nocheck)
                } else {
                    chroot_build_args(*config, nocheck)
                },
            }
            &&& r.continue_on_failure == config.build.ignore_compilation_failures
        }),
        ({
            let local = build_env_of(*config, *cli, *settings) == "local"@;
            let args = arg_views(r.command.args@);
            let off = cli.no_check || (settings matches Some(p) && p.tests == Some(false));
            custom_command(local, *settings) is None ==> {
                &&& off && local ==> args.contains("--nocheck"@)
                &&& off && !local ==> args.len() >= 2 && args[args.len() - 2] == "--"@ && args[args.len() - 1] == "--nocheck"@
                &&& !off && local ==> !args.contains("--nocheck"@)
                &&& !off && !local ==> args.len() == 5
            }
        }),
{
    proof {
        law_skipping_tests(*config, *cli, *settings);
    }
    let local: bool = if cli.local_build {
        true
    } else if cli.chroot_build {
        false
    } else {
        match settings {
            Some(p) => match &p.build_env {
                Some(e) => str_eq(e.as_str(), "local"),
                None => str_eq(config.build.default_environment.as_str(), "local"),
            },
            None => str_eq(config.build.default_environment.as_str(), "local"),
        }
    };
    proof {
        reveal_strlit("local");
        reveal_strlit("chroot");
        assert(("chroot"@)[0] != ("local"@)[0]);
    }
    assert(local == (build_env_of(*config, *cli, *settings) == "local"@));
    let nocheck = cli.no_check || match settings {
        Some(p) => match p.tests {
            Some(t) => !t,
            None => false,
        },
        None => false,
    };
    let mut remove_first: Vec<String> = Vec::new();
    if cli.clean_install || config.build.clean_install_by_default {
        remove_first.push(join_path_str(dir, "src"));
        remove_first.push(join_path_str(dir, "pkg"));
        assert(arg_views(remove_first@) =~= seq![join_path(dir@, "src"@), join_path(dir@, "pkg"@)]);
    } else {
        assert(arg_views(remove_first@) =~= Seq::<Seq<char>>::empty());
    }
    let custom: Option<String> = match settings {
        Some(p) => if local { clone_opt(&p.custom_local_build_command) } else { clone_opt(&p.custom_chroot_build_command) },
        None => None,
    };
    let command = match custom {
        Some(cmd) => {
            let mut args: Vec<String> = Vec::new();
            push_arg(&mut args, "-c");
            let ghost before = args@;
            let ghost cv = cmd@;
            args.push(cmd);
            assert(arg_views(args@) =~= arg_views(before).push(cv));
            assert(arg_views(args@) =~= seq!["-c"@, cv]);
            CommandLine { program: String::from_str("sh"), args, dir: Some(String::from_str(dir)) }
        },
        None => {
            let mut args: Vec<String> = Vec::new();
            let mut dest = String::from_str("PKGDEST=");
            dest.append(config.paths.ready_made_packages_path.as_str());
            let ghost dv = dest@;
            args.push(dest);
            assert(arg_views(args@) =~= seq![dv]);
            if local {
                push_arg(&mut args, "makepkg");
                push_arg(&mut args, "-s");
                push_arg(&mut args, "--noconfirm");
                let ghost a0 = arg_views(args@);
                assert(a0 =~= seq!["PKGDEST="@ + config.paths.ready_made_packages_path@, "makepkg"@, "-s"@, "--noconfirm"@]);
                if cli.download_only {
                    push_arg(&mut args, "-o");
                }
                let ghost a1 = arg_views(args@);
                assert(a1 =~= a0 + opt_arg(cli.download_only, "-o"@));
                if cli.force_build {
                    push_arg(&mut args, "-f");
                }
                let ghost a2 = arg_views(args@);
                assert(a2 =~= a1 + opt_arg(cli.force_build, "-f"@));
                if nocheck {
                    push_arg(&mut args, "--nocheck");
                }
                assert(arg_views(args@) =~= a2 + opt_arg(nocheck, "--nocheck"@));
                assert(arg_views(args@) == local_build_args(*config, *cli, nocheck));
            } else {
                push_arg(&mut args, "makechrootpkg");
                push_arg(&mut args, "-c");
                push_arg(&mut args, "-r");
                let ghost before = args@;
                let base = config.paths.chroot_base_path.clone();
                args.push(base);
                assert(arg_views(args@) =~= arg_views(before).push(config.paths.chroot_base_path@));
                let ghost a0 = arg_views(args@);
                assert(a0 =~= seq!["PKGDEST="@ + config.paths.ready_made_packages_path@, "makechrootpkg"@, "-c"@, "-r"@, config.paths.chroot_base_path@]);
                if nocheck {
                    push_arg(&mut args, "--");
                    push_arg(&mut args, "--nocheck");
                    assert(arg_views(args@) =~= a0 + seq!["--"@, "--nocheck"@]);
                } else {
                    assert(arg_views(args@) =~= a0 + Seq::<Seq<char>>::empty());
                }
            }
            CommandLine { program: String::from_str("env"), args, dir: Some(String::from_str(dir)) }
        },
    };
    BuildPlan { remove_first, command, continue_on_failure: config.build.ignore_compilation_failures }
}

/// Whether a build is followed by the install step right away: not with
/// `-o` or `-d`, and not when installing waits until every build is done.
pub fn installs_after_build(cli: &Cli, defer_install: bool) -> (r: bool)
    ensures
        r == (!cli.compile_only && !cli.download_only && !defer_install),
{
    !cli.compile_only && !cli.download_only && !defer_install
}

/// Whether the system update builds a manual update package itself: when
/// the update helper lists an update for it, or a rebuild is forced (`-n`).
pub fn should_run_manual_prebuild(cli: &Cli, listed_by_helper: bool) -> (r: bool)
    ensures
        r == (listed_by_helper || cli.force_build),
{
    listed_by_helper || cli.force_build
}

} // verus!

verus! {

proof fn lemma_nocheck_differs()
    ensures
        "--nocheck"@ != "makepkg"@,
        "--nocheck"@ != "-s"@,
        "--nocheck"@ != "--noconfirm"@,
        "--nocheck"@ != "-o"@,
        "--nocheck"@ != "-f"@,
        "--nocheck"@ != "--"@,
        "--nocheck"@.len() == 9,
        "--nocheck"@[0] == '-',
        ("PKGDEST="@)[0] == 'P',
        "PKGDEST="@.len() == 8,
{
    reveal_strlit("--nocheck");
    reveal_strlit("makepkg");
    reveal_strlit("-s");
    reveal_strlit("--noconfirm");
    reveal_strlit("-o");
    reveal_strlit("-f");
    reveal_strlit("--");
    reveal_strlit("PKGDEST=");
    assert("--nocheck"@.len() != "--noconfirm"@.len());
}

/// Tests are skipped exactly when `-t` is given or the package turns them
/// off: then a `makepkg` build passes `--nocheck` and a `makechrootpkg`
/// build ends in `-- --nocheck`, whatever the package says; otherwise a
/// `makepkg` build passes no `--nocheck` and a `makechrootpkg` build passes
/// nothing after the chroot path.
pub proof fn law_skipping_tests(c: Config, cli: Cli, settings: Option<PackageConfig>)
    ensures
        cli.no_check ==> skips_tests(cli, settings),
        (settings matches Some(p) && p.tests == Some(false)) ==> skips_tests(cli, settings),
        !cli.no_check && !(settings matches Some(p) && p.tests == Some(false)) ==> !skips_tests(cli, settings),
        skips_tests(cli, settings) ==> local_build_args(c, cli, skips_tests(cli, settings)).contains("--nocheck"@),
        skips_tests(cli, settings) ==> ({
            let a = chroot_build_args(c, skips_tests(cli, settings));
            a.len() >= 2 && a[a.len() - 2] == "--"@ && a[a.len() - 1] == "--nocheck"@
        }),
        !skips_tests(cli, settings) ==> !local_build_args(c, cli, skips_tests(cli, settings)).contains("--nocheck"@),
        !skips_tests(cli, settings) ==> chroot_build_args(c, skips_tests(cli, settings)).len() == 5,
{
    lemma_nocheck_differs();
    let n = skips_tests(cli, settings);
    let a = local_build_args(c, cli, n);
    let dest = "PKGDEST="@ + c.paths.ready_made_packages_path@;
    assert(dest[0] == 'P');
    assert(dest != "--nocheck"@) by {
        if dest == "--nocheck"@ {
            assert(dest[0] == "--nocheck"@[0]);
        }
    }
    if n {
        assert(a[a.len() - 1] == "--nocheck"@);
    } else {
        assert(a =~= seq![dest, "makepkg"@, "-s"@, "--noconfirm"@] + opt_arg(cli.download_only, "-o"@) + opt_arg(cli.force_build, "-f"@));
        if a.contains("--nocheck"@) {
            let k = choose|k: int| 0 <= k < a.len() && a[k] == "--nocheck"@;
            if k >= 4 {
                if cli.download_only && k == 4 {
                } else {
                }
            }
        }
        let b = chroot_build_args(c, n);
        assert(b =~= seq![dest, "makechrootpkg"@, "-c"@, "-r"@, c.paths.chroot_base_path@]);
    }
}

} // verus!
