use vstd::prelude::*;
use crate::maintenance::{join_path, join_path_str};

verus! {

broadcast use vstd::string::group_string_axioms;

/// Where packages, chroots and built artifacts live.
pub struct PathsConfig {
    pub packages_path: String,
    pub chroot_base_path: String,
    pub ready_made_packages_path: String,
}

/// How packages are built.
pub struct BuildConfig {
    /// `local` or `chroot`.
    pub default_environment: String,
    /// Continue with the next package when a build fails instead of exiting.
    pub ignore_compilation_failures: bool,
    /// Build every scheduled package first, then run the install prompts.
    pub compile_first_install_after: bool,
    /// Remove `src/` and `pkg/` in the package directory before `makepkg`.
    pub clean_install_by_default: bool,
}

/// The system update commands.
pub struct SystemUpdateConfig {
    /// Run with `-R` or `-U` alone.
    pub command_to_update_repositories: String,
    /// Run with `-RU`.
    pub command_to_perform_system_update: String,
    /// The flag that keeps a package out of the system update.
    pub ignore_flag: String,
    pub ignore_packages: Vec<String>,
}

/// The settings of one package.
pub struct PackageConfig {
    pub source: Option<String>,
    pub build_env: Option<String>,
    pub tests: Option<bool>,
    pub alias: Option<String>,
    pub custom_local_build_command: Option<String>,
    pub custom_chroot_build_command: Option<String>,
    pub pre_update_command: Option<String>,
    pub post_update_command: Option<String>,
}

impl Default for PackageConfig {
    fn default() -> (r: PackageConfig)
        ensures
            r.source is None,
            r.build_env is None,
            r.tests is None,
            r.alias is None,
            r.custom_local_build_command is None,
            r.custom_chroot_build_command is None,
            r.pre_update_command is None,
            r.post_update_command is None,
    {
        PackageConfig {
            source: None,
            build_env: None,
            tests: None,
            alias: None,
            custom_local_build_command: None,
            custom_chroot_build_command: None,
            pre_update_command: None,
            post_update_command: None,
        }
    }
}

/// The whole configuration. `repositories` maps a repository name to its
/// URL and `packages` a package name to its settings; each name occurs once.
pub struct Config {
    pub paths: PathsConfig,
    pub build: BuildConfig,
    pub system_update: SystemUpdateConfig,
    pub repositories: Vec<(String, String)>,
    pub manual_update_packages: Vec<String>,
    pub skip_install_packages: Vec<String>,
    pub packages: Vec<(String, PackageConfig)>,
}

pub open spec fn repo_names(c: Config) -> Seq<Seq<char>> {
    c.repositories@.map_values(|e: (String, String)| e.0@)
}

pub open spec fn package_names(c: Config) -> Seq<Seq<char>> {
    c.packages@.map_values(|e: (String, PackageConfig)| e.0@)
}

pub open spec fn distinct_names(names: Seq<Seq<char>>) -> bool {
    forall|i: int, j: int| 0 <= i < j < names.len() ==> names[i] != names[j]
}

impl Config {
    /// The repository and package names are keys: none occurs twice.
    pub open spec fn wf(&self) -> bool {
        &&& distinct_names(repo_names(*self))
        &&& distinct_names(package_names(*self))
    }
}

// ---------------------------------------------------------------------------
// Validation
// ---------------------------------------------------------------------------

/// A configuration that `validate` refuses.
#[derive(Debug)]
pub enum ConfigError {
    /// `[build] default_environment` is neither `local` nor `chroot`.
    InvalidDefaultEnvironment(String),
    /// A package's `build_env` is neither `local` nor `chroot`.
    InvalidBuildEnv { package: String, build_env: String },
}

pub open spec fn is_build_env(s: Seq<char>) -> bool {
    s == "local"@ || s == "chroot"@
}

/// Entry `i` of `packages` is named `name` and has the build environment
/// `env`, which is neither `local` nor `chroot`.
pub open spec fn bad_build_env_at(packages: Seq<(String, PackageConfig)>, i: int, name: Seq<char>, env: Seq<char>) -> bool {
    &&& 0 <= i < packages.len()
    &&& packages[i].0@ == name
    &&& packages[i].1.build_env matches Some(b) && b@ == env
    &&& !is_build_env(env)
}

pub open spec fn package_env_ok(p: PackageConfig) -> bool {
    match p.build_env {
        Some(b) => is_build_env(b@),
        None => true,
    }
}

fn is_build_env_exec(s: &String) -> (r: bool)
    ensures
        r == is_build_env(s@),
{
    let local = String::from_str("local");
    let chroot = String::from_str("chroot");
    *s == local || *s == chroot
}

impl Config {
    /// Checks the build environments: the default one and every package's
    /// must be `local` or `chroot`.
    pub fn validate(&self) -> (r: Result<(), ConfigError>)
        ensures
            r is Ok <==> (is_build_env(self.build.default_environment@)
                && forall|i: int| 0 <= i < self.packages.len() ==> package_env_ok(#[trigger] self.packages@[i].1)),
            r matches Err(ConfigError::InvalidDefaultEnvironment(e)) ==> e@ == self.build.default_environment@
                && !is_build_env(self.build.default_environment@),
            !is_build_env(self.build.default_environment@) ==> r is Err && r->Err_0 is InvalidDefaultEnvironment,
            r matches Err(ConfigError::InvalidBuildEnv { package, build_env }) ==> (is_build_env(self.build.default_environment@)
                && exists|i: int| bad_build_env_at(self.packages@, i, package@, build_env@)),
    {
        if !is_build_env_exec(&self.build.default_environment) {
            return Err(ConfigError::InvalidDefaultEnvironment(self.build.default_environment.clone()));
        }
        let mut i: usize = 0;
        while i < self.packages.len()
            invariant
                i <= self.packages.len(),
                is_build_env(self.build.default_environment@),
                forall|j: int| 0 <= j < i ==> package_env_ok(#[trigger] self.packages@[j].1),
            decreases self.packages.len() - i,
        {
            match &self.packages[i].1.build_env {
                Some(b) => {
                    if !is_build_env_exec(b) {
                        let package = self.packages[i].0.clone();
                        let build_env = b.clone();
                        assert(bad_build_env_at(self.packages@, i as int, package@, build_env@));
                        let r = Err(ConfigError::InvalidBuildEnv { package, build_env });
                        assert(r matches Err(ConfigError::InvalidBuildEnv { package: p, build_env: e }) && p@ == package@ && e@ == build_env@);
                        return r;
                    }
                },
                None => {},
            }
            i = i + 1;
        }
        Ok(())
    }
}

} // verus!

verus! {

/// The configuration file under the user's configuration directory:
/// `abs/abs.toml`.
pub open spec fn user_config_path(config_dir: Seq<char>) -> Seq<char> {
    join_path(join_path(config_dir, "abs"@), "abs.toml"@)
}

/// The system-wide configuration file.
pub open spec fn system_config_path() -> Seq<char> {
    "/etc/abs/abs.toml"@
}

pub fn user_config_file(config_dir: &str) -> (r: String)
    ensures
        r@ == user_config_path(config_dir@),
{
    let d = join_path_str(config_dir, "abs");
    join_path_str(d.as_str(), "abs.toml")
}

pub fn system_config_file() -> (r: String)
    ensures
        r@ == system_config_path(),
{
    String::from_str("/etc/abs/abs.toml")
}

/// The configuration file to read, the first that exists of the user's
/// (`user`, where there is a configuration directory) and the system-wide
/// one; `None` when neither exists.
pub fn choose_config_file(user: Option<String>, user_exists: bool, system_exists: bool) -> (r: Option<String>)
    ensures
        match user {
            Some(u) if user_exists => r matches Some(p) && p@ == u@,
            _ => if system_exists {
                r matches Some(p) && p@ == system_config_path()
            } else {
                r is None
            },
        },
{
    match user {
        Some(u) if user_exists => Some(u),
        _ => {
            if system_exists {
                Some(system_config_file())
            } else {
                None
            }
        },
    }
}

} // verus!
