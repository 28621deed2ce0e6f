use vstd::prelude::*;
use crate::command::{CommandLine, arg_views, args_of};
use crate::config::PathsConfig;

verus! {

broadcast use vstd::string::group_string_axioms;

/// `name` under `base`, as `PathBuf::join` forms it: an absolute `name`
/// replaces `base`; otherwise a separator is put between them unless `base`
/// is empty or already ends with one.
pub open spec fn join_path(base: Seq<char>, name: Seq<char>) -> Seq<char> {
    if name.len() > 0 && name[0] == '/' {
        name
    } else if base.len() == 0 {
        name
    } else if base.last() == '/' {
        base + name
    } else {
        base + "/"@ + name
    }
}

/// Joins `name` to `base`.
pub fn join_path_str(base: &str, name: &str) -> (r: String)
    ensures
        r@ == join_path(base@, name@),
{
    if name.unicode_len() > 0 && name.get_char(0) == '/' {
        return String::from_str(name);
    }
    let n = base.unicode_len();
    if n == 0 {
        return String::from_str(name);
    }
    let mut s = String::from_str(base);
    if base.get_char(n - 1) != '/' {
        s.append("/");
    }
    s.append(name);
    s
}

/// The master chroot that `-r` removes: `base` under the chroot base path.
pub fn remove_chroot(paths: &PathsConfig) -> (r: String)
    ensures
        r@ == join_path(paths.chroot_base_path@, "base"@),
{
    join_path_str(paths.chroot_base_path.as_str(), "base")
}

/// What a full cleaning (`-e`) removes, in order, and then creates again.
#[derive(Debug)]
pub struct CleaningPlan {
    pub remove: Vec<String>,
    pub recreate: Vec<String>,
}

/// The full cleaning: the master chroot, the packages path and the
/// ready-made packages path are removed; the last two are created again.
pub fn run_full_cleaning(paths: &PathsConfig) -> (r: CleaningPlan)
    ensures
        arg_views(r.remove@) == seq![
            join_path(paths.chroot_base_path@, "base"@),
            paths.packages_path@,
            paths.ready_made_packages_path@,
        ],
        arg_views(r.recreate@) == seq![paths.packages_path@, paths.ready_made_packages_path@],
{
    let mut remove: Vec<String> = Vec::new();
    remove.push(remove_chroot(paths));
    remove.push(paths.packages_path.clone());
    remove.push(paths.ready_made_packages_path.clone());
    let mut recreate: Vec<String> = Vec::new();
    recreate.push(paths.packages_path.clone());
    recreate.push(paths.ready_made_packages_path.clone());
    assert(arg_views(remove@) =~= seq![
        join_path(paths.chroot_base_path@, "base"@),
        paths.packages_path@,
        paths.ready_made_packages_path@,
    ]);
    assert(arg_views(recreate@) =~= seq![paths.packages_path@, paths.ready_made_packages_path@]);
    CleaningPlan { remove, recreate }
}

/// One step of installing the signing keys: an optional status line, a
/// command, and the warning shown (with the error) when it fails.
#[derive(Debug)]
pub struct KeyringStep {
    pub announce: Option<String>,
    pub command: CommandLine,
    pub on_failure: String,
}

pub open spec fn step_is(s: KeyringStep, announce: Option<Seq<char>>, args: Seq<Seq<char>>, on_failure: Seq<char>) -> bool {
    &&& match s.announce {
        Some(a) => announce == Some(a@),
        None => announce is None,
    }
    &&& s.command.program@ == "sudo"@
    &&& arg_views(s.command.args@) == args
    &&& s.command.dir is None
    &&& s.on_failure@ == on_failure
}

fn sudo(parts: &[&str]) -> (r: CommandLine)
    ensures
        r.program@ == "sudo"@,
        arg_views(r.args@) == parts@.map_values(|s: &str| s@),
        r.dir is None,
{
    CommandLine { program: String::from_str("sudo"), args: args_of(parts), dir: None }
}

/// The steps of `-k`: install the Arch Linux and CachyOS keyrings, populate
/// both, and refresh the keys from the Ubuntu key server. A failing step is
/// reported and the next one runs.
pub fn install_all_keys() -> (r: Vec<KeyringStep>)
    ensures
        r.len() == 4,
        step_is(r@[0], Some("Installing Arch Linux and CachyOS keyrings..."@),
            seq!["pacman"@, "-Sy"@, "--noconfirm"@, "archlinux-keyring"@, "cachyos-keyring"@],
            "Keyring package install failed"@),
        step_is(r@[1], Some("Populating keyrings..."@),
            seq!["pacman-key"@, "--populate"@, "archlinux"@],
            "Failed to populate archlinux keys"@),
        step_is(r@[2], None, seq!["pacman-key"@, "--populate"@, "cachyos"@], "Failed to populate cachyos keys"@),
        step_is(r@[3], None,
            seq!["pacman-key"@, "--keyserver"@, "hkps://keyserver.ubuntu.com"@, "--refresh-keys"@],
            "Failed to refresh keys"@),
{
    let mut steps: Vec<KeyringStep> = Vec::new();
    let c0 = sudo(&["pacman", "-Sy", "--noconfirm", "archlinux-keyring", "cachyos-keyring"]);
    assert(seq!["pacman", "-Sy", "--noconfirm", "archlinux-keyring", "cachyos-keyring"].map_values(|s: &str| s@)
        =~= seq!["pacman"@, "-Sy"@, "--noconfirm"@, "archlinux-keyring"@, "cachyos-keyring"@]);
    steps.push(KeyringStep {
        announce: Some(String::from_str("Installing Arch Linux and CachyOS keyrings...")),
        command: c0,
        on_failure: String::from_str("Keyring package install failed"),
    });
    let c1 = sudo(&["pacman-key", "--populate", "archlinux"]);
    assert(seq!["pacman-key", "--populate", "archlinux"].map_values(|s: &str| s@)
        =~= seq!["pacman-key"@, "--populate"@, "archlinux"@]);
    steps.push(KeyringStep {
        announce: Some(String::from_str("Populating keyrings...")),
        command: c1,
        on_failure: String::from_str("Failed to populate archlinux keys"),
    });
    let c2 = sudo(&["pacman-key", "--populate", "cachyos"]);
    assert(seq!["pacman-key", "--populate", "cachyos"].map_values(|s: &str| s@)
        =~= seq!["pacman-key"@, "--populate"@, "cachyos"@]);
    steps.push(KeyringStep { announce: None, command: c2, on_failure: String::from_str("Failed to populate cachyos keys") });
    let c3 = sudo(&["pacman-key", "--keyserver", "hkps://keyserver.ubuntu.com", "--refresh-keys"]);
    assert(seq!["pacman-key", "--keyserver", "hkps://keyserver.ubuntu.com", "--refresh-keys"].map_values(|s: &str| s@)
        =~= seq!["pacman-key"@, "--keyserver"@, "hkps://keyserver.ubuntu.com"@, "--refresh-keys"@]);
    steps.push(KeyringStep { announce: None, command: c3, on_failure: String::from_str("Failed to refresh keys") });
    steps
}

} // verus!
