use vstd::prelude::*;
use crate::command::{CommandLine, arg_views, args_of};
use crate::config::Config;
use crate::text::string_views;

verus! {

broadcast use vstd::string::group_string_axioms;

/// The names of `s`, each at its first occurrence, in order.
pub open spec fn first_occurrences(s: Seq<Seq<char>>) -> Seq<Seq<char>>
    decreases s.len(),
{
    if s.len() == 0 {
        Seq::empty()
    } else {
        let d = first_occurrences(s.drop_last());
        if s.drop_last().contains(s.last()) {
            d
        } else {
            d.push(s.last())
        }
    }
}

/// ` {flag} {pkg}` for each package, in order.
pub open spec fn ignore_args(flag: Seq<char>, pkgs: Seq<Seq<char>>) -> Seq<char>
    decreases pkgs.len(),
{
    if pkgs.len() == 0 {
        Seq::empty()
    } else {
        ignore_args(flag, pkgs.drop_last()) + " "@ + flag + " "@ + pkgs.last()
    }
}

/// The packages kept out of the system update: those of `ignore_packages`
/// and then those of `manual_update_packages`, each once.
pub open spec fn ignored_packages(c: Config) -> Seq<Seq<char>> {
    first_occurrences(string_views(c.system_update.ignore_packages@) + string_views(c.manual_update_packages@))
}

/// The system update command line: the refresh command for `-RU`, the
/// repository update command otherwise, followed by the ignore flag and
/// the name of each ignored package.
pub open spec fn update_command_line(c: Config, use_refresh_command: bool) -> Seq<char> {
    let base = if use_refresh_command {
        c.system_update.command_to_perform_system_update@
    } else {
        c.system_update.command_to_update_repositories@
    };
    base + ignore_args(c.system_update.ignore_flag@, ignored_packages(c))
}

proof fn lemma_first_occurrences(s: Seq<Seq<char>>)
    ensures
        forall|x: Seq<char>| first_occurrences(s).contains(x) <==> s.contains(x),
        forall|i: int, j: int| 0 <= i < j < first_occurrences(s).len() ==> first_occurrences(s)[i] != first_occurrences(s)[j],
    decreases s.len(),
{
    if s.len() > 0 {
        let pre = s.drop_last();
        lemma_first_occurrences(pre);
        assert forall|x: Seq<char>| s.contains(x) <==> (pre.contains(x) || x == s.last()) by {
            if s.contains(x) {
                let k = choose|k: int| 0 <= k < s.len() && s[k] == x;
                if k < pre.len() {
                    assert(pre[k] == x);
                }
            }
            if pre.contains(x) {
                let k = choose|k: int| 0 <= k < pre.len() && pre[k] == x;
                assert(s[k] == x);
            }
            if x == s.last() {
                assert(s[s.len() - 1] == x);
            }
        }
        let d = first_occurrences(pre);
        if !pre.contains(s.last()) {
            assert forall|x: Seq<char>| d.push(s.last()).contains(x) <==> (d.contains(x) || x == s.last()) by {
                if d.push(s.last()).contains(x) {
                    let k = choose|k: int| 0 <= k < d.push(s.last()).len() && d.push(s.last())[k] == x;
                    if k < d.len() {
                        assert(d[k] == x);
                    }
                }
                if d.contains(x) {
                    let k = choose|k: int| 0 <= k < d.len() && d[k] == x;
                    assert(d.push(s.last())[k] == x);
                }
                if x == s.last() {
                    assert(d.push(s.last())[d.len() as int] == x);
                }
            }
            assert forall|i: int, j: int| 0 <= i < j < d.push(s.last()).len() implies d.push(s.last())[i] != d.push(s.last())[j] by {
                if j == d.len() {
                    assert(d.contains(d[i]));
                }
            }
        }
    }
}

fn holds(seen: &Vec<String>, x: &String) -> (r: bool)
    ensures
        r == string_views(seen@).contains(x@),
{
    let mut i: usize = 0;
    while i < seen.len()
        invariant
            i <= seen.len(),
            forall|j: int| 0 <= j < i ==> seen@[j]@ != x@,
        decreases seen.len() - i,
    {
        if seen[i] == *x {
            assert(string_views(seen@)[i as int] == x@);
            return true;
        }
        i = i + 1;
    }
    assert(!string_views(seen@).contains(x@)) by {
        if string_views(seen@).contains(x@) {
            let j = choose|j: int| 0 <= j < seen.len() && string_views(seen@)[j] == x@;
            assert(seen@[j]@ == x@);
        }
    }
    false
}

/// Appends ` {flag} {pkg}` for each package of `pkgs` not yet in `seen`,
/// and records it there.
fn note_ignored(
    cmd: &mut String,
    seen: &mut Vec<String>,
    flag: &str,
    pkgs: &Vec<String>,
    Ghost(base): Ghost<Seq<char>>,
    Ghost(prev): Ghost<Seq<Seq<char>>>,
)
    requires
        string_views(old(seen)@) == first_occurrences(prev),
        old(cmd)@ == base + ignore_args(flag@, first_occurrences(prev)),
    ensures
        string_views(final(seen)@) == first_occurrences(prev + string_views(pkgs@)),
        final(cmd)@ == base + ignore_args(flag@, first_occurrences(prev + string_views(pkgs@))),
{
    let ghost all = prev + string_views(pkgs@);
    let mut k: usize = 0;
    assert(all.take(prev.len() as int) =~= prev);
    while k < pkgs.len()
        invariant
            all == prev + string_views(pkgs@),
            k <= pkgs.len(),
            string_views(seen@) == first_occurrences(all.take(prev.len() + k)),
            cmd@ == base + ignore_args(flag@, first_occurrences(all.take(prev.len() + k))),
        decreases pkgs.len() - k,
    {
        let item = &pkgs[k];
        let ghost pre = all.take(prev.len() + k);
        let ghost d = first_occurrences(pre);
        assert(all.take(prev.len() + k + 1).drop_last() =~= pre);
        assert(all.take(prev.len() + k + 1).last() == item@);
        proof { lemma_first_occurrences(pre); }
        if !holds(seen, item) {
            let ghost before = seen@;
            seen.push(item.clone());
            assert(string_views(seen@) =~= string_views(before).push(item@));
            cmd.append(" ");
            cmd.append(flag);
            cmd.append(" ");
            cmd.append(item.as_str());
            assert(d.push(item@).drop_last() =~= d);
            assert(first_occurrences(all.take(prev.len() + k + 1)) == d.push(item@));
            assert(cmd@ =~= base + ignore_args(flag@, d.push(item@)));
        } else {
            assert(first_occurrences(all.take(prev.len() + k + 1)) == d);
        }
        k = k + 1;
    }
    assert(all.take(prev.len() + pkgs.len()) =~= all);
}

/// The system update command line (the command part of
/// `run_system_update`).
pub fn system_update_command(config: &Config, use_refresh_command: bool) -> (r: String)
    ensures
        r@ == update_command_line(*config, use_refresh_command),
{
    let mut cmd = if use_refresh_command {
        config.system_update.command_to_perform_system_update.clone()
    } else {
        config.system_update.command_to_update_repositories.clone()
    };
    let ghost base = cmd@;
    let flag = config.system_update.ignore_flag.as_str();
    let mut seen: Vec<String> = Vec::new();
    assert(cmd@ =~= base + ignore_args(flag@, first_occurrences(Seq::empty())));
    assert(string_views(seen@) =~= first_occurrences(Seq::empty()));
    note_ignored(&mut cmd, &mut seen, flag, &config.system_update.ignore_packages, Ghost(base), Ghost(Seq::empty()));
    let ghost a = string_views(config.system_update.ignore_packages@);
    assert(Seq::<Seq<char>>::empty() + a =~= a);
    note_ignored(&mut cmd, &mut seen, flag, &config.manual_update_packages, Ghost(base), Ghost(a));
    cmd
}

/// How the system update is run: `sh -c` with the system update command
/// line (so that the configured command may be a shell pipeline).
pub fn run_system_update(config: &Config, use_refresh_command: bool) -> (r: CommandLine)
    ensures
        r.program@ == "sh"@,
        arg_views(r.args@) == seq!["-c"@, update_command_line(*config, use_refresh_command)],
        r.dir is None,
{
    let cmd = system_update_command(config, use_refresh_command);
    let ghost c = cmd@;
    let mut args = args_of(&["-c"]);
    let ghost before = args@;
    args.push(cmd);
    assert(arg_views(args@) =~= arg_views(before).push(c));
    assert(seq!["-c"].map_values(|s: &str| s@) =~= seq!["-c"@]);
    CommandLine { program: String::from_str("sh"), args, dir: None }
}

/// Every package is kept out of the system update once: the ignored
/// packages are exactly those of `ignore_packages` and
/// `manual_update_packages`, and none of them is named twice.
pub proof fn law_each_ignored_once(c: Config)
    ensures
        forall|x: Seq<char>| ignored_packages(c).contains(x) <==>
            (string_views(c.system_update.ignore_packages@).contains(x) || string_views(c.manual_update_packages@).contains(x)),
        forall|i: int, j: int| 0 <= i < j < ignored_packages(c).len() ==> ignored_packages(c)[i] != ignored_packages(c)[j],
{
    let a = string_views(c.system_update.ignore_packages@);
    let b = string_views(c.manual_update_packages@);
    lemma_first_occurrences(a + b);
    assert forall|x: Seq<char>| (a + b).contains(x) <==> (a.contains(x) || b.contains(x)) by {
        if (a + b).contains(x) {
            let k = choose|k: int| 0 <= k < (a + b).len() && (a + b)[k] == x;
            if k < a.len() {
                assert(a[k] == x);
            } else {
                assert(b[k - a.len()] == x);
            }
        }
        if a.contains(x) {
            let k = choose|k: int| 0 <= k < a.len() && a[k] == x;
            assert((a + b)[k] == x);
        }
        if b.contains(x) {
            let k = choose|k: int| 0 <= k < b.len() && b[k] == x;
            assert((a + b)[a.len() + k] == x);
        }
    }
}

} // verus!
