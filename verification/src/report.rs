use vstd::prelude::*;
use crate::config::{BuildConfig, Config, PackageConfig, PathsConfig, SystemUpdateConfig, package_names, repo_names};
use crate::order::{all_keys, chars_lt, key_views, keys_lt, lemma_chars_lt_irreflexive, lemma_chars_lt_total, sorted_positions};
use crate::text::str_chars;

verus! {

broadcast use vstd::string::group_string_axioms;

/// How a line of the configuration report is shown.
#[derive(Debug, Clone, Copy, PartialEq, Eq)]
pub enum LineStyle {
    /// The report's title.
    Title,
    /// The rule under the title.
    Rule,
    /// A section heading.
    Heading,
    /// A package name in the profiles section.
    Name,
    /// Any other line.
    Plain,
}

/// One line of the configuration report.
#[derive(Debug)]
pub struct ReportLine {
    pub text: String,
    pub style: LineStyle,
}

pub open spec fn line_views(v: Seq<ReportLine>) -> Seq<(Seq<char>, LineStyle)> {
    v.map_values(|l: ReportLine| (l.text@, l.style))
}

pub open spec fn plain(t: Seq<char>) -> (Seq<char>, LineStyle) {
    (t, LineStyle::Plain)
}

pub open spec fn title_lines() -> Seq<(Seq<char>, LineStyle)> {
    seq![("Arch-Emerge Configuration"@, LineStyle::Title), ("-------------------------"@, LineStyle::Rule)]
}

/// A blank line, then the heading.
pub open spec fn section_start(title: Seq<char>) -> Seq<(Seq<char>, LineStyle)> {
    seq![plain(Seq::empty()), (title, LineStyle::Heading)]
}

pub open spec fn bool_text(b: bool) -> Seq<char> {
    if b { "true"@ } else { "false"@ }
}

pub open spec fn paths_lines(p: PathsConfig) -> Seq<(Seq<char>, LineStyle)> {
    section_start("Paths"@) + seq![
        plain("  packages_path: "@ + p.packages_path@),
        plain("  chroot_base_path: "@ + p.chroot_base_path@),
        plain("  ready_made_packages_path: "@ + p.ready_made_packages_path@),
    ]
}

pub open spec fn build_lines(b: BuildConfig) -> Seq<(Seq<char>, LineStyle)> {
    section_start("Build"@) + seq![
        plain("  default_environment: "@ + b.default_environment@),
        plain("  ignore_compilation_failures: "@ + bool_text(b.ignore_compilation_failures)),
        plain("  compile_first_install_after: "@ + bool_text(b.compile_first_install_after)),
        plain("  clean_install_by_default: "@ + bool_text(b.clean_install_by_default)),
    ]
}

/// One line per item, each the item behind `prefix`.
pub open spec fn bullet_lines(prefix: Seq<char>, items: Seq<String>) -> Seq<(Seq<char>, LineStyle)> {
    items.map_values(|s: String| plain(prefix + s@))
}

pub open spec fn system_update_lines(u: SystemUpdateConfig) -> Seq<(Seq<char>, LineStyle)> {
    section_start("System Update"@) + seq![
        plain("  command_to_update_repositories: "@ + u.command_to_update_repositories@),
        plain("  command_to_perform_system_update: "@ + u.command_to_perform_system_update@),
        plain("  ignore_flag: "@ + u.ignore_flag@),
    ] + if u.ignore_packages.len() == 0 {
        seq![plain("  ignore_packages: (none)"@)]
    } else {
        seq![plain("  ignore_packages:"@)] + bullet_lines("    - "@, u.ignore_packages@)
    }
}

/// A titled list of names, or `(none)` when it is empty.
pub open spec fn list_lines(title: Seq<char>, items: Seq<String>) -> Seq<(Seq<char>, LineStyle)> {
    section_start(title) + if items.len() == 0 {
        seq![plain("  (none)"@)]
    } else {
        bullet_lines("  - "@, items)
    }
}

pub open spec fn repo_line(e: (String, String)) -> (Seq<char>, LineStyle) {
    plain("  "@ + e.0@ + " -> "@ + e.1@)
}

pub open spec fn repo_lines(c: Config, order: Seq<usize>) -> Seq<(Seq<char>, LineStyle)> {
    section_start("Repositories"@) + order.map_values(|k: usize| repo_line(c.repositories@[k as int]))
}

pub open spec fn opt_text(o: Option<String>) -> Seq<char> {
    match o {
        Some(s) => s@,
        None => "-"@,
    }
}

pub open spec fn tests_text(o: Option<bool>) -> Seq<char> {
    match o {
        Some(true) => "on"@,
        Some(false) => "off"@,
        None => "-"@,
    }
}

pub open spec fn alias_text(o: Option<String>) -> Seq<char> {
    match o {
        Some(s) => " alias="@ + s@,
        None => Seq::empty(),
    }
}

pub open spec fn profile_line(p: PackageConfig) -> Seq<char> {
    "    source="@ + opt_text(p.source) + " build_env="@ + opt_text(p.build_env) + " tests="@
        + tests_text(p.tests) + alias_text(p.alias)
}

/// The line `label` and the command, where there is a command.
pub open spec fn command_lines(label: Seq<char>, o: Option<String>) -> Seq<(Seq<char>, LineStyle)> {
    match o {
        Some(s) => seq![plain(label + s@)],
        None => Seq::empty(),
    }
}

pub open spec fn package_block(e: (String, PackageConfig)) -> Seq<(Seq<char>, LineStyle)> {
    seq![("  - "@ + e.0@, LineStyle::Name), plain(profile_line(e.1))]
        + command_lines("    custom_local_build_command: "@, e.1.custom_local_build_command)
        + command_lines("    custom_chroot_build_command: "@, e.1.custom_chroot_build_command)
        + command_lines("    pre_update_command: "@, e.1.pre_update_command)
        + command_lines("    post_update_command: "@, e.1.post_update_command)
}

pub open spec fn profile_lines(c: Config, order: Seq<usize>) -> Seq<(Seq<char>, LineStyle)> {
    section_start("Package Profiles"@) + order.map_values(|k: usize| package_block(c.packages@[k as int])).flatten()
}

/// The whole report, with the repositories and the packages listed in the
/// given orders.
pub open spec fn report(c: Config, repo_order: Seq<usize>, package_order: Seq<usize>) -> Seq<(Seq<char>, LineStyle)> {
    title_lines() + paths_lines(c.paths) + build_lines(c.build) + system_update_lines(c.system_update)
        + repo_lines(c, repo_order)
        + list_lines("Manual Update Packages"@, c.manual_update_packages@)
        + list_lines("Skip Install Packages"@, c.skip_install_packages@)
        + profile_lines(c, package_order)
}

/// `order` lists each position below `n` once.
pub open spec fn is_arrangement(order: Seq<usize>, n: nat) -> bool {
    &&& order.len() == n
    &&& forall|i: int| 0 <= i < order.len() ==> #[trigger] order[i] < n
    &&& forall|p: usize| p < n ==> order.contains(p)
}

/// The repository named `default` comes first; the others follow by name.
pub open spec fn repo_before(a: Seq<char>, b: Seq<char>) -> bool {
    if (a == "default"@) != (b == "default"@) {
        a == "default"@
    } else {
        chars_lt(a, b)
    }
}

pub open spec fn repo_order_ok(names: Seq<Seq<char>>, order: Seq<usize>) -> bool {
    &&& is_arrangement(order, names.len())
    &&& forall|i: int, j: int| 0 <= i < j < order.len() ==> repo_before(names[order[i] as int], names[order[j] as int])
}

pub open spec fn package_order_ok(names: Seq<Seq<char>>, order: Seq<usize>) -> bool {
    &&& is_arrangement(order, names.len())
    &&& forall|i: int, j: int| 0 <= i < j < order.len() ==> chars_lt(names[order[i] as int], names[order[j] as int])
}

// ---------------------------------------------------------------------------
// Building the lines
// ---------------------------------------------------------------------------

fn push_line(out: &mut Vec<ReportLine>, text: String, style: LineStyle)
    ensures
        line_views(final(out)@) == line_views(old(out)@).push((text@, style)),
{
    let ghost before = out@;
    let ghost t = text@;
    out.push(ReportLine { text, style });
    assert(line_views(out@) =~= line_views(before).push((t, style)));
}

fn cat(a: &str, b: &str) -> (r: String)
    ensures
        r@ == a@ + b@,
{
    let mut s = String::from_str(a);
    s.append(b);
    s
}

fn push_section_start(out: &mut Vec<ReportLine>, title: &str)
    ensures
        line_views(final(out)@) == line_views(old(out)@) + section_start(title@),
{
    let ghost before = line_views(out@);
    push_line(out, String::new(), LineStyle::Plain);
    push_line(out, String::from_str(title), LineStyle::Heading);
    assert(line_views(out@) =~= before + section_start(title@));
}

fn bool_string(b: bool) -> (r: &'static str)
    ensures
        r@ == bool_text(b),
{
    if b { "true" } else { "false" }
}

fn push_bullets(out: &mut Vec<ReportLine>, prefix: &str, items: &Vec<String>)
    ensures
        line_views(final(out)@) == line_views(old(out)@) + bullet_lines(prefix@, items@),
{
    let ghost before = line_views(out@);
    let mut i: usize = 0;
    while i < items.len()
        invariant
            i <= items.len(),
            line_views(out@) == before + bullet_lines(prefix@, items@.take(i as int)),
        decreases items.len() - i,
    {
        push_line(out, cat(prefix, items[i].as_str()), LineStyle::Plain);
        assert(bullet_lines(prefix@, items@.take(i + 1)) =~= bullet_lines(prefix@, items@.take(i as int)).push(
            plain(prefix@ + items@[i as int]@),
        ));
        i = i + 1;
    }
    assert(items@.take(items.len() as int) =~= items@);
}

fn push_paths(out: &mut Vec<ReportLine>, p: &PathsConfig)
    ensures
        line_views(final(out)@) == line_views(old(out)@) + paths_lines(*p),
{
    let ghost before = line_views(out@);
    push_section_start(out, "Paths");
    push_line(out, cat("  packages_path: ", p.packages_path.as_str()), LineStyle::Plain);
    push_line(out, cat("  chroot_base_path: ", p.chroot_base_path.as_str()), LineStyle::Plain);
    push_line(out, cat("  ready_made_packages_path: ", p.ready_made_packages_path.as_str()), LineStyle::Plain);
    assert(line_views(out@) =~= before + paths_lines(*p));
}

fn push_build(out: &mut Vec<ReportLine>, b: &BuildConfig)
    ensures
        line_views(final(out)@) == line_views(old(out)@) + build_lines(*b),
{
    let ghost before = line_views(out@);
    push_section_start(out, "Build");
    push_line(out, cat("  default_environment: ", b.default_environment.as_str()), LineStyle::Plain);
    push_line(out, cat("  ignore_compilation_failures: ", bool_string(b.ignore_compilation_failures)), LineStyle::Plain);
    push_line(out, cat("  compile_first_install_after: ", bool_string(b.compile_first_install_after)), LineStyle::Plain);
    push_line(out, cat("  clean_install_by_default: ", bool_string(b.clean_install_by_default)), LineStyle::Plain);
    assert(line_views(out@) =~= before + build_lines(*b));
}

fn push_system_update(out: &mut Vec<ReportLine>, u: &SystemUpdateConfig)
    ensures
        line_views(final(out)@) == line_views(old(out)@) + system_update_lines(*u),
{
    let ghost before = line_views(out@);
    push_section_start(out, "System Update");
    push_line(out, cat("  command_to_update_repositories: ", u.command_to_update_repositories.as_str()), LineStyle::Plain);
    push_line(out, cat("  command_to_perform_system_update: ", u.command_to_perform_system_update.as_str()), LineStyle::Plain);
    push_line(out, cat("  ignore_flag: ", u.ignore_flag.as_str()), LineStyle::Plain);
    let ghost mid = line_views(out@);
    if u.ignore_packages.len() == 0 {
        push_line(out, String::from_str("  ignore_packages: (none)"), LineStyle::Plain);
    } else {
        push_line(out, String::from_str("  ignore_packages:"), LineStyle::Plain);
        push_bullets(out, "    - ", &u.ignore_packages);
    }
    assert(mid =~= before + section_start("System Update"@) + seq![
        plain("  command_to_update_repositories: "@ + u.command_to_update_repositories@),
        plain("  command_to_perform_system_update: "@ + u.command_to_perform_system_update@),
        plain("  ignore_flag: "@ + u.ignore_flag@),
    ]);
    assert(line_views(out@) =~= before + system_update_lines(*u));
}

fn push_list(out: &mut Vec<ReportLine>, title: &str, items: &Vec<String>)
    ensures
        line_views(final(out)@) == line_views(old(out)@) + list_lines(title@, items@),
{
    let ghost before = line_views(out@);
    push_section_start(out, title);
    if items.len() == 0 {
        push_line(out, String::from_str("  (none)"), LineStyle::Plain);
    } else {
        push_bullets(out, "  - ", items);
    }
    assert(line_views(out@) =~= before + list_lines(title@, items@));
}

fn opt_string(o: &Option<String>) -> (r: &str)
    ensures
        r@ == opt_text(*o),
{
    match o {
        Some(s) => s.as_str(),
        None => "-",
    }
}

fn tests_string(o: Option<bool>) -> (r: &'static str)
    ensures
        r@ == tests_text(o),
        (r@ == "on"@) <==> o == Some(true),
        (r@ == "off"@) <==> o == Some(false),
        (r@ == "-"@) <==> o is None,
{
    proof {
        law_tests_field(o);
    }
    match o {
        Some(true) => "on",
        Some(false) => "off",
        None => "-",
    }
}

fn profile_string(p: &PackageConfig) -> (r: String)
    ensures
        r@ == profile_line(*p),
{
    let mut s = String::from_str("    source=");
    s.append(opt_string(&p.source));
    s.append(" build_env=");
    s.append(opt_string(&p.build_env));
    s.append(" tests=");
    s.append(tests_string(p.tests));
    match &p.alias {
        Some(a) => {
            s.append(" alias=");
            s.append(a.as_str());
            assert(s@ =~= profile_line(*p));
        },
        None => {
            assert(s@ =~= profile_line(*p));
        },
    }
    s
}

fn push_command(out: &mut Vec<ReportLine>, label: &str, o: &Option<String>)
    ensures
        line_views(final(out)@) == line_views(old(out)@) + command_lines(label@, *o),
{
    let ghost before = line_views(out@);
    match o {
        Some(cmd) => {
            push_line(out, cat(label, cmd.as_str()), LineStyle::Plain);
        },
        None => {},
    }
    assert(line_views(out@) =~= before + command_lines(label@, *o));
}

fn push_package(out: &mut Vec<ReportLine>, name: &String, p: &PackageConfig)
    ensures
        line_views(final(out)@) == line_views(old(out)@) + package_block((*name, *p)),
{
    let ghost before = line_views(out@);
    push_line(out, cat("  - ", name.as_str()), LineStyle::Name);
    push_line(out, profile_string(p), LineStyle::Plain);
    push_command(out, "    custom_local_build_command: ", &p.custom_local_build_command);
    push_command(out, "    custom_chroot_build_command: ", &p.custom_chroot_build_command);
    push_command(out, "    pre_update_command: ", &p.pre_update_command);
    push_command(out, "    post_update_command: ", &p.post_update_command);
    assert(line_views(out@) =~= before + package_block((*name, *p)));
}

} // verus!

verus! {

pub open spec fn repo_tag(a: Seq<char>) -> Seq<char> {
    if a == "default"@ { Seq::empty() } else { seq!['~'] }
}

pub open spec fn repo_key(a: Seq<char>) -> Seq<Seq<char>> {
    seq![repo_tag(a), a]
}

proof fn lemma_repo_key_lt(a: Seq<char>, b: Seq<char>)
    ensures
        keys_lt(repo_key(a), repo_key(b)) == repo_before(a, b),
{
    let ka = repo_key(a);
    let kb = repo_key(b);
    assert(ka.skip(1) =~= seq![a]);
    assert(kb.skip(1) =~= seq![b]);
    assert(seq![a].skip(1) =~= Seq::<Seq<char>>::empty());
    assert(seq![b].skip(1) =~= Seq::<Seq<char>>::empty());
    lemma_chars_lt_irreflexive(a);
    assert(chars_lt(Seq::empty(), seq!['~']));
    assert(!chars_lt(seq!['~'], Seq::empty()));
    reveal_with_fuel(keys_lt, 3);
}

proof fn lemma_name_key_lt(a: Seq<char>, b: Seq<char>)
    ensures
        keys_lt(seq![a], seq![b]) == chars_lt(a, b),
{
    assert(seq![a].skip(1) =~= Seq::<Seq<char>>::empty());
    assert(seq![b].skip(1) =~= Seq::<Seq<char>>::empty());
    lemma_chars_lt_irreflexive(a);
    reveal_with_fuel(keys_lt, 2);
}

fn is_default_name(s: &String) -> (r: bool)
    ensures
        r == (s@ == "default"@),
{
    let d = String::from_str("default");
    *s == d
}

/// The order in which the repositories are listed.
fn repository_order(c: &Config) -> (r: Vec<usize>)
    requires
        c.wf(),
    ensures
        repo_order_ok(repo_names(*c), r@),
{
    let ghost names = repo_names(*c);
    let mut keys: Vec<Vec<Vec<char>>> = Vec::new();
    let mut i: usize = 0;
    while i < c.repositories.len()
        invariant
            i <= c.repositories.len(),
            names == repo_names(*c),
            keys.len() == i,
            forall|k: int| 0 <= k < i ==> #[trigger] all_keys(keys@)[k] == repo_key(names[k]),
        decreases c.repositories.len() - i,
    {
        let name = &c.repositories[i].0;
        let mut tag: Vec<char> = Vec::new();
        if !is_default_name(name) {
            tag.push('~');
        }
        assert(tag@ =~= repo_tag(name@));
        let mut key: Vec<Vec<char>> = Vec::new();
        key.push(tag);
        key.push(str_chars(name.as_str()));
        let ghost before = keys@;
        keys.push(key);
        proof {
            assert(names[i as int] == name@);
            assert(key@[0]@ == repo_tag(name@));
            assert(key@[1]@ == name@);
            assert(key_views(key@) =~= repo_key(names[i as int]));
            assert forall|k: int| 0 <= k < i + 1 implies #[trigger] all_keys(keys@)[k] == repo_key(names[k]) by {
                if k < i {
                    assert(keys@[k] == before[k]);
                    assert(all_keys(before)[k] == repo_key(names[k]));
                }
            }
        }
        i = i + 1;
    }
    proof {
        assert forall|a: int, b: int| 0 <= a < b < keys.len() implies all_keys(keys@)[a] != all_keys(keys@)[b] by {
            assert(all_keys(keys@)[a] == repo_key(names[a]));
            assert(all_keys(keys@)[b] == repo_key(names[b]));
            assert(names[a] != names[b]);
            assert(repo_key(names[a])[1] == names[a]);
            assert(repo_key(names[b])[1] == names[b]);
        }
    }
    let order = sorted_positions(&keys);
    proof {
        assert forall|a: int, b: int| 0 <= a < b < order@.len() implies repo_before(names[order@[a] as int], names[order@[b] as int]) by {
            assert(order@[a] < keys.len());
            assert(order@[b] < keys.len());
            assert(all_keys(keys@)[order@[a] as int] == repo_key(names[order@[a] as int]));
            assert(all_keys(keys@)[order@[b] as int] == repo_key(names[order@[b] as int]));
            lemma_repo_key_lt(names[order@[a] as int], names[order@[b] as int]);
        }
    }
    order
}

/// The order in which the package profiles are listed.
fn package_order(c: &Config) -> (r: Vec<usize>)
    requires
        c.wf(),
    ensures
        package_order_ok(package_names(*c), r@),
{
    let ghost names = package_names(*c);
    let mut keys: Vec<Vec<Vec<char>>> = Vec::new();
    let mut i: usize = 0;
    while i < c.packages.len()
        invariant
            i <= c.packages.len(),
            names == package_names(*c),
            keys.len() == i,
            forall|k: int| 0 <= k < i ==> #[trigger] all_keys(keys@)[k] == seq![names[k]],
        decreases c.packages.len() - i,
    {
        let mut key: Vec<Vec<char>> = Vec::new();
        key.push(str_chars(c.packages[i].0.as_str()));
        let ghost before = keys@;
        keys.push(key);
        proof {
            assert(names[i as int] == c.packages@[i as int].0@);
            assert(key_views(key@) =~= seq![names[i as int]]);
            assert forall|k: int| 0 <= k < i + 1 implies #[trigger] all_keys(keys@)[k] == seq![names[k]] by {
                if k < i {
                    assert(keys@[k] == before[k]);
                    assert(all_keys(before)[k] == seq![names[k]]);
                }
            }
        }
        i = i + 1;
    }
    proof {
        assert forall|a: int, b: int| 0 <= a < b < keys.len() implies all_keys(keys@)[a] != all_keys(keys@)[b] by {
            assert(all_keys(keys@)[a] == seq![names[a]]);
            assert(all_keys(keys@)[b] == seq![names[b]]);
            assert(seq![names[a]][0] == names[a]);
            assert(seq![names[b]][0] == names[b]);
        }
    }
    let order = sorted_positions(&keys);
    proof {
        assert forall|a: int, b: int| 0 <= a < b < order@.len() implies chars_lt(names[order@[a] as int], names[order@[b] as int]) by {
            assert(order@[a] < keys.len());
            assert(order@[b] < keys.len());
            assert(all_keys(keys@)[order@[a] as int] == seq![names[order@[a] as int]]);
            assert(all_keys(keys@)[order@[b] as int] == seq![names[order@[b] as int]]);
            lemma_name_key_lt(names[order@[a] as int], names[order@[b] as int]);
        }
    }
    order
}

fn push_repositories(out: &mut Vec<ReportLine>, c: &Config, order: &Vec<usize>)
    requires
        forall|i: int| 0 <= i < order.len() ==> #[trigger] order@[i] < c.repositories.len(),
    ensures
        line_views(final(out)@) == line_views(old(out)@) + repo_lines(*c, order@),
{
    let ghost before = line_views(out@);
    push_section_start(out, "Repositories");
    let ghost start = line_views(out@);
    let mut i: usize = 0;
    while i < order.len()
        invariant
            i <= order.len(),
            forall|k: int| 0 <= k < order.len() ==> #[trigger] order@[k] < c.repositories.len(),
            line_views(out@) == start + order@.take(i as int).map_values(|k: usize| repo_line(c.repositories@[k as int])),
        decreases order.len() - i,
    {
        let e = &c.repositories[order[i]];
        let mut t = String::from_str("  ");
        t.append(e.0.as_str());
        t.append(" -> ");
        t.append(e.1.as_str());
        push_line(out, t, LineStyle::Plain);
        assert(order@.take(i + 1).map_values(|k: usize| repo_line(c.repositories@[k as int])) =~=
            order@.take(i as int).map_values(|k: usize| repo_line(c.repositories@[k as int])).push(repo_line(*e)));
        i = i + 1;
    }
    assert(order@.take(order.len() as int) =~= order@);
    assert(line_views(out@) =~= before + repo_lines(*c, order@));
}

fn push_profiles(out: &mut Vec<ReportLine>, c: &Config, order: &Vec<usize>)
    requires
        forall|i: int| 0 <= i < order.len() ==> #[trigger] order@[i] < c.packages.len(),
    ensures
        line_views(final(out)@) == line_views(old(out)@) + profile_lines(*c, order@),
{
    let ghost before = line_views(out@);
    push_section_start(out, "Package Profiles");
    let ghost start = line_views(out@);
    let mut i: usize = 0;
    assert(order@.take(0).map_values(|k: usize| package_block(c.packages@[k as int])) =~= Seq::<Seq<(Seq<char>, LineStyle)>>::empty());
    while i < order.len()
        invariant
            i <= order.len(),
            forall|k: int| 0 <= k < order.len() ==> #[trigger] order@[k] < c.packages.len(),
            line_views(out@) == start + order@.take(i as int).map_values(|k: usize| package_block(c.packages@[k as int])).flatten(),
        decreases order.len() - i,
    {
        let e = &c.packages[order[i]];
        let ghost pre = order@.take(i as int).map_values(|k: usize| package_block(c.packages@[k as int]));
        push_package(out, &e.0, &e.1);
        assert(order@.take(i + 1).map_values(|k: usize| package_block(c.packages@[k as int])) =~= pre.push(package_block(*e)));
        proof { pre.lemma_flatten_push(package_block(*e)); }
        i = i + 1;
    }
    assert(order@.take(order.len() as int) =~= order@);
    assert(line_views(out@) =~= before + profile_lines(*c, order@));
}

impl Config {
    /// The lines of the configuration report (`--list`), each with how it is
    /// shown: the title, then the paths, the build settings, the system
    /// update settings, the repositories (`default` first, the others by
    /// name), the manual update and skip install lists, and a profile per
    /// package, by name.
    pub fn report_lines(&self) -> (r: Vec<ReportLine>)
        requires
            self.wf(),
        ensures
            exists|ro: Seq<usize>, po: Seq<usize>|
                repo_order_ok(repo_names(*self), ro) && package_order_ok(package_names(*self), po)
                && line_views(r@) == report(*self, ro, po),
    {
        let mut out: Vec<ReportLine> = Vec::new();
        push_line(&mut out, String::from_str("Arch-Emerge Configuration"), LineStyle::Title);
        push_line(&mut out, String::from_str("-------------------------"), LineStyle::Rule);
        assert(line_views(out@) =~= title_lines());
        push_paths(&mut out, &self.paths);
        push_build(&mut out, &self.build);
        push_system_update(&mut out, &self.system_update);
        let ro = repository_order(self);
        push_repositories(&mut out, self, &ro);
        push_list(&mut out, "Manual Update Packages", &self.manual_update_packages);
        push_list(&mut out, "Skip Install Packages", &self.skip_install_packages);
        let po = package_order(self);
        push_profiles(&mut out, self, &po);
        assert(repo_order_ok(repo_names(*self), ro@) && package_order_ok(package_names(*self), po@)
            && line_views(out@) == report(*self, ro@, po@));
        out
    }
}

} // verus!

verus! {

/// In every listing order that the report may use, the repository named
/// `default` comes first and each repository is listed once.
pub proof fn law_default_repository_first(names: Seq<Seq<char>>, order: Seq<usize>, d: int)
    requires
        repo_order_ok(names, order),
        names.len() <= usize::MAX,
        0 <= d < names.len(),
        names[d] == "default"@,
    ensures
        names[order[0] as int] == "default"@,
        forall|i: int, j: int| 0 <= i < j < order.len() ==> order[i] != order[j],
{
    assert(order.contains(d as usize));
    let k = choose|k: int| 0 <= k < order.len() && order[k] == d as usize;
    if k > 0 {
        assert(repo_before(names[order[0] as int], names[order[k] as int]));
    }
    assert forall|i: int, j: int| 0 <= i < j < order.len() implies order[i] != order[j] by {
        let a = names[order[i] as int];
        lemma_chars_lt_irreflexive(a);
        assert(repo_before(a, names[order[j] as int]));
    }
}

} // verus!

verus! {

/// Two arrangements of the same names, each ordered by an asymmetric
/// relation, agree on their first `k` positions.
proof fn lemma_sorted_prefix_equal(
    names: Seq<Seq<char>>,
    o1: Seq<usize>,
    o2: Seq<usize>,
    before: spec_fn(Seq<char>, Seq<char>) -> bool,
    k: int,
)
    requires
        names.len() <= usize::MAX,
        is_arrangement(o1, names.len()),
        is_arrangement(o2, names.len()),
        forall|i: int, j: int| 0 <= i < j < o1.len() ==> before(names[o1[i] as int], names[o1[j] as int]),
        forall|i: int, j: int| 0 <= i < j < o2.len() ==> before(names[o2[i] as int], names[o2[j] as int]),
        forall|a: Seq<char>, b: Seq<char>| !(#[trigger] before(a, b) && before(b, a)),
        0 <= k <= o1.len(),
    ensures
        forall|i: int| 0 <= i < k ==> o1[i] == o2[i],
    decreases k,
{
    if k > 0 {
        lemma_sorted_prefix_equal(names, o1, o2, before, k - 1);
        let m = k - 1;
        if o1[m] != o2[m] {
            assert(o2.contains(o1[m]));
            let q = choose|q: int| 0 <= q < o2.len() && o2[q] == o1[m];
            assert(o1.contains(o2[m]));
            let p = choose|p: int| 0 <= p < o1.len() && o1[p] == o2[m];
            if q < m {
                assert(o1[q] == o1[m]);
                assert(before(names[o1[q] as int], names[o1[m] as int]));
            } else if p < m {
                assert(o2[p] == o2[m]);
                assert(before(names[o2[p] as int], names[o2[m] as int]));
            } else {
                assert(q > m && p > m);
                assert(before(names[o2[m] as int], names[o2[q] as int]));
                assert(before(names[o1[m] as int], names[o1[p] as int]));
            }
        }
    }
}

/// The repositories can be listed in one order only, so the report is
/// determined by the configuration.
pub proof fn law_repository_order_unique(names: Seq<Seq<char>>, o1: Seq<usize>, o2: Seq<usize>)
    requires
        names.len() <= usize::MAX,
        repo_order_ok(names, o1),
        repo_order_ok(names, o2),
    ensures
        o1 == o2,
{
    let before = |a: Seq<char>, b: Seq<char>| repo_before(a, b);
    assert forall|a: Seq<char>, b: Seq<char>| !(#[trigger] before(a, b) && before(b, a)) by {
        lemma_chars_lt_total(a, b);
    }
    lemma_sorted_prefix_equal(names, o1, o2, before, o1.len() as int);
    assert(o1 =~= o2);
}

/// The package profiles can be listed in one order only.
pub proof fn law_package_order_unique(names: Seq<Seq<char>>, o1: Seq<usize>, o2: Seq<usize>)
    requires
        names.len() <= usize::MAX,
        package_order_ok(names, o1),
        package_order_ok(names, o2),
    ensures
        o1 == o2,
{
    let before = |a: Seq<char>, b: Seq<char>| chars_lt(a, b);
    assert forall|a: Seq<char>, b: Seq<char>| !(#[trigger] before(a, b) && before(b, a)) by {
        lemma_chars_lt_total(a, b);
    }
    lemma_sorted_prefix_equal(names, o1, o2, before, o1.len() as int);
    assert(o1 =~= o2);
}

} // verus!

verus! {

/// The `tests=` field of a package profile reads `on` exactly when the
/// package's tests setting is true, `off` exactly when it is false, and `-`
/// exactly when it is unset.
pub proof fn law_tests_field(t: Option<bool>)
    ensures
        (tests_text(t) == "on"@) <==> t == Some(true),
        (tests_text(t) == "off"@) <==> t == Some(false),
        (tests_text(t) == "-"@) <==> t is None,
{
    reveal_strlit("on");
    reveal_strlit("off");
    reveal_strlit("-");
    assert("on"@.len() != "off"@.len());
    assert("on"@.len() != "-"@.len());
    assert("off"@.len() != "-"@.len());
}

} // verus!
