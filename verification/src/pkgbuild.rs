use vstd::prelude::*;
use crate::text::{
    all_ascii_digits, chars_string, decimal_chars, is_white_space, parse_u32_chars,
    parse_u32_digits, push_decimal, push_str_chars, str_chars, char_is_whitespace,
};
use crate::command::CommandLine;
use crate::maintenance::{join_path, join_path_str};

verus! {

broadcast use vstd::string::group_string_axioms;

// ---------------------------------------------------------------------------
// The PKGBUILD line format
// ---------------------------------------------------------------------------

/// The text `pkgrel=` that opens a release line.
pub open spec fn pkgrel_key() -> Seq<char> {
    seq!['p', 'k', 'g', 'r', 'e', 'l', '=']
}

/// Position `i` starts a line: it is the start of the text or follows a `\n`.
pub open spec fn is_line_start(s: Seq<char>, i: int) -> bool {
    i == 0 || (0 < i <= s.len() && s[i - 1] == '\n')
}

/// A line that begins with `pkgrel=` starts at position `i`.
pub open spec fn pkgrel_line_at(s: Seq<char>, i: int) -> bool {
    &&& is_line_start(s, i)
    &&& 0 <= i
    &&& i + 7 <= s.len()
    &&& s.subrange(i, i + 7) == pkgrel_key()
}

/// The end of the line that holds position `i`: the next `\n` at or after
/// `i`, or the end of the text.
pub open spec fn line_end(s: Seq<char>, i: int) -> int
    decreases s.len() - i,
{
    if i >= s.len() {
        s.len() as int
    } else if s[i] == '\n' {
        i
    } else {
        line_end(s, i + 1)
    }
}

/// The first position at or after `i` where a `pkgrel=` line starts.
pub open spec fn first_pkgrel_line(s: Seq<char>, i: int) -> Option<int>
    decreases s.len() - i,
{
    if i >= s.len() {
        None
    } else if pkgrel_line_at(s, i) {
        Some(i)
    } else {
        first_pkgrel_line(s, i + 1)
    }
}

/// What the multi-line pattern `^pkgrel=(.*)$` captures first: the rest of
/// the first line that begins with `pkgrel=`.
pub open spec fn pkgrel_capture(s: Seq<char>) -> Option<Seq<char>> {
    match first_pkgrel_line(s, 0) {
        Some(i) => Some(s.subrange(i + 7, line_end(s, i + 7))),
        None => None,
    }
}

/// The text with every line that begins with `pkgrel=` replaced, up to its
/// end-of-line, by `rep` (`skipping`: inside a replaced line).
pub open spec fn rewrite_pkgrel_lines(s: Seq<char>, rep: Seq<char>, i: int, skipping: bool) -> Seq<char>
    decreases s.len() - i,
{
    if i < 0 || i >= s.len() {
        Seq::empty()
    } else if skipping && s[i] != '\n' {
        rewrite_pkgrel_lines(s, rep, i + 1, true)
    } else if pkgrel_line_at(s, i) {
        rep + rewrite_pkgrel_lines(s, rep, i + 1, true)
    } else {
        seq![s[i]] + rewrite_pkgrel_lines(s, rep, i + 1, false)
    }
}

/// What replacing every `pkgrel=` line by `rep` gives: each such line,
/// up to its end, becomes `rep` as written; every other line is kept.
pub open spec fn pkgrel_rewrite(s: Seq<char>, rep: Seq<char>) -> Seq<char> {
    rewrite_pkgrel_lines(s, rep, 0, false)
}

/// The last position before `i` that holds `c`, or -1.
pub open spec fn last_index_before(s: Seq<char>, c: char, i: int) -> int
    decreases i,
{
    if i <= 0 {
        -1
    } else if s[i - 1] == c {
        i - 1
    } else {
        last_index_before(s, c, i - 1)
    }
}

/// What the pattern `^(.*)\.([0-9]+)$` captures: the text before the last
/// `.` and the digits after it, when everything after that `.` is a
/// non-empty run of ASCII digits and no line break comes before it.
pub open spec fn numeric_suffix(s: Seq<char>) -> Option<(Seq<char>, Seq<char>)> {
    let k = last_index_before(s, '.', s.len() as int);
    if 0 <= k && k + 1 < s.len() && all_ascii_digits(s.subrange(k + 1, s.len() as int))
        && !s.subrange(0, k).contains('\n') {
        Some((s.subrange(0, k), s.subrange(k + 1, s.len() as int)))
    } else {
        None
    }
}

/// The first position holding `c`, or the length when there is none.
pub open spec fn index_or_len(s: Seq<char>, c: char) -> int
    decreases s.len(),
{
    if s.len() == 0 {
        0
    } else {
        let p = index_or_len(s.drop_last(), c);
        if p < s.len() - 1 {
            p
        } else if s.last() == c {
            s.len() - 1
        } else {
            s.len() as int
        }
    }
}

/// `s` without its double quotes, single quotes and whitespace.
pub open spec fn strip_quotes_ws(s: Seq<char>) -> Seq<char>
    decreases s.len(),
{
    if s.len() == 0 {
        Seq::empty()
    } else {
        let r = strip_quotes_ws(s.drop_last());
        let c = s.last();
        if c == '"' || c == '\'' || is_white_space(c) {
            r
        } else {
            r.push(c)
        }
    }
}

/// The release value of a PKGBUILD text: the first `pkgrel=` line's value,
/// cut at the first `#`, without quotes and whitespace; none when empty.
pub open spec fn pkgrel_value(text: Seq<char>) -> Option<Seq<char>> {
    match pkgrel_capture(text) {
        Some(raw) => {
            let v = strip_quotes_ws(raw.take(index_or_len(raw, '#')));
            if v.len() > 0 {
                Some(v)
            } else {
                None
            }
        },
        None => None,
    }
}

pub open spec fn dot_two() -> Seq<char> {
    seq!['.', '2']
}

/// One bump step from a release value: `x.N` with `N >= 2` becomes
/// `x.(N+1)`; anything else gets `.2` appended.
pub open spec fn next_pkgrel(b: Seq<char>) -> Seq<char> {
    match numeric_suffix(b) {
        Some((base, digits)) => match parse_u32_digits(digits) {
            Some(v) => if v >= 2 {
                base + seq!['.'] + decimal_chars((v + 1) as nat)
            } else {
                b + dot_two()
            },
            None => b + dot_two(),
        },
        None => b + dot_two(),
    }
}

/// The bump step would add one to `u32::MAX`.
pub open spec fn next_pkgrel_overflows(b: Seq<char>) -> bool {
    match numeric_suffix(b) {
        Some((base, digits)) => parse_u32_digits(digits) == Some(u32::MAX),
        None => false,
    }
}

/// `pkgrel=1.2` and a line break, appended after a line break.
pub open spec fn with_default_pkgrel(live: Seq<char>) -> Seq<char> {
    let head = if live.len() > 0 && live.last() != '\n' {
        live.push('\n')
    } else {
        live
    };
    head + pkgrel_key() + seq!['1', '.', '2', '\n']
}

/// The text holds a `pkgrel=` line.
pub open spec fn has_pkgrel_line(s: Seq<char>) -> bool {
    pkgrel_capture(s) is Some
}

/// The release value that a bump starts from: the live one where it
/// differs from the backup's (a bump that was never restored), else the
/// backup's, else the live one; empty when neither has one.
pub open spec fn bump_baseline(live: Seq<char>, backup: Seq<char>) -> Seq<char> {
    let backup_has = backup.len() > 0 && has_pkgrel_line(backup);
    let live_p = pkgrel_value(live);
    let backup_p = if backup_has { pkgrel_value(backup) } else { None };
    match (live_p, backup_p) {
        (Some(l), Some(b)) => if l != b { l } else { b },
        (None, Some(b)) => b,
        (Some(l), None) => l,
        (None, None) => Seq::empty(),
    }
}

/// The PKGBUILD text after one bump, given the live text and the backup
/// text (empty when there is no backup).
pub open spec fn bumped_pkgbuild(live: Seq<char>, backup: Seq<char>) -> Seq<char> {
    let backup_has = backup.len() > 0 && has_pkgrel_line(backup);
    if !has_pkgrel_line(live) && !backup_has {
        with_default_pkgrel(live)
    } else {
        let from = bump_baseline(live, backup);
        if from.len() == 0 {
            with_default_pkgrel(live)
        } else {
            pkgrel_rewrite(live, pkgrel_key() + next_pkgrel(from))
        }
    }
}

/// The bump would take the numeric suffix of the release past `u32::MAX`.
pub open spec fn bump_overflows(live: Seq<char>, backup: Seq<char>) -> bool {
    let backup_has = backup.len() > 0 && has_pkgrel_line(backup);
    let from = bump_baseline(live, backup);
    (has_pkgrel_line(live) || backup_has) && from.len() > 0 && next_pkgrel_overflows(from)
}

// ---------------------------------------------------------------------------
// Calls into the regex crate
// ---------------------------------------------------------------------------

/// `regex::Regex::captures` with the multi-line pattern `^pkgrel=(.*)$`:
/// claims that the first match is the first line that begins with `pkgrel=`
/// and that group 1 is the rest of that line, as the crate documents for
/// `(?m)`, `^`, `$` and `.` (which does not match `\n`).
#[verifier::external_body]
fn pkgrel_line_capture(text: &str) -> (r: Option<String>)
    ensures
        match r {
            Some(v) => pkgrel_capture(text@) == Some(v@),
            None => pkgrel_capture(text@) is None,
        },
{
    let re = regex::Regex::new(r"(?m)^pkgrel=(.*)$").unwrap();
    match re.captures(text) {
        Some(caps) => Some(caps[1].to_string()),
        None => None,
    }
}

/// `regex::Regex::captures` with the pattern `^(.*)\.([0-9]+)$`: claims that
/// it matches exactly when the text after the last `.` is a non-empty run of
/// ASCII digits and no `\n` comes before that `.`, and that the groups are
/// the two sides of that `.`.
#[verifier::external_body]
fn numeric_suffix_capture(baseline: &str) -> (r: Option<(String, String)>)
    ensures
        match r {
            Some((a, b)) => numeric_suffix(baseline@) == Some((a@, b@)),
            None => numeric_suffix(baseline@) is None,
        },
{
    let re = regex::Regex::new(r"^(.*)\.([0-9]+)$").unwrap();
    match re.captures(baseline) {
        Some(caps) => Some((caps[1].to_string(), caps[2].to_string())),
        None => None,
    }
}

/// `regex::Regex::replace_all` with the multi-line pattern `^pkgrel=.*$`
/// and the replacement wrapped in `regex::NoExpand`, so that it is inserted
/// as written: claims that every line that begins with `pkgrel=` is
/// replaced, up to its end, by the replacement and that the rest of the
/// text is kept, as the crate documents for `(?m)`, `^`, `$`, `.` (which
/// does not match `\n`) and non-overlapping leftmost matches.
#[verifier::external_body]
fn pkgrel_lines_replace_all(content: &str, replacement: String) -> (r: String)
    ensures
        r@ == rewrite_pkgrel_lines(content@, replacement@, 0, false),
{
    let re = regex::Regex::new(r"(?m)^pkgrel=.*$").unwrap();
    re.replace_all(content, regex::NoExpand(replacement.as_str())).into_owned()
}

// ---------------------------------------------------------------------------
// Executable functions
// ---------------------------------------------------------------------------

fn strip_chars(cs: &Vec<char>, n: usize) -> (r: Vec<char>)
    requires
        n <= cs.len(),
    ensures
        r@ == strip_quotes_ws(cs@.take(n as int)),
{
    let mut out: Vec<char> = Vec::new();
    let mut i: usize = 0;
    assert(cs@.take(0) =~= Seq::<char>::empty());
    while i < n
        invariant
            i <= n <= cs.len(),
            out@ == strip_quotes_ws(cs@.take(i as int)),
        decreases n - i,
    {
        let c = cs[i];
        assert(cs@.take(i + 1).drop_last() =~= cs@.take(i as int));
        assert(cs@.take(i + 1).last() == c);
        if !(c == '"' || c == '\'' || char_is_whitespace(c)) {
            out.push(c);
        }
        i = i + 1;
    }
    out
}

proof fn lemma_index_or_len(s: Seq<char>, c: char, i: int)
    requires
        0 <= i <= s.len(),
        forall|j: int| 0 <= j < i ==> s[j] != c,
        i == s.len() || s[i] == c,
    ensures
        index_or_len(s, c) == i,
    decreases s.len(),
{
    if s.len() > 0 {
        let t = s.drop_last();
        if i < s.len() - 1 {
            lemma_index_or_len(t, c, i);
        } else {
            lemma_index_or_len(t, c, t.len() as int);
        }
    }
}

fn index_of_or_len(cs: &Vec<char>, c: char) -> (r: usize)
    ensures
        r == index_or_len(cs@, c),
{
    let mut i: usize = 0;
    while i < cs.len()
        invariant
            i <= cs.len(),
            forall|j: int| 0 <= j < i ==> cs@[j] != c,
        decreases cs.len() - i,
    {
        if cs[i] == c {
            proof { lemma_index_or_len(cs@, c, i as int); }
            return i;
        }
        i = i + 1;
    }
    proof { lemma_index_or_len(cs@, c, i as int); }
    i
}

/// Drops double quotes, single quotes and whitespace from a release value,
/// as the shell filter `tr -d '"'\'' '` and a whitespace trim do.
pub fn bash_strip_pkgrel_value(raw: &str) -> (r: String)
    ensures
        r@ == strip_quotes_ws(raw@),
{
    let cs = str_chars(raw);
    let st = strip_chars(&cs, cs.len());
    assert(cs@.take(cs.len() as int) =~= cs@);
    chars_string(&st)
}

/// The release value of a PKGBUILD text (see `pkgrel_value`). Trimming the
/// value before its quotes and whitespace are dropped changes nothing, since
/// every whitespace character is dropped anyway.
pub fn extract_pkgrel_stripped(pkgbuild_text: &str) -> (r: Option<String>)
    ensures
        match r {
            Some(v) => pkgrel_value(pkgbuild_text@) == Some(v@),
            None => pkgrel_value(pkgbuild_text@) is None,
        },
{
    match pkgrel_line_capture(pkgbuild_text) {
        None => None,
        Some(raw) => {
            let cs = str_chars(raw.as_str());
            let k = index_of_or_len(&cs, '#');
            proof {
                assert(0 <= index_or_len(cs@, '#') <= cs@.len()) by {
                    lemma_index_or_len_bounds(cs@, '#');
                }
            }
            let st = strip_chars(&cs, k);
            if st.len() == 0 {
                None
            } else {
                Some(chars_string(&st))
            }
        },
    }
}

proof fn lemma_index_or_len_bounds(s: Seq<char>, c: char)
    ensures
        0 <= index_or_len(s, c) <= s.len(),
    decreases s.len(),
{
    if s.len() > 0 {
        lemma_index_or_len_bounds(s.drop_last(), c);
    }
}

/// One bump step from a non-empty release value (see `next_pkgrel`);
/// `None` exactly where adding one to the numeric suffix overflows `u32`.
pub fn compute_next_pkgrel(baseline: &str) -> (r: Option<String>)
    requires
        baseline@.len() > 0,
    ensures
        r is None <==> next_pkgrel_overflows(baseline@),
        r matches Some(v) ==> v@ == next_pkgrel(baseline@),
{
    let mut dot_two_chars: Vec<char> = str_chars(baseline);
    dot_two_chars.push('.');
    dot_two_chars.push('2');
    assert(dot_two_chars@ =~= baseline@ + dot_two());
    match numeric_suffix_capture(baseline) {
        Some((base, digits)) => {
            let dcs = str_chars(digits.as_str());
            match parse_u32_chars(&dcs) {
                Some(v) => {
                    if v >= 2 {
                        if v == 0xffff_ffffu32 {
                            return None;
                        }
                        let mut out = str_chars(base.as_str());
                        out.push('.');
                        push_decimal(&mut out, (v + 1) as u64);
                        assert(out@ =~= base@ + seq!['.'] + decimal_chars((v + 1) as nat));
                        Some(chars_string(&out))
                    } else {
                        Some(chars_string(&dot_two_chars))
                    }
                },
                None => Some(chars_string(&dot_two_chars)),
            }
        },
        None => Some(chars_string(&dot_two_chars)),
    }
}

/// Replaces every `pkgrel=` line of `content` by `pkgrel={next}` (see
/// `pkgrel_rewrite`).
pub fn replace_all_pkgrel_lines(content: &str, next: &str) -> (r: String)
    ensures
        r@ == pkgrel_rewrite(content@, pkgrel_key() + next@),
{
    let mut rep: Vec<char> = Vec::new();
    rep.push('p');
    rep.push('k');
    rep.push('g');
    rep.push('r');
    rep.push('e');
    rep.push('l');
    rep.push('=');
    push_str_chars(&mut rep, next);
    assert(rep@ =~= pkgrel_key() + next@);
    let rep_string = chars_string(&rep);
    pkgrel_lines_replace_all(content, rep_string)
}

fn append_default_pkgrel(live: &str) -> (r: String)
    ensures
        r@ == with_default_pkgrel(live@),
{
    let mut out = str_chars(live);
    if out.len() > 0 && out[out.len() - 1] != '\n' {
        out.push('\n');
    }
    let ghost head = out@;
    out.push('p');
    out.push('k');
    out.push('g');
    out.push('r');
    out.push('e');
    out.push('l');
    out.push('=');
    out.push('1');
    out.push('.');
    out.push('2');
    out.push('\n');
    assert(out@ =~= head + pkgrel_key() + seq!['1', '.', '2', '\n']);
    chars_string(&out)
}

/// The PKGBUILD text after one bump of its release (the decisions of
/// `bump_pkgrel`), from the live text and the backup text (empty when there
/// is no backup). `None` exactly where the numeric suffix would overflow.
pub fn bump_pkgrel_text(live: &str, backup: &str) -> (r: Option<String>)
    ensures
        r is None <==> bump_overflows(live@, backup@),
        r matches Some(t) ==> t@ == bumped_pkgbuild(live@, backup@),
{
    let live_has = pkgrel_line_capture(live).is_some();
    let backup_has = !backup.is_empty() && pkgrel_line_capture(backup).is_some();
    if !live_has && !backup_has {
        return Some(append_default_pkgrel(live));
    }
    let live_p = extract_pkgrel_stripped(live);
    let backup_p = if backup_has {
        extract_pkgrel_stripped(backup)
    } else {
        None
    };
    let from: String = match (live_p, backup_p) {
        (Some(l), Some(b)) => if l == b { b } else { l },
        (None, Some(b)) => b,
        (Some(l), None) => l,
        (None, None) => String::new(),
    };
    if from.as_str().is_empty() {
        return Some(append_default_pkgrel(live));
    }
    match compute_next_pkgrel(from.as_str()) {
        None => None,
        Some(next) => Some(replace_all_pkgrel_lines(live, next.as_str())),
    }
}


// ---------------------------------------------------------------------------
// The PKGBUILD files of a package directory
// ---------------------------------------------------------------------------

/// The PKGBUILD of a package directory and the backup kept of it during a
/// run: `PKGBUILD` and `.PKGBUILD.emerge_backup` under the directory.
pub fn pkgbuild_files(repo_dir: &str) -> (r: (String, String))
    ensures
        r.0@ == join_path(repo_dir@, "PKGBUILD"@),
        r.1@ == join_path(repo_dir@, ".PKGBUILD.emerge_backup"@),
{
    (join_path_str(repo_dir, "PKGBUILD"), join_path_str(repo_dir, ".PKGBUILD.emerge_backup"))
}

/// The PKGBUILD is copied to the backup only when there is a PKGBUILD and
/// no backup yet.
pub open spec fn backs_up(pkgbuild_exists: bool, backup_exists: bool) -> bool {
    pkgbuild_exists && !backup_exists
}

/// The backup is moved back over the PKGBUILD whenever there is one.
pub open spec fn restores(backup_exists: bool) -> bool {
    backup_exists
}

/// Whether `backup_pkgbuild` copies the PKGBUILD to the backup: only when
/// there is a PKGBUILD and no backup yet, so that a backup left by an
/// interrupted run, which holds the upstream release, is kept.
pub fn backup_pkgbuild(pkgbuild_exists: bool, backup_exists: bool) -> (r: bool)
    ensures
        r == backs_up(pkgbuild_exists, backup_exists),
{
    pkgbuild_exists && !backup_exists
}

/// Whether `restore_pkgbuild` moves the backup back over the PKGBUILD:
/// whenever there is a backup.
pub fn restore_pkgbuild(backup_exists: bool) -> (r: bool)
    ensures
        r == restores(backup_exists),
{
    backup_exists
}

// ---------------------------------------------------------------------------
// The PKGBUILD and its backup over a run
// ---------------------------------------------------------------------------

/// The files of a package directory are modelled as the texts of its
/// PKGBUILD and of its backup, each absent or present.
///
/// The files after `backup_pkgbuild`: where it decides to copy, the backup
/// holds the PKGBUILD's text.
pub open spec fn after_backup(f: (Option<Seq<char>>, Option<Seq<char>>)) -> (Option<Seq<char>>, Option<Seq<char>>) {
    if backs_up(f.0 is Some, f.1 is Some) {
        (f.0, f.0)
    } else {
        f
    }
}

/// The files after the PKGBUILD was written (or removed) once for each
/// entry of `edits`, in order, the backup untouched: bumps, checksum
/// updates, or any other edit.
pub open spec fn after_edits(
    f: (Option<Seq<char>>, Option<Seq<char>>),
    edits: Seq<Option<Seq<char>>>,
) -> (Option<Seq<char>>, Option<Seq<char>>)
    decreases edits.len(),
{
    if edits.len() == 0 {
        f
    } else {
        (edits.last(), after_edits(f, edits.drop_last()).1)
    }
}

/// The files after `restore_pkgbuild`: where it decides to move the
/// backup back, the PKGBUILD holds the backup's text and the backup is gone.
pub open spec fn after_restore(f: (Option<Seq<char>>, Option<Seq<char>>)) -> (Option<Seq<char>>, Option<Seq<char>>) {
    if restores(f.1 is Some) {
        (f.1, None)
    } else {
        f
    }
}

proof fn lemma_edits_keep_backup(f: (Option<Seq<char>>, Option<Seq<char>>), edits: Seq<Option<Seq<char>>>)
    ensures
        after_edits(f, edits).1 == f.1,
    decreases edits.len(),
{
    if edits.len() > 0 {
        lemma_edits_keep_backup(f, edits.drop_last());
    }
}

/// A backup, any edits of the PKGBUILD, then a restore give the PKGBUILD
/// back as it was before the backup, with no backup left.
pub proof fn law_backup_restore_round_trip(t0: Seq<char>, edits: Seq<Option<Seq<char>>>)
    ensures
        after_restore(after_edits(after_backup((Some(t0), None)), edits)) == (Some(t0), None::<Seq<char>>),
{
    lemma_edits_keep_backup(after_backup((Some(t0), None)), edits);
}

/// A backup left by an interrupted run is not overwritten, so the restore
/// gives back the text it held (the upstream PKGBUILD), whatever the
/// PKGBUILD held meanwhile.
pub proof fn law_restore_gives_first_backup(
    live: Option<Seq<char>>,
    b: Seq<char>,
    edits: Seq<Option<Seq<char>>>,
)
    ensures
        after_backup((live, Some(b))) == (live, Some(b)),
        after_restore(after_edits(after_backup((live, Some(b))), edits)) == (Some(b), None::<Seq<char>>),
{
    lemma_edits_keep_backup(after_backup((live, Some(b))), edits);
}

/// The command that updates the checksums of a PKGBUILD: `updpkgsums`, run
/// in the package directory.
pub fn update_pkgsums(repo_dir: &str) -> (r: CommandLine)
    ensures
        r.program@ == "updpkgsums"@,
        r.args@.len() == 0,
        r.dir matches Some(d) && d@ == repo_dir@,
{
    CommandLine { program: String::from_str("updpkgsums"), args: Vec::new(), dir: Some(String::from_str(repo_dir)) }
}

} // verus!
