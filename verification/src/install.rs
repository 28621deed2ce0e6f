use vstd::prelude::*;
use crate::text::{
    chars_string, ends_with, ends_with_chars, parse_usize, parse_usize_chars, push_str_chars,
    remove_char, remove_char_chars, split_chars, split_on, starts_with, starts_with_chars,
    str_chars, str_to_lowercase, string_views, sub_chars, trim_chars, trim_ws, unicode_lowercase,
    views,
};
use crate::paths::{sort_dedup_paths, sorted_dedup_of};
use crate::deps::{auto_include_local_dependencies, deps_views, include_closure, lemma_closure_in_range, name_views, selected_names};

verus! {

// ---------------------------------------------------------------------------
// Answers to the install prompt
// ---------------------------------------------------------------------------

/// What an answer to "Enter numbers to install" asks for.
#[derive(Debug, PartialEq, Eq)]
pub enum SelectionReply {
    /// An empty answer: every listed artifact.
    All,
    /// `n` or `N`: none.
    Skip,
    /// The listed artifacts at these positions (0-based), in the order the
    /// answer names them, repeats included.
    Picked(Vec<usize>),
    /// Anything else; the prompt is repeated.
    Invalid,
}

/// The answer without surrounding whitespace and without its spaces.
pub open spec fn squeezed_answer(input: Seq<char>) -> Seq<char> {
    remove_char(trim_ws(input), ' ')
}

pub open spec fn is_skip_word(v: Seq<char>) -> bool {
    v == seq!['n'] || v == seq!['N']
}

/// The positions `a-1 .. b-1` that exist among `n` artifacts.
pub open spec fn range_picks(a: nat, b: nat, n: nat) -> Seq<usize> {
    let hi = if b < n { b } else { n };
    if a > hi {
        Seq::empty()
    } else {
        Seq::new((hi - a + 1) as nat, |j: int| (a - 1 + j) as usize)
    }
}

/// The first position of `c` in `s`, or its length.
pub open spec fn first_index_or_len(s: Seq<char>, c: char) -> int
    decreases s.len(),
{
    if s.len() == 0 {
        0
    } else if s[0] == c {
        0
    } else {
        1 + first_index_or_len(s.skip(1), c)
    }
}

/// What one comma-separated piece of the answer picks: nothing when empty;
/// `a-b` (split at the first `-`) picks the existing positions from `a` to
/// `b`; `i` picks position `i` if it exists. `None`: the piece is invalid
/// (a number that does not parse, a zero, or `a > b`).
pub open spec fn piece_picks(piece: Seq<char>, n: nat) -> Option<Seq<usize>> {
    if piece.len() == 0 {
        Some(Seq::empty())
    } else {
        let k = first_index_or_len(piece, '-');
        if k < piece.len() {
            match (parse_usize(piece.take(k)), parse_usize(piece.skip(k + 1))) {
                (Some(a), Some(b)) => if a == 0 || b == 0 || a > b {
                    None
                } else {
                    Some(range_picks(a, b, n))
                },
                _ => None,
            }
        } else {
            match parse_usize(piece) {
                Some(i) => if i == 0 {
                    None
                } else if i <= n {
                    Some(seq![(i - 1) as usize])
                } else {
                    Some(Seq::empty())
                },
                None => None,
            }
        }
    }
}

/// The picks of all pieces, in order; `None` when any piece is invalid.
pub open spec fn pieces_picks(pieces: Seq<Seq<char>>, n: nat) -> Option<Seq<usize>>
    decreases pieces.len(),
{
    if pieces.len() == 0 {
        Some(Seq::empty())
    } else {
        match pieces_picks(pieces.drop_last(), n) {
            Some(acc) => match piece_picks(pieces.last(), n) {
                Some(p) => Some(acc + p),
                None => None,
            },
            None => None,
        }
    }
}

/// The picks an answer names among `n` artifacts.
pub open spec fn answer_picks(input: Seq<char>, n: nat) -> Option<Seq<usize>> {
    pieces_picks(split_on(squeezed_answer(input), ','), n)
}

/// The answer is valid and picks something.
pub open spec fn answer_picks_some(input: Seq<char>, n: nat) -> bool {
    answer_picks(input, n) matches Some(p) && p.len() > 0
}

fn first_index_of_or_len(cs: &Vec<char>, c: char) -> (r: usize)
    ensures
        r == first_index_or_len(cs@, c),
        r <= cs.len(),
{
    let mut i: usize = 0;
    assert(cs@.skip(0) =~= cs@);
    while i < cs.len()
        invariant
            i <= cs.len(),
            first_index_or_len(cs@, c) == i + first_index_or_len(cs@.skip(i as int), c),
        decreases cs.len() - i,
    {
        assert(cs@.skip(i as int)[0] == cs@[i as int]);
        if cs[i] == c {
            return i;
        }
        assert(cs@.skip(i as int).skip(1) =~= cs@.skip(i + 1));
        i = i + 1;
    }
    assert(cs@.skip(i as int).len() == 0);
    i
}

fn push_range_picks(out: &mut Vec<usize>, a: usize, b: usize, n: usize)
    requires
        a > 0,
    ensures
        final(out)@ == old(out)@ + range_picks(a as nat, b as nat, n as nat),
{
    let hi = if b < n { b } else { n };
    let ghost start = out@;
    if a > hi {
        assert(range_picks(a as nat, b as nat, n as nat) =~= Seq::<usize>::empty());
        assert(out@ =~= start + Seq::<usize>::empty());
        return;
    }
    let mut j: usize = a - 1;
    while j < hi
        invariant
            0 < a,
            a - 1 <= j <= hi,
            hi <= n,
            hi == (if b < n { b } else { n }),
            out@ == start + Seq::new((j + 1 - a) as nat, |t: int| (a - 1 + t) as usize),
        decreases hi - j,
    {
        out.push(j);
        assert(start + Seq::new((j + 2 - a) as nat, |t: int| (a - 1 + t) as usize)
            =~= (start + Seq::new((j + 1 - a) as nat, |t: int| (a - 1 + t) as usize)).push(j));
        j = j + 1;
    }
    assert(out@ =~= start + range_picks(a as nat, b as nat, n as nat));
}

fn piece_picks_exec(piece: &Vec<char>, n: usize, out: &mut Vec<usize>) -> (ok: bool)
    ensures
        ok == (piece_picks(piece@, n as nat) is Some),
        ok ==> final(out)@ == old(out)@ + piece_picks(piece@, n as nat)->0,
{
    if piece.len() == 0 {
        assert(old(out)@ + Seq::<usize>::empty() =~= old(out)@);
        return true;
    }
    let k = first_index_of_or_len(piece, '-');
    if k < piece.len() {
        let left = crate::text::sub_chars(piece, 0, k);
        let right = crate::text::sub_chars(piece, k + 1, piece.len());
        assert(left@ =~= piece@.take(k as int));
        assert(right@ =~= piece@.skip(k + 1));
        match (parse_usize_chars(&left), parse_usize_chars(&right)) {
            (Some(a), Some(b)) => {
                if a == 0 || b == 0 || a > b {
                    false
                } else {
                    push_range_picks(out, a, b, n);
                    true
                }
            },
            _ => false,
        }
    } else {
        match parse_usize_chars(piece) {
            Some(i) => {
                if i == 0 {
                    false
                } else if i <= n {
                    out.push(i - 1);
                    assert(final(out)@ =~= old(out)@ + seq![(i - 1) as usize]);
                    true
                } else {
                    assert(old(out)@ + Seq::<usize>::empty() =~= old(out)@);
                    true
                }
            },
            None => false,
        }
    }
}

/// Reads an answer to the install prompt over `n` listed artifacts (the
/// decisions of `prompt_for_selection` when more than one is listed).
#[verifier::loop_isolation(false)]
pub fn parse_selection(input: &str, n: usize) -> (r: SelectionReply)
    ensures
        (r is All) <==> squeezed_answer(input@).len() == 0,
        (r is Skip) <==> (squeezed_answer(input@).len() > 0 && is_skip_word(squeezed_answer(input@))),
        r matches SelectionReply::Picked(v) ==> answer_picks(input@, n as nat) == Some(v@) && v@.len() > 0,
        r matches SelectionReply::Picked(v) ==> forall|k: int| 0 <= k < v@.len() ==> #[trigger] v@[k] < n,
        (r is Invalid) <==> (squeezed_answer(input@).len() > 0
            && !is_skip_word(squeezed_answer(input@)) && !answer_picks_some(input@, n as nat)),
{
    let cs = str_chars(input);
    let t = trim_chars(&cs);
    let v = remove_char_chars(&t, ' ');
    if v.len() == 0 {
        return SelectionReply::All;
    }
    if v.len() == 1 && (v[0] == 'n' || v[0] == 'N') {
        assert(v@ =~= seq![v@[0]]);
        return SelectionReply::Skip;
    }
    assert(!is_skip_word(v@)) by {
        if v@ == seq!['n'] || v@ == seq!['N'] {
            assert(v@.len() == 1);
        }
    }
    let pieces = split_chars(&v, ',');
    let mut picked: Vec<usize> = Vec::new();
    let mut i: usize = 0;
    assert(views(pieces@).take(0) =~= Seq::<Seq<char>>::empty());
    while i < pieces.len()
        invariant
            i <= pieces.len(),
            views(pieces@) == split_on(v@, ','),
            pieces_picks(views(pieces@).take(i as int), n as nat) == Some(picked@),
        decreases pieces.len() - i,
    {
        let ghost pre = views(pieces@).take(i as int);
        assert(views(pieces@).take(i + 1).drop_last() =~= pre);
        assert(views(pieces@).take(i + 1).last() == pieces@[i as int]@);
        if !piece_picks_exec(&pieces[i], n, &mut picked) {
            assert(pieces_picks(views(pieces@).take(i + 1), n as nat) is None);
            proof { lemma_pieces_picks_none_extends(views(pieces@), n as nat, i as int + 1); }
            assert(views(pieces@).take(pieces.len() as int) =~= views(pieces@));
            return SelectionReply::Invalid;
        }
        i = i + 1;
    }
    assert(views(pieces@).take(pieces.len() as int) =~= views(pieces@));
    assert(pieces_picks(views(pieces@), n as nat) == Some(picked@));
    proof { lemma_picks_below(views(pieces@), n as nat, picked@); }
    if picked.len() == 0 {
        SelectionReply::Invalid
    } else {
        SelectionReply::Picked(picked)
    }
}

proof fn lemma_picks_below(ps: Seq<Seq<char>>, n: nat, p: Seq<usize>)
    requires
        n <= usize::MAX,
        pieces_picks(ps, n) == Some(p),
    ensures
        forall|k: int| 0 <= k < p.len() ==> #[trigger] p[k] < n,
    decreases ps.len(),
{
    if ps.len() > 0 {
        let acc = pieces_picks(ps.drop_last(), n)->0;
        let q = piece_picks(ps.last(), n)->0;
        assert(pieces_picks(ps.drop_last(), n) == Some(acc));
        assert(piece_picks(ps.last(), n) == Some(q));
        assert(p == acc + q);
        lemma_picks_below(ps.drop_last(), n, acc);
        assert forall|k: int| 0 <= k < q.len() implies #[trigger] q[k] < n by {
            let piece = ps.last();
            let j = first_index_or_len(piece, '-');
            if piece.len() > 0 && j < piece.len() {
            }
        }
        assert forall|k: int| 0 <= k < p.len() implies #[trigger] p[k] < n by {
            if k < acc.len() {
                assert(p[k] == acc[k]);
            } else {
                assert(p[k] == q[k - acc.len()]);
            }
        }
    }
}

proof fn lemma_pieces_picks_none_extends(ps: Seq<Seq<char>>, n: nat, i: int)
    requires
        0 <= i <= ps.len(),
        pieces_picks(ps.take(i), n) is None,
    ensures
        pieces_picks(ps, n) is None,
    decreases ps.len() - i,
{
    if i < ps.len() {
        assert(ps.take(i + 1).drop_last() =~= ps.take(i));
        lemma_pieces_picks_none_extends(ps, n, i + 1);
    } else {
        assert(ps.take(i) =~= ps);
    }
}


// ---------------------------------------------------------------------------
// The single-artifact prompt
// ---------------------------------------------------------------------------

/// What an answer to "Install it? [Y/n]" means once trimmed and lower-cased:
/// yes for empty, `y`, `yes`; no for `n`, `no`; otherwise ask again.
pub open spec fn confirmation_reply(v: Seq<char>) -> Option<bool> {
    if v.len() == 0 || v == seq!['y'] || v == seq!['y', 'e', 's'] {
        Some(true)
    } else if v == seq!['n'] || v == seq!['n', 'o'] {
        Some(false)
    } else {
        None
    }
}

/// Reads an answer to the single-artifact prompt (`None`: ask again).
pub fn parse_install_confirmation(input: &str) -> (r: Option<bool>)
    ensures
        r == confirmation_reply(unicode_lowercase(trim_ws(input@))),
        ({
            let v = unicode_lowercase(trim_ws(input@));
            &&& (v == seq!['n'] || v == seq!['n', 'o']) ==> r == Some(false)
            &&& (v.len() == 0 || v == seq!['y'] || v == seq!['y', 'e', 's']) ==> r == Some(true)
            &&& r == Some(false) ==> (v == seq!['n'] || v == seq!['n', 'o'])
            &&& r == Some(true) ==> (v.len() == 0 || v == seq!['y'] || v == seq!['y', 'e', 's'])
        }),
{
    proof {
        law_confirmation_answers(input@);
    }
    let t = trim_chars(&str_chars(input));
    let ts = chars_string(&t);
    let lower = str_to_lowercase(ts.as_str());
    let v = str_chars(lower.as_str());
    if v.len() == 0 {
        return Some(true);
    }
    if v.len() == 1 && v[0] == 'y' {
        assert(v@ =~= seq!['y']);
        return Some(true);
    }
    if v.len() == 3 && v[0] == 'y' && v[1] == 'e' && v[2] == 's' {
        assert(v@ =~= seq!['y', 'e', 's']);
        return Some(true);
    }
    if v.len() == 1 && v[0] == 'n' {
        assert(v@ =~= seq!['n']);
        return Some(false);
    }
    if v.len() == 2 && v[0] == 'n' && v[1] == 'o' {
        assert(v@ =~= seq!['n', 'o']);
        return Some(false);
    }
    assert(v@ != seq!['y'] && v@ != seq!['y', 'e', 's'] && v@ != seq!['n'] && v@ != seq!['n', 'o']) by {
        if v@ == seq!['y'] || v@ == seq!['n'] {
            assert(v@.len() == 1);
        }
        if v@ == seq!['y', 'e', 's'] {
            assert(v@.len() == 3);
        }
        if v@ == seq!['n', 'o'] {
            assert(v@.len() == 2);
        }
    }
    None
}

// ---------------------------------------------------------------------------
// Package metadata
// ---------------------------------------------------------------------------

/// The package name that `pacman -Qp` prints first (`package_name_from_file`
/// takes the first whitespace-separated word of its output).
pub fn package_name_from_query(output: &str) -> (r: Option<String>)
    ensures
        match r {
            Some(w) => crate::text::first_word(output@) == Some(w@),
            None => crate::text::first_word(output@) is None,
        },
{
    crate::text::first_word_of(output)
}

/// `depend = ` opens a dependency line of `.PKGINFO`.
pub open spec fn depend_key() -> Seq<char> {
    seq!['d', 'e', 'p', 'e', 'n', 'd', ' ', '=', ' ']
}

pub open spec fn is_version_op(c: char) -> bool {
    c == '<' || c == '>' || c == '='
}

/// The position of the first `<`, `>` or `=`, or the length.
pub open spec fn first_op_index(s: Seq<char>) -> int
    decreases s.len(),
{
    if s.len() == 0 || is_version_op(s[0]) {
        0
    } else {
        1 + first_op_index(s.skip(1))
    }
}

/// The dependency that a `.PKGINFO` line names: after `depend = ` (once
/// the line is trimmed), up to a version operator, trimmed; none if empty.
pub open spec fn dependency_of_line(line: Seq<char>) -> Option<Seq<char>> {
    let t = trim_ws(line);
    if starts_with(t, depend_key()) {
        let rest = t.skip(9);
        let name = trim_ws(rest.take(first_op_index(rest)));
        if name.len() > 0 {
            Some(name)
        } else {
            None
        }
    } else {
        None
    }
}

pub open spec fn dependencies_of_lines(lines: Seq<Seq<char>>) -> Seq<Seq<char>>
    decreases lines.len(),
{
    if lines.len() == 0 {
        Seq::empty()
    } else {
        let acc = dependencies_of_lines(lines.drop_last());
        match dependency_of_line(lines.last()) {
            Some(d) => acc.push(d),
            None => acc,
        }
    }
}

/// The dependency names of a `.PKGINFO` text, in order. (Splitting at `\n`
/// and trimming each piece reads the same lines as `str::lines` does.)
pub open spec fn pkginfo_dependencies(text: Seq<char>) -> Seq<Seq<char>> {
    dependencies_of_lines(split_on(text, '\n'))
}

fn first_op_position(cs: &Vec<char>) -> (r: usize)
    ensures
        r == first_op_index(cs@),
        r <= cs.len(),
{
    let mut i: usize = 0;
    assert(cs@.skip(0) =~= cs@);
    while i < cs.len() && !(cs[i] == '<' || cs[i] == '>' || cs[i] == '=')
        invariant
            i <= cs.len(),
            first_op_index(cs@) == i + first_op_index(cs@.skip(i as int)),
        decreases cs.len() - i,
    {
        assert(cs@.skip(i as int).skip(1) =~= cs@.skip(i + 1));
        i = i + 1;
    }
    i
}

fn dependency_of_line_exec(line: &Vec<char>) -> (r: Option<Vec<char>>)
    ensures
        match r {
            Some(d) => dependency_of_line(line@) == Some(d@),
            None => dependency_of_line(line@) is None,
        },
{
    let t = trim_chars(line);
    let mut key: Vec<char> = Vec::new();
    key.push('d');
    key.push('e');
    key.push('p');
    key.push('e');
    key.push('n');
    key.push('d');
    key.push(' ');
    key.push('=');
    key.push(' ');
    assert(key@ =~= depend_key());
    if !starts_with_chars(&t, &key) {
        return None;
    }
    let rest = sub_chars(&t, 9, t.len());
    assert(rest@ =~= t@.skip(9));
    let k = first_op_position(&rest);
    let head = sub_chars(&rest, 0, k);
    assert(head@ =~= rest@.take(k as int));
    let name = trim_chars(&head);
    if name.len() == 0 {
        None
    } else {
        Some(name)
    }
}

/// The dependency names in a `.PKGINFO` text (the parsing half of
/// `dependency_names_from_file`).
pub fn dependency_names_from_pkginfo(text: &str) -> (r: Vec<String>)
    ensures
        string_views(r@) == pkginfo_dependencies(text@),
{
    let cs = str_chars(text);
    let lines = split_chars(&cs, '\n');
    let mut out: Vec<String> = Vec::new();
    let mut i: usize = 0;
    assert(views(lines@).take(0) =~= Seq::<Seq<char>>::empty());
    assert(string_views(out@) =~= Seq::<Seq<char>>::empty());
    while i < lines.len()
        invariant
            i <= lines.len(),
            views(lines@) == split_on(cs@, '\n'),
            string_views(out@) == dependencies_of_lines(views(lines@).take(i as int)),
        decreases lines.len() - i,
    {
        assert(views(lines@).take(i + 1).drop_last() =~= views(lines@).take(i as int));
        assert(views(lines@).take(i + 1).last() == lines@[i as int]@);
        match dependency_of_line_exec(&lines[i]) {
            Some(d) => {
                let ghost before = string_views(out@);
                out.push(chars_string(&d));
                assert(string_views(out@) =~= before.push(d@));
            },
            None => {},
        }
        i = i + 1;
    }
    assert(views(lines@).take(lines.len() as int) =~= views(lines@));
    out
}

// ---------------------------------------------------------------------------
// Finding built artifacts
// ---------------------------------------------------------------------------

/// `s` without any leading `./` pieces (`trim_start_matches("./")`).
pub open spec fn strip_dot_slash(s: Seq<char>) -> Seq<char>
    decreases s.len(),
{
    if s.len() >= 2 && s[0] == '.' && s[1] == '/' {
        strip_dot_slash(s.skip(2))
    } else {
        s
    }
}

/// The artifact name a `makepkg --packagelist` line gives: trimmed, without
/// leading `./`; none when nothing is left.
pub open spec fn packagelist_name(line: Seq<char>) -> Option<Seq<char>> {
    let t = strip_dot_slash(trim_ws(line));
    if t.len() == 0 {
        None
    } else {
        Some(t)
    }
}

/// Reads one `makepkg --packagelist` line (the first half of
/// `resolve_packagelist_line`).
pub fn packagelist_entry(line: &str) -> (r: Option<String>)
    ensures
        match r {
            Some(n) => packagelist_name(line@) == Some(n@),
            None => packagelist_name(line@) is None,
        },
{
    let t = trim_chars(&str_chars(line));
    let mut i: usize = 0;
    assert(t@.skip(0) =~= t@);
    while t.len() - i >= 2 && t[i] == '.' && t[i + 1] == '/'
        invariant
            i <= t.len(),
            strip_dot_slash(t@) == strip_dot_slash(t@.skip(i as int)),
        decreases t.len() - i,
    {
        assert(t@.skip(i as int).skip(2) =~= t@.skip(i + 2));
        i = i + 2;
    }
    let rest = sub_chars(&t, i, t.len());
    assert(rest@ =~= t@.skip(i as int));
    if rest.len() == 0 {
        None
    } else {
        Some(chars_string(&rest))
    }
}

/// Where to look for an artifact that `makepkg --packagelist` names.
#[derive(Debug, PartialEq, Eq, Clone, Copy)]
pub enum ArtifactPlace {
    /// The name as given.
    AsListed,
    /// The name joined to the ready-made packages directory (`PKGDEST`).
    UnderPkgdest,
    /// The name joined to the package's repository directory.
    UnderRepo,
}

pub open spec fn lookup_order(name: Seq<char>) -> Seq<ArtifactPlace> {
    if name.len() > 0 && name[0] == '/' {
        seq![ArtifactPlace::AsListed, ArtifactPlace::UnderPkgdest, ArtifactPlace::UnderRepo, ArtifactPlace::AsListed]
    } else {
        seq![ArtifactPlace::UnderPkgdest, ArtifactPlace::UnderRepo, ArtifactPlace::AsListed]
    }
}

/// The places to try, in order, for a listed artifact; the first that
/// exists is taken (an absolute name is tried as given first).
pub fn packagelist_lookup_order(name: &str) -> (r: Vec<ArtifactPlace>)
    ensures
        r@ == lookup_order(name@),
{
    let cs = str_chars(name);
    let mut v: Vec<ArtifactPlace> = Vec::new();
    if cs.len() > 0 && cs[0] == '/' {
        v.push(ArtifactPlace::AsListed);
    }
    v.push(ArtifactPlace::UnderPkgdest);
    v.push(ArtifactPlace::UnderRepo);
    v.push(ArtifactPlace::AsListed);
    assert(v@ =~= lookup_order(name@));
    v
}

/// An entry of the ready-made packages directory.
pub struct PkgdestEntry {
    pub path: String,
    /// The file name, where it is valid Unicode.
    pub name: Option<String>,
    pub is_file: bool,
}

pub open spec fn artifact_suffix() -> Seq<char> {
    seq!['.', 'p', 'k', 'g', '.', 't', 'a', 'r', '.', 'z', 's', 't']
}

/// A file named `{base}-….pkg.tar.zst` or `{input}-….pkg.tar.zst`.
pub open spec fn is_pkgdest_artifact(e: PkgdestEntry, input: Seq<char>, base: Seq<char>) -> bool {
    &&& e.is_file
    &&& e.name matches Some(n)
    &&& ends_with(n@, artifact_suffix())
    &&& (starts_with(n@, base.push('-')) || starts_with(n@, input.push('-')))
}

pub open spec fn pkgdest_matches(entries: Seq<PkgdestEntry>, input: Seq<char>, base: Seq<char>) -> Seq<String>
    decreases entries.len(),
{
    if entries.len() == 0 {
        Seq::empty()
    } else {
        let acc = pkgdest_matches(entries.drop_last(), input, base);
        if is_pkgdest_artifact(entries.last(), input, base) {
            acc.push(entries.last().path)
        } else {
            acc
        }
    }
}

fn with_dash(s: &str) -> (r: Vec<char>)
    ensures
        r@ == s@.push('-'),
{
    let mut v = str_chars(s);
    v.push('-');
    v
}

/// The artifacts of a package among the entries of the ready-made
/// packages directory, sorted and without repeats (the decisions of
/// `collect_candidate_files_from_pkgdest`).
pub fn select_pkgdest_artifacts(entries: &Vec<PkgdestEntry>, pkg_input: &str, base_pkg_name: &str) -> (r: Vec<String>)
    ensures
        sorted_dedup_of(pkgdest_matches(entries@, pkg_input@, base_pkg_name@), r@),
{
    let mut suffix: Vec<char> = Vec::new();
    suffix.push('.');
    suffix.push('p');
    suffix.push('k');
    suffix.push('g');
    suffix.push('.');
    suffix.push('t');
    suffix.push('a');
    suffix.push('r');
    suffix.push('.');
    suffix.push('z');
    suffix.push('s');
    suffix.push('t');
    assert(suffix@ =~= artifact_suffix());
    let base_dash = with_dash(base_pkg_name);
    let input_dash = with_dash(pkg_input);
    let mut files: Vec<String> = Vec::new();
    let mut i: usize = 0;
    assert(entries@.take(0) =~= Seq::<PkgdestEntry>::empty());
    while i < entries.len()
        invariant
            i <= entries.len(),
            suffix@ == artifact_suffix(),
            base_dash@ == base_pkg_name@.push('-'),
            input_dash@ == pkg_input@.push('-'),
            files@ == pkgdest_matches(entries@.take(i as int), pkg_input@, base_pkg_name@),
        decreases entries.len() - i,
    {
        assert(entries@.take(i + 1).drop_last() =~= entries@.take(i as int));
        assert(entries@.take(i + 1).last() == entries@[i as int]);
        let e = &entries[i];
        if e.is_file {
            match &e.name {
                Some(n) => {
                    let ncs = str_chars(n.as_str());
                    if ends_with_chars(&ncs, &suffix)
                        && (starts_with_chars(&ncs, &base_dash) || starts_with_chars(&ncs, &input_dash)) {
                        files.push(e.path.clone());
                    }
                },
                None => {},
            }
        }
        i = i + 1;
    }
    assert(entries@.take(entries.len() as int) =~= entries@);
    sort_dedup_paths(&files)
}

/// Which artifacts to offer, once the ready-made packages directory has
/// been searched.
pub enum CandidateStep {
    /// Offer these paths.
    Use(Vec<String>),
    /// Search the ready-made packages directory again.
    ScanPkgdestAgain,
}

/// The choice of `collect_candidate_files`: the ready-made directory's
/// artifacts if any; else the resolved `makepkg --packagelist` paths (when
/// that ran), sorted and without repeats, if any; else another look at the
/// ready-made directory.
pub fn choose_candidate_files(from_pkgdest: Vec<String>, listed: Option<Vec<String>>) -> (r: CandidateStep)
    ensures
        from_pkgdest.len() > 0 ==> (r matches CandidateStep::Use(v) && v@ == from_pkgdest@),
        from_pkgdest.len() == 0 ==> match listed {
            Some(l) => if l.len() > 0 {
                (r matches CandidateStep::Use(v) && sorted_dedup_of(l@, v@))
            } else {
                r is ScanPkgdestAgain
            },
            None => r is ScanPkgdestAgain,
        },
{
    if from_pkgdest.len() > 0 {
        return CandidateStep::Use(from_pkgdest);
    }
    match listed {
        Some(l) => {
            let sorted = sort_dedup_paths(&l);
            if sorted.len() > 0 {
                proof {
                    if l.len() == 0 {
                        assert(crate::paths::is_first_copy(l@, sorted@[0]@));
                    }
                }
                CandidateStep::Use(sorted)
            } else {
                proof {
                    if l.len() > 0 {
                        assert(crate::paths::has_path_key(sorted@, crate::paths::path_key(l@[0]@)));
                    }
                }
                CandidateStep::ScanPkgdestAgain
            }
        },
        None => CandidateStep::ScanPkgdestAgain,
    }
}

/// An artifact whose package is listed in `skip_install_packages`.
pub open spec fn is_skipped(name: Option<Seq<char>>, skip: Seq<Seq<char>>) -> bool {
    name matches Some(n) && skip.contains(n)
}

pub open spec fn unskipped_upto(names: Seq<Option<Seq<char>>>, skip: Seq<Seq<char>>, k: int) -> Seq<usize>
    decreases k,
{
    if k <= 0 {
        Seq::empty()
    } else {
        let acc = unskipped_upto(names, skip, k - 1);
        if is_skipped(names[k - 1], skip) {
            acc
        } else {
            acc.push((k - 1) as usize)
        }
    }
}

/// The positions of the artifacts to keep, in order: those whose package
/// name is unknown or not in `skip` (the filter of `install_artifacts`).
pub fn unskipped_artifacts(names: &Vec<Option<String>>, skip: &Vec<String>) -> (r: Vec<usize>)
    ensures
        r@ == unskipped_upto(name_views(names@), string_views(skip@), names.len() as int),
{
    let ghost nv = name_views(names@);
    let ghost sv = string_views(skip@);
    let mut out: Vec<usize> = Vec::new();
    let mut i: usize = 0;
    while i < names.len()
        invariant
            i <= names.len(),
            nv == name_views(names@),
            sv == string_views(skip@),
            out@ == unskipped_upto(nv, sv, i as int),
        decreases names.len() - i,
    {
        let skipped = match &names[i] {
            Some(n) => {
                let mut found = false;
                let mut j: usize = 0;
                while j < skip.len()
                    invariant
                        j <= skip.len(),
                        sv == string_views(skip@),
                        found == exists|t: int| 0 <= t < j && sv[t] == n@,
                    decreases skip.len() - j,
                {
                    assert(sv[j as int] == skip@[j as int]@);
                    if skip[j] == *n {
                        found = true;
                    }
                    assert(found == exists|t: int| 0 <= t < j + 1 && sv[t] == n@) by {
                        if exists|t: int| 0 <= t < j + 1 && sv[t] == n@ {
                            let t = choose|t: int| 0 <= t < j + 1 && sv[t] == n@;
                            if t < j {
                                assert(exists|t2: int| 0 <= t2 < j && sv[t2] == n@);
                            }
                        }
                    }
                    j = j + 1;
                }
                proof {
                    if found {
                        let t = choose|t: int| 0 <= t < skip.len() && sv[t] == n@;
                        assert(sv.contains(n@));
                    } else {
                        if sv.contains(n@) {
                            let t = choose|t: int| 0 <= t < sv.len() && sv[t] == n@;
                        }
                    }
                }
                found
            },
            None => false,
        };
        assert(skipped == is_skipped(nv[i as int], sv));
        if !skipped {
            out.push(i);
        }
        i = i + 1;
    }
    out
}

/// The arguments of `sudo` that install the chosen artifacts:
/// `pacman -U --noconfirm` and the paths.
pub fn pacman_install_args(paths: &Vec<String>) -> (r: Vec<String>)
    ensures
        string_views(r@) == seq![
            seq!['p', 'a', 'c', 'm', 'a', 'n'],
            seq!['-', 'U'],
            seq!['-', '-', 'n', 'o', 'c', 'o', 'n', 'f', 'i', 'r', 'm'],
        ] + string_views(paths@),
{
    let mut out: Vec<String> = Vec::new();
    let mut a: Vec<char> = Vec::new();
    push_str_chars(&mut a, "pacman");
    proof { reveal_strlit("pacman"); }
    assert(a@ =~= seq!['p', 'a', 'c', 'm', 'a', 'n']);
    out.push(chars_string(&a));
    let mut b: Vec<char> = Vec::new();
    b.push('-');
    b.push('U');
    out.push(chars_string(&b));
    let mut c: Vec<char> = Vec::new();
    push_str_chars(&mut c, "--noconfirm");
    proof { reveal_strlit("--noconfirm"); }
    assert(c@ =~= seq!['-', '-', 'n', 'o', 'c', 'o', 'n', 'f', 'i', 'r', 'm']);
    out.push(chars_string(&c));
    assert(string_views(out@) =~= seq![a@, b@, c@]);
    let ghost head = string_views(out@);
    assert(head =~~= seq![
            seq!['p', 'a', 'c', 'm', 'a', 'n'],
            seq!['-', 'U'],
            seq!['-', '-', 'n', 'o', 'c', 'o', 'n', 'f', 'i', 'r', 'm'],
        ]);
    let mut i: usize = 0;
    while i < paths.len()
        invariant
            head == seq![
                seq!['p', 'a', 'c', 'm', 'a', 'n'],
                seq!['-', 'U'],
                seq!['-', '-', 'n', 'o', 'c', 'o', 'n', 'f', 'i', 'r', 'm'],
            ],
            i <= paths.len(),
            string_views(out@) == head + string_views(paths@).take(i as int),
        decreases paths.len() - i,
    {
        let ghost before = out@;
        let x = paths[i].clone();
        out.push(x);
        assert(out@ == before.push(x));
        assert(string_views(out@) =~= string_views(before).push(paths@[i as int]@));
        assert(string_views(paths@).take(i + 1) =~= string_views(paths@).take(i as int).push(paths@[i as int]@));
        assert(string_views(out@) =~= head + string_views(paths@).take(i + 1));
        i = i + 1;
    }
    assert(string_views(paths@).take(paths.len() as int) =~= string_views(paths@));
    out
}


// ---------------------------------------------------------------------------
// Installing a package's artifacts
// ---------------------------------------------------------------------------

/// What becomes of a request to install a package's artifacts.
#[derive(Debug)]
pub enum InstallOutcome {
    /// No artifact was found for the package.
    NothingFound,
    /// The answer to the prompt could not be read.
    AnswerUnread,
    /// Nothing to install: every artifact is skipped, or none was chosen.
    Skipped,
    /// Run `sudo` with these arguments.
    Install(Vec<String>),
}

/// The positions of the artifacts offered at the prompt.
pub open spec fn offered(names: Seq<Option<String>>, skip: Seq<String>) -> Seq<usize> {
    unskipped_upto(name_views(names), string_views(skip), names.len() as int)
}

pub open spec fn offered_names(names: Seq<Option<String>>, skip: Seq<String>) -> Seq<Option<Seq<char>>> {
    offered(names, skip).map_values(|p: usize| name_views(names)[p as int])
}

pub open spec fn offered_deps(names: Seq<Option<String>>, deps: Seq<Vec<String>>, skip: Seq<String>) -> Seq<Seq<Seq<char>>> {
    offered(names, skip).map_values(|p: usize| deps_views(deps)[p as int])
}

/// The offered artifacts to install, as positions among the offered ones:
/// the chosen ones and, pass after pass, those that provide their
/// dependencies.
pub open spec fn chosen_closure(
    names: Seq<Option<String>>,
    deps: Seq<Vec<String>>,
    skip: Seq<String>,
    answer: Seq<usize>,
) -> Seq<usize> {
    let nv = offered_names(names, skip);
    include_closure(nv, offered_deps(names, deps, skip), (selected_names(nv, answer), answer)).1
}

/// The paths of the artifacts to install, before sorting.
pub open spec fn chosen_paths(
    files: Seq<String>,
    names: Seq<Option<String>>,
    deps: Seq<Vec<String>>,
    skip: Seq<String>,
    answer: Seq<usize>,
) -> Seq<String> {
    chosen_closure(names, deps, skip, answer).map_values(|k: usize| files[offered(names, skip)[k as int] as int])
}

pub open spec fn pacman_prefix() -> Seq<Seq<char>> {
    seq![
        seq!['p', 'a', 'c', 'm', 'a', 'n'],
        seq!['-', 'U'],
        seq!['-', '-', 'n', 'o', 'c', 'o', 'n', 'f', 'i', 'r', 'm'],
    ]
}

/// `args` installs `paths`, sorted and without repeats.
pub open spec fn installs(args: Seq<String>, paths: Seq<String>) -> bool {
    exists|s: Seq<String>| sorted_dedup_of(paths, s) && string_views(args) == pacman_prefix() + string_views(s)
}

proof fn lemma_offered_index(names: Seq<Option<String>>, deps: Seq<Vec<String>>, skip: Seq<String>, k: int)
    requires
        0 <= k < offered(names, skip).len(),
    ensures
        offered_names(names, skip).len() == offered(names, skip).len(),
        offered_deps(names, deps, skip).len() == offered(names, skip).len(),
        offered_names(names, skip)[k] == name_views(names)[offered(names, skip)[k] as int],
        offered_deps(names, deps, skip)[k] == deps_views(deps)[offered(names, skip)[k] as int],
{
}

proof fn lemma_unskipped_bounds(names: Seq<Option<Seq<char>>>, skip: Seq<Seq<char>>, k: int)
    ensures
        forall|t: int| 0 <= t < unskipped_upto(names, skip, k).len() ==> #[trigger] unskipped_upto(names, skip, k)[t] < k,
        unskipped_upto(names, skip, k).len() <= if k < 0 { 0 } else { k },
    decreases k,
{
    if k > 0 {
        lemma_unskipped_bounds(names, skip, k - 1);
    }
}

fn clone_name(o: &Option<String>) -> (r: Option<String>)
    ensures
        r == *o,
{
    match o {
        Some(s) => Some(s.clone()),
        None => None,
    }
}

fn clone_strings(v: &Vec<String>) -> (r: Vec<String>)
    ensures
        r@ == v@,
{
    let mut out: Vec<String> = Vec::new();
    let mut i: usize = 0;
    while i < v.len()
        invariant
            i <= v.len(),
            out@ == v@.take(i as int),
        decreases v.len() - i,
    {
        out.push(v[i].clone());
        assert(out@ =~= v@.take(i + 1));
        i = i + 1;
    }
    assert(v@.take(v.len() as int) =~= v@);
    out
}

/// Decides what to install for a package (the decisions of
/// `install_artifacts`). `files` are the artifacts found, `names[i]` the
/// package in `files[i]` (`None` where it could not be read) and `deps[i]`
/// the packages it depends on. The artifacts of the packages in `skip` are
/// not offered; `answer` holds the positions, among the offered ones, that
/// the prompt returned (`None`: the answer could not be read). The chosen
/// artifacts and those among the offered ones that provide their
/// dependencies are installed with `sudo pacman -U --noconfirm`.
pub fn install_artifacts(
    files: &Vec<String>,
    names: &Vec<Option<String>>,
    deps: &Vec<Vec<String>>,
    skip: &Vec<String>,
    answer: Option<Vec<usize>>,
) -> (r: InstallOutcome)
    requires
        names.len() == files.len(),
        deps.len() == files.len(),
        answer matches Some(a) ==> forall|k: int| 0 <= k < a.len() ==> #[trigger] a@[k] < offered(names@, skip@).len(),
    ensures
        (r is NothingFound) <==> files.len() == 0,
        files.len() > 0 && offered(names@, skip@).len() == 0 ==> r is Skipped,
        files.len() > 0 && offered(names@, skip@).len() > 0 ==> match answer {
            None => r is AnswerUnread,
            Some(a) => if a.len() == 0 {
                r is Skipped
            } else {
                r matches InstallOutcome::Install(args) && installs(args@, chosen_paths(files@, names@, deps@, skip@, a@))
            },
        },
{
    if files.len() == 0 {
        return InstallOutcome::NothingFound;
    }
    let off = unskipped_artifacts(names, skip);
    proof { lemma_unskipped_bounds(name_views(names@), string_views(skip@), names.len() as int); }
    if off.len() == 0 {
        return InstallOutcome::Skipped;
    }
    let a = match answer {
        None => { return InstallOutcome::AnswerUnread; },
        Some(a) => a,
    };
    if a.len() == 0 {
        return InstallOutcome::Skipped;
    }
    let ghost offs = offered(names@, skip@);
    assert(off@ == offs);
    let mut sub_names: Vec<Option<String>> = Vec::new();
    let mut sub_deps: Vec<Vec<String>> = Vec::new();
    let mut k: usize = 0;
    while k < off.len()
        invariant
            k <= off.len(),
            off@ == offs,
            offs == offered(names@, skip@),
            names.len() == files.len(),
            deps.len() == files.len(),
            forall|t: int| 0 <= t < off.len() ==> #[trigger] off@[t] < names.len(),
            sub_names.len() == k,
            sub_deps.len() == k,
            name_views(sub_names@) == offered_names(names@, skip@).take(k as int),
            deps_views(sub_deps@) == offered_deps(names@, deps@, skip@).take(k as int),
        decreases off.len() - k,
    {
        let p = off[k];
        proof { lemma_offered_index(names@, deps@, skip@, k as int); }
        let ghost bn = sub_names@;
        let ghost bd = sub_deps@;
        sub_names.push(clone_name(&names[p]));
        sub_deps.push(clone_strings(&deps[p]));
        assert(name_views(sub_names@) =~= name_views(bn).push(name_views(names@)[p as int]));
        assert(offered_names(names@, skip@).take(k + 1) =~= offered_names(names@, skip@).take(k as int).push(name_views(names@)[p as int]));
        assert(deps_views(sub_deps@) =~= deps_views(bd).push(deps_views(deps@)[p as int]));
        assert(offered_deps(names@, deps@, skip@).take(k + 1) =~= offered_deps(names@, deps@, skip@).take(k as int).push(deps_views(deps@)[p as int]));
        k = k + 1;
    }
    assert(offered_names(names@, skip@).take(off.len() as int) =~= offered_names(names@, skip@));
    assert(offered_deps(names@, deps@, skip@).take(off.len() as int) =~= offered_deps(names@, deps@, skip@));
    let ghost nv = offered_names(names@, skip@);
    let ghost dv = offered_deps(names@, deps@, skip@);
    let ghost a0 = a@;
    let mut sel = a;
    auto_include_local_dependencies(&mut sel, &sub_names, &sub_deps);
    proof { lemma_closure_in_range(nv, dv, a0); }
    assert(sel@ == chosen_closure(names@, deps@, skip@, a0));
    let mut paths: Vec<String> = Vec::new();
    let mut t: usize = 0;
    while t < sel.len()
        invariant
            t <= sel.len(),
            off@ == offs,
            offs == offered(names@, skip@),
            forall|q: int| 0 <= q < off.len() ==> #[trigger] off@[q] < files.len(),
            forall|q: int| 0 <= q < sel.len() ==> #[trigger] sel@[q] < off.len(),
            names.len() == files.len(),
            paths@ == sel@.take(t as int).map_values(|q: usize| files@[offs[q as int] as int]),
        decreases sel.len() - t,
    {
        let f = files[off[sel[t]]].clone();
        paths.push(f);
        assert(sel@.take(t + 1).map_values(|q: usize| files@[offs[q as int] as int]) =~=
            sel@.take(t as int).map_values(|q: usize| files@[offs[q as int] as int]).push(files@[offs[sel@[t as int] as int] as int]));
        t = t + 1;
    }
    assert(sel@.take(sel.len() as int) =~= sel@);
    assert(paths@ == chosen_paths(files@, names@, deps@, skip@, a0));
    let sorted = sort_dedup_paths(&paths);
    let args = pacman_install_args(&sorted);
    assert(sorted_dedup_of(paths@, sorted@) && string_views(args@) == pacman_prefix() + string_views(sorted@));
    InstallOutcome::Install(args)
}

/// Decides what to install from the ready-made packages directory alone
/// (no repository directory was given): as `install_artifacts`.
pub fn install_from_ready_dir(
    files: &Vec<String>,
    names: &Vec<Option<String>>,
    deps: &Vec<Vec<String>>,
    skip: &Vec<String>,
    answer: Option<Vec<usize>>,
) -> (r: InstallOutcome)
    requires
        names.len() == files.len(),
        deps.len() == files.len(),
        answer matches Some(a) ==> forall|k: int| 0 <= k < a.len() ==> #[trigger] a@[k] < offered(names@, skip@).len(),
    ensures
        (r is NothingFound) <==> files.len() == 0,
        files.len() > 0 && offered(names@, skip@).len() == 0 ==> r is Skipped,
        files.len() > 0 && offered(names@, skip@).len() > 0 ==> match answer {
            None => r is AnswerUnread,
            Some(a) => if a.len() == 0 {
                r is Skipped
            } else {
                r matches InstallOutcome::Install(args) && installs(args@, chosen_paths(files@, names@, deps@, skip@, a@))
            },
        },
{
    install_artifacts(files, names, deps, skip, answer)
}


// ---------------------------------------------------------------------------
// From answers to chosen files
// ---------------------------------------------------------------------------

/// How the install prompt asks, by the number of offered artifacts.
#[derive(Debug, Clone, Copy, PartialEq, Eq)]
pub enum PromptKind {
    /// Nothing is offered: no question.
    NoPrompt,
    /// One artifact: "Install it? [Y/n]".
    Confirm,
    /// Several: "Enter numbers to install".
    Choose,
}

pub fn prompt_kind(n: usize) -> (r: PromptKind)
    ensures
        (r is NoPrompt) <==> n == 0,
        (r is Confirm) <==> n == 1,
        (r is Choose) <==> n > 1,
{
    if n == 0 {
        PromptKind::NoPrompt
    } else if n == 1 {
        PromptKind::Confirm
    } else {
        PromptKind::Choose
    }
}

/// The paths at the given positions, in the given order.
pub open spec fn paths_at(files: Seq<String>, picks: Seq<usize>) -> Seq<String> {
    picks.map_values(|k: usize| files[k as int])
}

/// The files that an answer to "Enter numbers to install" chooses (the
/// decisions of `prompt_for_selection` when several are listed): every file
/// for an empty answer, none for `n`, the named ones sorted and without
/// repeats, as `sort()` and `dedup()` leave a `Vec<PathBuf>`, and `None`
/// when the question is to be asked again.
pub fn selected_files(files: &Vec<String>, reply: SelectionReply) -> (r: Option<Vec<String>>)
    requires
        reply matches SelectionReply::Picked(p) ==> forall|k: int| 0 <= k < p@.len() ==> #[trigger] p@[k] < files.len(),
    ensures
        match reply {
            SelectionReply::All => r matches Some(v) && v@ == files@,
            SelectionReply::Skip => r matches Some(v) && v@.len() == 0,
            SelectionReply::Picked(p) => r matches Some(v) && sorted_dedup_of(paths_at(files@, p@), v@),
            SelectionReply::Invalid => r is None,
        },
{
    match reply {
        SelectionReply::All => {
            let mut v: Vec<String> = Vec::new();
            let mut i: usize = 0;
            while i < files.len()
                invariant
                    i <= files.len(),
                    v@ == files@.take(i as int),
                decreases files.len() - i,
            {
                v.push(files[i].clone());
                assert(v@ =~= files@.take(i + 1));
                i = i + 1;
            }
            assert(files@.take(files.len() as int) =~= files@);
            Some(v)
        },
        SelectionReply::Skip => Some(Vec::new()),
        SelectionReply::Picked(p) => {
            let mut chosen: Vec<String> = Vec::new();
            let mut i: usize = 0;
            while i < p.len()
                invariant
                    i <= p.len(),
                    forall|k: int| 0 <= k < p@.len() ==> #[trigger] p@[k] < files.len(),
                    chosen@ == paths_at(files@, p@.take(i as int)),
                decreases p.len() - i,
            {
                chosen.push(files[p[i]].clone());
                assert(paths_at(files@, p@.take(i + 1)) =~= paths_at(files@, p@.take(i as int)).push(files@[p@[i as int] as int]));
                i = i + 1;
            }
            assert(p@.take(p.len() as int) =~= p@);
            Some(sort_dedup_paths(&chosen))
        },
        SelectionReply::Invalid => None,
    }
}

/// The files that an answer to "Install it? [Y/n]" chooses when one file
/// is listed: that file for yes, none for no, `None` to ask again.
pub fn confirmed_files(files: &Vec<String>, reply: Option<bool>) -> (r: Option<Vec<String>>)
    requires
        files.len() >= 1,
    ensures
        match reply {
            Some(true) => r matches Some(v) && v@ == seq![files@[0]],
            Some(false) => r matches Some(v) && v@.len() == 0,
            None => r is None,
        },
{
    match reply {
        Some(true) => {
            let mut v: Vec<String> = Vec::new();
            v.push(files[0].clone());
            assert(v@ =~= seq![files@[0]]);
            Some(v)
        },
        Some(false) => Some(Vec::new()),
        None => None,
    }
}

/// Some entry of `files` holds the path text `x`.
pub open spec fn is_listed(files: Seq<String>, x: Seq<char>) -> bool {
    exists|k: int| 0 <= k < files.len() && files[k]@ == x
}

/// Where each chosen file stands among `files`: the first position holding
/// the same path text.
pub fn positions_of(files: &Vec<String>, chosen: &Vec<String>) -> (r: Vec<usize>)
    requires
        forall|i: int| 0 <= i < chosen.len() ==> is_listed(files@, (#[trigger] chosen@[i])@),
    ensures
        r.len() == chosen.len(),
        forall|i: int| 0 <= i < r.len() ==> {
            &&& #[trigger] r@[i] < files.len()
            &&& files@[r@[i] as int]@ == chosen@[i]@
            &&& forall|k: int| 0 <= k < r@[i] ==> files@[k]@ != chosen@[i]@
        },
{
    let mut out: Vec<usize> = Vec::new();
    let mut i: usize = 0;
    while i < chosen.len()
        invariant
            i <= chosen.len(),
            out.len() == i,
            forall|t: int| 0 <= t < chosen.len() ==> is_listed(files@, (#[trigger] chosen@[t])@),
            forall|t: int| 0 <= t < i ==> {
                &&& #[trigger] out@[t] < files.len()
                &&& files@[out@[t] as int]@ == chosen@[t]@
                &&& forall|k: int| 0 <= k < out@[t] ==> files@[k]@ != chosen@[t]@
            },
        decreases chosen.len() - i,
    {
        let c = &chosen[i];
        assert(is_listed(files@, chosen@[i as int]@));
        let mut k: usize = 0;
        while k < files.len() && !(files[k] == *c)
            invariant
                k <= files.len(),
                is_listed(files@, c@),
                forall|q: int| 0 <= q < k ==> files@[q]@ != c@,
            decreases files.len() - k,
        {
            k = k + 1;
        }
        proof {
            if k == files.len() {
                let q = choose|q: int| 0 <= q < files.len() && files@[q]@ == c@;
                assert(files@[q]@ != c@);
            }
        }
        let ghost before = out@;
        out.push(k);
        assert forall|t: int| 0 <= t < i + 1 implies {
            &&& #[trigger] out@[t] < files.len()
            &&& files@[out@[t] as int]@ == chosen@[t]@
            &&& forall|q: int| 0 <= q < out@[t] ==> files@[q]@ != chosen@[t]@
        } by {
            if t < i {
                assert(out@[t] == before[t]);
            }
        }
        i = i + 1;
    }
    out
}

} // verus!

verus! {

/// The answer to "Install it? [Y/n]", trimmed and lower-cased, decides:
/// `n` and `no` decline (the artifact is not installed); an empty answer,
/// `y` and `yes` accept; anything else asks again. No other answer declines
/// or accepts.
pub proof fn law_confirmation_answers(input: Seq<char>)
    ensures
        ({
            let v = unicode_lowercase(trim_ws(input));
            &&& (v == seq!['n'] || v == seq!['n', 'o']) ==> confirmation_reply(v) == Some(false)
            &&& (v.len() == 0 || v == seq!['y'] || v == seq!['y', 'e', 's']) ==> confirmation_reply(v) == Some(true)
            &&& confirmation_reply(v) == Some(false) ==> (v == seq!['n'] || v == seq!['n', 'o'])
            &&& confirmation_reply(v) == Some(true) ==> (v.len() == 0 || v == seq!['y'] || v == seq!['y', 'e', 's'])
        }),
{
    let v = unicode_lowercase(trim_ws(input));
    if v == seq!['n'] || v == seq!['n', 'o'] {
        assert(v.len() > 0);
        assert(v != seq!['y']) by {
            if v == seq!['y'] {
                assert(v[0] == 'y');
            }
        }
        assert(v != seq!['y', 'e', 's']) by {
            if v == seq!['y', 'e', 's'] {
                assert(v[0] == 'y');
            }
        }
    }
}

} // verus!
