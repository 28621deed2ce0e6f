use vstd::prelude::*;
use crate::text::{
    all_ascii_digits, decimal_chars, decimal_value, digit_char, digit_value, is_ascii_digit,
    is_white_space, parse_u32_digits, starts_with,
};
use crate::pkgbuild::{
    bump_baseline, bumped_pkgbuild, dot_two, next_pkgrel_overflows, first_pkgrel_line, has_pkgrel_line, index_or_len,
    is_line_start, last_index_before, line_end, next_pkgrel, numeric_suffix, pkgrel_capture,
    pkgrel_key, pkgrel_line_at, pkgrel_rewrite, pkgrel_value, rewrite_pkgrel_lines,
    strip_quotes_ws, with_default_pkgrel,
};

verus! {

/// A character that survives the release-value clean-up: no quote, `#` or
/// whitespace.
pub open spec fn plain_char(c: char) -> bool {
    c != '"' && c != '\'' && c != '#' && !is_white_space(c)
}

pub open spec fn is_plain(v: Seq<char>) -> bool {
    forall|i: int| 0 <= i < v.len() ==> plain_char(#[trigger] v[i])
}

// ---------------------------------------------------------------------------
// Lemmas on the line format
// ---------------------------------------------------------------------------

proof fn lemma_key_chars()
    ensures
        pkgrel_key().len() == 7,
        forall|t: int| 0 <= t < 7 ==> #[trigger] pkgrel_key()[t] != '\n',
        forall|t: int| 0 <= t < 7 ==> plain_char(#[trigger] pkgrel_key()[t]) || pkgrel_key()[t] == '=',
        pkgrel_key()[0] == 'p',
{
}

proof fn lemma_first_elim(s: Seq<char>, i: int)
    requires
        first_pkgrel_line(s, i) is Some,
    ensures
        i <= first_pkgrel_line(s, i)->0,
        pkgrel_line_at(s, first_pkgrel_line(s, i)->0),
        forall|m: int| i <= m < first_pkgrel_line(s, i)->0 ==> !pkgrel_line_at(s, m),
    decreases s.len() - i,
{
    if i < s.len() && !pkgrel_line_at(s, i) {
        lemma_first_elim(s, i + 1);
    }
}

proof fn lemma_first_none(s: Seq<char>, i: int)
    requires
        first_pkgrel_line(s, i) is None,
    ensures
        forall|m: int| i <= m ==> !pkgrel_line_at(s, m),
    decreases s.len() - i,
{
    if i < s.len() {
        lemma_first_none(s, i + 1);
    }
}

proof fn lemma_first_intro(s: Seq<char>, i: int, j: int)
    requires
        i <= j,
        pkgrel_line_at(s, j),
        forall|m: int| i <= m < j ==> !pkgrel_line_at(s, m),
    ensures
        first_pkgrel_line(s, i) == Some(j),
    decreases j - i,
{
    if i < j {
        lemma_first_intro(s, i + 1, j);
    }
}

proof fn lemma_line_end(s: Seq<char>, k: int, e: int)
    requires
        k <= e <= s.len(),
        forall|m: int| k <= m < e ==> s[m] != '\n',
        e == s.len() || s[e] == '\n',
    ensures
        line_end(s, k) == e,
    decreases e - k,
{
    if k < e {
        lemma_line_end(s, k + 1, e);
    }
}

proof fn lemma_rewrite_prefix(s: Seq<char>, rep: Seq<char>, j: int, i0: int)
    requires
        0 <= j <= i0 <= s.len(),
        forall|m: int| j <= m < i0 ==> !pkgrel_line_at(s, m),
    ensures
        rewrite_pkgrel_lines(s, rep, j, false) == s.subrange(j, i0) + rewrite_pkgrel_lines(s, rep, i0, false),
    decreases i0 - j,
{
    if j < i0 {
        lemma_rewrite_prefix(s, rep, j + 1, i0);
        assert(s.subrange(j, i0) =~= seq![s[j]] + s.subrange(j + 1, i0));
    } else {
        assert(s.subrange(j, i0) =~= Seq::<char>::empty());
    }
}

proof fn lemma_skip_tail(s: Seq<char>, rep: Seq<char>, j: int)
    requires
        0 <= j,
    ensures
        rewrite_pkgrel_lines(s, rep, j, true).len() == 0 || rewrite_pkgrel_lines(s, rep, j, true)[0] == '\n',
    decreases s.len() - j,
{
    lemma_key_chars();
    if j < s.len() {
        if s[j] != '\n' {
            lemma_skip_tail(s, rep, j + 1);
        } else {
            if pkgrel_line_at(s, j) {
                assert(s.subrange(j, j + 7)[0] == s[j]);
            }
        }
    }
}

/// After the `pkgrel=` lines are rewritten to `pkgrel={next}`, the first
/// such line reads back `next` (when `next` holds no line break).
proof fn lemma_rewrite_readback(s: Seq<char>, next: Seq<char>)
    requires
        pkgrel_capture(s) is Some,
        !next.contains('\n'),
    ensures
        pkgrel_capture(rewrite_pkgrel_lines(s, pkgrel_key() + next, 0, false)) == Some(next),
{
    lemma_key_chars();
    let rep = pkgrel_key() + next;
    lemma_first_elim(s, 0);
    let i0 = first_pkgrel_line(s, 0)->0;
    lemma_rewrite_prefix(s, rep, 0, i0);
    let r = rewrite_pkgrel_lines(s, rep, i0 + 1, true);
    lemma_skip_tail(s, rep, i0 + 1);
    let out = rewrite_pkgrel_lines(s, rep, 0, false);
    assert(out == s.subrange(0, i0) + rep + r);
    let pre = s.subrange(0, i0);
    assert forall|m: int| 0 <= m < i0 implies #[trigger] out[m] == s[m] by {}
    assert forall|t: int| 0 <= t < 7 implies #[trigger] out[i0 + t] == pkgrel_key()[t] by {}
    assert forall|t: int| 0 <= t < next.len() implies #[trigger] out[i0 + 7 + t] == next[t] by {}
    // the rewritten line is a `pkgrel=` line
    assert(out.subrange(i0, i0 + 7) =~= pkgrel_key());
    assert(pkgrel_line_at(out, i0)) by {
        if i0 != 0 {
            assert(s[i0 - 1] == '\n');
            assert(out[i0 - 1] == s[i0 - 1]);
        }
    }
    // and no earlier line is one
    assert forall|m: int| 0 <= m < i0 implies !pkgrel_line_at(out, m) by {
        assert(!pkgrel_line_at(s, m));
        if pkgrel_line_at(out, m) {
            if m + 7 <= i0 {
                assert(out.subrange(m, m + 7) =~= s.subrange(m, m + 7));
                if m != 0 {
                    assert(out[m - 1] == s[m - 1]);
                }
            } else {
                assert(i0 != 0);
                assert(s[i0 - 1] == '\n');
                let t = i0 - 1 - m;
                assert(0 <= t < 7);
                assert(out.subrange(m, m + 7)[t] == out[i0 - 1]);
                assert(pkgrel_key()[t] != '\n');
            }
        }
    }
    lemma_first_intro(out, 0, i0);
    let e = i0 + 7 + next.len();
    assert forall|m: int| i0 + 7 <= m < e implies out[m] != '\n' by {
        assert(out[m] == next[m - i0 - 7]);
        if out[m] == '\n' {
            assert(next.contains('\n'));
        }
    }
    assert(e == out.len() || out[e] == '\n') by {
        if e < out.len() {
            assert(out[e] == r[0]);
        }
    }
    lemma_line_end(out, i0 + 7, e);
    assert(out.subrange(i0 + 7, e) =~= next);
}

// ---------------------------------------------------------------------------
// Lemmas on release values
// ---------------------------------------------------------------------------

proof fn lemma_index_or_len_prefix(s: Seq<char>, c: char)
    ensures
        0 <= index_or_len(s, c) <= s.len(),
        forall|j: int| 0 <= j < index_or_len(s, c) ==> s[j] != c,
        index_or_len(s, c) < s.len() ==> s[index_or_len(s, c)] == c,
    decreases s.len(),
{
    if s.len() > 0 {
        let t = s.drop_last();
        lemma_index_or_len_prefix(t, c);
        assert forall|j: int| 0 <= j < index_or_len(s, c) implies s[j] != c by {
            if j < t.len() {
                assert(s[j] == t[j]);
            }
        }
    }
}

proof fn lemma_index_or_len_absent(s: Seq<char>, c: char)
    requires
        !s.contains(c),
    ensures
        index_or_len(s, c) == s.len(),
{
    lemma_index_or_len_prefix(s, c);
    if index_or_len(s, c) < s.len() {
        assert(s[index_or_len(s, c)] == c);
    }
}

proof fn lemma_strip_shape(s: Seq<char>)
    ensures
        forall|i: int| 0 <= i < strip_quotes_ws(s).len() ==> {
            let c = #[trigger] strip_quotes_ws(s)[i];
            c != '"' && c != '\'' && !is_white_space(c) && s.contains(c)
        },
    decreases s.len(),
{
    if s.len() > 0 {
        let t = s.drop_last();
        lemma_strip_shape(t);
        assert forall|i: int| 0 <= i < strip_quotes_ws(s).len() implies {
            let c = #[trigger] strip_quotes_ws(s)[i];
            c != '"' && c != '\'' && !is_white_space(c) && s.contains(c)
        } by {
            let c = strip_quotes_ws(s)[i];
            if i < strip_quotes_ws(t).len() {
                assert(strip_quotes_ws(t)[i] == c);
                let k = choose|k: int| 0 <= k < t.len() && t[k] == c;
                assert(s[k] == c);
            } else {
                assert(c == s.last());
                assert(s[s.len() - 1] == c);
            }
        }
    }
}

proof fn lemma_strip_plain(s: Seq<char>)
    requires
        is_plain(s),
    ensures
        strip_quotes_ws(s) == s,
    decreases s.len(),
{
    if s.len() > 0 {
        let t = s.drop_last();
        assert(is_plain(t)) by {
            assert forall|i: int| 0 <= i < t.len() implies plain_char(#[trigger] t[i]) by {
                assert(t[i] == s[i]);
            }
        }
        lemma_strip_plain(t);
        assert(plain_char(s[s.len() - 1]));
        assert(t.push(s.last()) =~= s);
    }
}

/// A release value read from a PKGBUILD holds no quote, `#` or whitespace.
proof fn lemma_value_clean(text: Seq<char>)
    requires
        pkgrel_value(text) is Some,
    ensures
        forall|i: int| 0 <= i < pkgrel_value(text)->0.len() ==> {
            let c = #[trigger] pkgrel_value(text)->0[i];
            c != '"' && c != '\'' && c != '#' && !is_white_space(c)
        },
{
    let raw = pkgrel_capture(text)->0;
    let k = index_or_len(raw, '#');
    lemma_index_or_len_prefix(raw, '#');
    let p = raw.take(k);
    lemma_strip_shape(p);
    let v = strip_quotes_ws(p);
    assert forall|i: int| 0 <= i < v.len() implies {
        let c = #[trigger] v[i];
        c != '"' && c != '\'' && c != '#' && !is_white_space(c)
    } by {
        let c = v[i];
        assert(p.contains(c));
        let j = choose|j: int| 0 <= j < p.len() && p[j] == c;
        assert(raw[j] == c);
    }
}

/// A text whose first `pkgrel=` line holds a plain value reads back as it.
proof fn lemma_value_of_plain_capture(text: Seq<char>, v: Seq<char>)
    requires
        pkgrel_capture(text) == Some(v),
        is_plain(v),
        v.len() > 0,
    ensures
        pkgrel_value(text) == Some(v),
{
    assert(!v.contains('#')) by {
        if v.contains('#') {
            let j = choose|j: int| 0 <= j < v.len() && v[j] == '#';
            assert(plain_char(v[j]));
        }
    }
    lemma_index_or_len_absent(v, '#');
    assert(v.take(v.len() as int) =~= v);
    lemma_strip_plain(v);
}

proof fn lemma_digit_char(d: nat)
    requires
        d < 10,
    ensures
        is_ascii_digit(digit_char(d)),
        plain_char(digit_char(d)),
        digit_char(d) != '.',
        digit_value(digit_char(d)) == d,
{
}

proof fn lemma_decimal_chars(n: nat)
    ensures
        decimal_chars(n).len() > 0,
        all_ascii_digits(decimal_chars(n)),
        is_plain(decimal_chars(n)),
        !decimal_chars(n).contains('.'),
        decimal_value(decimal_chars(n)) == n,
    decreases n,
{
    if n < 10 {
        lemma_digit_char(n);
        let s = decimal_chars(n);
        assert(s.drop_last() =~= Seq::<char>::empty());
        assert(decimal_value(s.drop_last()) == 0);
        assert(s.last() == digit_char(n));
        assert(!s.contains('.')) by {
            if s.contains('.') {
                let j = choose|j: int| 0 <= j < s.len() && s[j] == '.';
                assert(j == 0);
            }
        }
    } else {
        lemma_decimal_chars(n / 10);
        lemma_digit_char(n % 10);
        let p = decimal_chars(n / 10);
        let s = decimal_chars(n);
        assert(s == p.push(digit_char(n % 10)));
        assert(s.drop_last() =~= p);
        assert(s.last() == digit_char(n % 10));
        assert(decimal_value(s) == decimal_value(p) * 10 + digit_value(digit_char(n % 10)));
        assert(n == (n / 10) * 10 + n % 10);
        assert(!s.contains('.')) by {
            if s.contains('.') {
                let j = choose|j: int| 0 <= j < s.len() && s[j] == '.';
                if j < p.len() {
                    assert(p[j] == '.');
                }
            }
        }
    }
}

proof fn lemma_plain_concat(a: Seq<char>, b: Seq<char>)
    requires
        is_plain(a),
        is_plain(b),
    ensures
        is_plain(a + b),
{
    assert forall|i: int| 0 <= i < (a + b).len() implies plain_char(#[trigger] (a + b)[i]) by {
        if i < a.len() {
            assert((a + b)[i] == a[i]);
        } else {
            assert((a + b)[i] == b[i - a.len()]);
        }
    }
}

proof fn lemma_plain_not_contains(v: Seq<char>, c: char)
    requires
        is_plain(v),
        !plain_char(c),
    ensures
        !v.contains(c),
{
    if v.contains(c) {
        let j = choose|j: int| 0 <= j < v.len() && v[j] == c;
        assert(plain_char(v[j]));
    }
}

proof fn lemma_last_index_before(s: Seq<char>, c: char, i: int)
    requires
        0 <= i <= s.len(),
    ensures
        -1 <= last_index_before(s, c, i) < i,
        last_index_before(s, c, i) >= 0 ==> s[last_index_before(s, c, i)] == c,
        forall|j: int| last_index_before(s, c, i) < j < i ==> s[j] != c,
    decreases i,
{
    if i > 0 && s[i - 1] != c {
        lemma_last_index_before(s, c, i - 1);
    }
}

proof fn lemma_last_index_intro(s: Seq<char>, c: char, k: int)
    requires
        0 <= k < s.len(),
        s[k] == c,
        forall|j: int| k < j < s.len() ==> s[j] != c,
    ensures
        last_index_before(s, c, s.len() as int) == k,
{
    lemma_last_index_before(s, c, s.len() as int);
    let r = last_index_before(s, c, s.len() as int);
    if r < k {
        assert(s[k] != c);
    }
    if r > k {
        assert(s[r] == c);
    }
}

/// The numeric suffix of `base.digits`, when `base` has no line break.
proof fn lemma_numeric_suffix_of(base: Seq<char>, n: nat)
    requires
        !base.contains('\n'),
    ensures
        numeric_suffix(base + seq!['.'] + decimal_chars(n)) == Some((base, decimal_chars(n))),
{
    lemma_decimal_chars(n);
    let d = decimal_chars(n);
    let s = base + seq!['.'] + d;
    let k = base.len() as int;
    assert(s[k] == '.');
    assert forall|j: int| k < j < s.len() implies s[j] != '.' by {
        assert(s[j] == d[j - k - 1]);
        if s[j] == '.' {
            assert(d.contains('.'));
        }
    }
    lemma_last_index_intro(s, '.', k);
    assert(s.subrange(k + 1, s.len() as int) =~= d);
    assert(s.subrange(0, k) =~= base);
}

/// One bump step keeps a value plain.
proof fn lemma_next_plain(v: Seq<char>)
    requires
        is_plain(v),
    ensures
        is_plain(next_pkgrel(v)),
        !next_pkgrel(v).contains('\n'),
        next_pkgrel(v).len() > 0,
{
    lemma_digit_char(2);
    assert(is_plain(dot_two()));
    lemma_plain_concat(v, dot_two());
    match numeric_suffix(v) {
        Some((base, digits)) => {
            match parse_u32_digits(digits) {
                Some(k) => {
                    if k >= 2 {
                        let ghost kk = (k + 1) as nat;
                        lemma_decimal_chars(kk);
                        let k0 = last_index_before(v, '.', v.len() as int);
                        assert(is_plain(base)) by {
                            assert forall|i: int| 0 <= i < base.len() implies plain_char(#[trigger] base[i]) by {
                                assert(base[i] == v[i]);
                            }
                        }
                        assert(is_plain(seq!['.']));
                        lemma_plain_concat(base, seq!['.']);
                        lemma_plain_concat(base + seq!['.'], decimal_chars(kk));
                    }
                },
                None => {},
            }
        },
        None => {},
    }
    lemma_plain_not_contains(next_pkgrel(v), '\n');
}

// ---------------------------------------------------------------------------
// Laws
// ---------------------------------------------------------------------------

/// Bumping twice without a restore in between counts on: once a value has
/// been bumped, it ends in `.N` with `N >= 2`, and the next bump gives
/// `.N+1` with the same text before the dot.
pub proof fn law_next_pkgrel_counts_on(v: Seq<char>)
    requires
        !v.contains('\n'),
        !next_pkgrel_overflows(v),
    ensures
        numeric_suffix(next_pkgrel(v)) matches Some((base, digits))
            && parse_u32_digits(digits) matches Some(k)
            && k >= 2
            && (k < u32::MAX ==> next_pkgrel(next_pkgrel(v)) == base + seq!['.'] + decimal_chars((k + 1) as nat)),
{
    lemma_decimal_chars(2);
    assert(decimal_chars(2) =~= seq!['2']);
    assert(dot_two() =~= seq!['.'] + decimal_chars(2));
    let (b1, k1): (Seq<char>, nat) = match numeric_suffix(v) {
        Some((base, digits)) => match parse_u32_digits(digits) {
            Some(k) => if k >= 2 { (base, (k + 1) as nat) } else { (v, 2) },
            None => (v, 2),
        },
        None => (v, 2),
    };
    assert(next_pkgrel(v) == b1 + seq!['.'] + decimal_chars(k1)) by {
        assert(v + dot_two() =~= v + seq!['.'] + decimal_chars(2));
    }
    assert(!b1.contains('\n')) by {
        if b1 != v {
            let k0 = last_index_before(v, '.', v.len() as int);
            assert(b1 == v.subrange(0, k0));
        }
    }
    lemma_numeric_suffix_of(b1, k1);
    lemma_decimal_chars(k1);
    assert(2 <= k1 <= u32::MAX);
}

/// A clean run bumps once from upstream: with the backup equal to the live
/// PKGBUILD (release `v`), the bumped PKGBUILD's release is `next_pkgrel(v)`
/// (e.g. `1` becomes `1.2` every time).
pub proof fn law_bump_from_upstream(text: Seq<char>, v: Seq<char>)
    requires
        pkgrel_value(text) == Some(v),
    ensures
        pkgrel_value(bumped_pkgbuild(text, text)) == Some(next_pkgrel(v)),
{
    lemma_first_elim(text, 0);
    lemma_bump_reads_back(text, text, v);
}

/// A run that was stopped before the restore chains: when the live release
/// `l` differs from the backup's `b`, the bump starts from `l`
/// (`1.2` becomes `1.3`, and so on).
pub proof fn law_bump_chains_unrestored(live: Seq<char>, backup: Seq<char>, l: Seq<char>, b: Seq<char>)
    requires
        pkgrel_value(live) == Some(l),
        pkgrel_value(backup) == Some(b),
        l != b,
    ensures
        pkgrel_value(bumped_pkgbuild(live, backup)) == Some(next_pkgrel(l)),
{
    lemma_first_elim(backup, 0);
    lemma_bump_reads_back(live, backup, l);
}

proof fn lemma_bump_reads_back(live: Seq<char>, backup: Seq<char>, from: Seq<char>)
    requires
        pkgrel_value(live) is Some,
        backup.len() > 0,
        bump_baseline(live, backup) == from,
        pkgrel_value(live) == Some(from) || pkgrel_value(backup) == Some(from),
        has_pkgrel_line(backup),
        from.len() > 0,
    ensures
        pkgrel_value(bumped_pkgbuild(live, backup)) == Some(next_pkgrel(from)),
{
    if pkgrel_value(live) == Some(from) {
        lemma_value_clean(live);
    } else {
        lemma_value_clean(backup);
    }
    assert(is_plain(from)) by {
        assert forall|i: int| 0 <= i < from.len() implies plain_char(#[trigger] from[i]) by {
        }
    }
    lemma_next_plain(from);
    let n = next_pkgrel(from);
    lemma_key_chars();
    assert(bumped_pkgbuild(live, backup) == rewrite_pkgrel_lines(live, pkgrel_key() + n, 0, false));
    lemma_rewrite_readback(live, n);
    lemma_value_of_plain_capture(bumped_pkgbuild(live, backup), n);
}

/// Without a backup: bumping a PKGBUILD whose release is `v` gives
/// `next_pkgrel(v)`.
pub proof fn law_bump_without_backup(text: Seq<char>, v: Seq<char>)
    requires
        pkgrel_value(text) == Some(v),
    ensures
        pkgrel_value(bumped_pkgbuild(text, Seq::empty())) == Some(next_pkgrel(v)),
{
    let backup = Seq::<char>::empty();
    assert(bump_baseline(text, backup) == v);
    lemma_value_clean(text);
    assert(is_plain(v)) by {
        assert forall|i: int| 0 <= i < v.len() implies plain_char(#[trigger] v[i]) by {
        }
    }
    lemma_next_plain(v);
    let n = next_pkgrel(v);
    lemma_key_chars();
    lemma_rewrite_readback(text, n);
    lemma_value_of_plain_capture(bumped_pkgbuild(text, backup), n);
}

/// When neither the live PKGBUILD nor the backup has a `pkgrel=` line, the
/// bump adds `pkgrel=1.2`, which is then the release.
pub proof fn law_bump_adds_default(live: Seq<char>, backup: Seq<char>)
    requires
        !has_pkgrel_line(live),
        !has_pkgrel_line(backup),
    ensures
        pkgrel_value(bumped_pkgbuild(live, backup)) == Some(seq!['1', '.', '2']),
{
    lemma_key_chars();
    let out = with_default_pkgrel(live);
    assert(bumped_pkgbuild(live, backup) == out);
    let head = if live.len() > 0 && live.last() != '\n' { live.push('\n') } else { live };
    let h = head.len() as int;
    let tail = seq!['1', '.', '2', '\n'];
    assert(out == head + pkgrel_key() + tail);
    lemma_first_none(live, 0);
    assert forall|m: int| 0 <= m < live.len() implies #[trigger] out[m] == live[m] by {}
    assert forall|t: int| 0 <= t < 7 implies #[trigger] out[h + t] == pkgrel_key()[t] by {}
    assert(h > 0 ==> out[h - 1] == '\n');
    assert forall|m: int| 0 <= m < h implies !pkgrel_line_at(out, m) by {
        if pkgrel_line_at(out, m) {
            if m + 7 <= live.len() {
                assert(out.subrange(m, m + 7) =~= live.subrange(m, m + 7));
                if m != 0 {
                    assert(out[m - 1] == live[m - 1]);
                }
                assert(pkgrel_line_at(live, m));
            } else {
                let t = h - 1 - m;
                assert(0 <= t < 7);
                assert(out.subrange(m, m + 7)[t] == out[h - 1]);
            }
        }
    }
    assert(out.subrange(h, h + 7) =~= pkgrel_key());
    assert(pkgrel_line_at(out, h));
    lemma_first_intro(out, 0, h);
    lemma_line_end(out, h + 7, h + 10);
    let v = seq!['1', '.', '2'];
    assert(out.subrange(h + 7, h + 10) =~= v);
    lemma_digit_char(1);
    lemma_digit_char(2);
    assert(is_plain(v));
    lemma_value_of_plain_capture(out, v);
}

/// Two runs without a restore between them: the second bump chains from the
/// first (`1` becomes `1.2`, then `1.3`).
pub proof fn law_bump_twice_unrestored(text: Seq<char>, v: Seq<char>)
    requires
        pkgrel_value(text) == Some(v),
    ensures
        pkgrel_value(bumped_pkgbuild(bumped_pkgbuild(text, text), text)) == Some(next_pkgrel(next_pkgrel(v))),
{
    law_bump_from_upstream(text, v);
    let once = bumped_pkgbuild(text, text);
    let n = next_pkgrel(v);
    lemma_value_clean(text);
    assert(is_plain(v)) by {
        assert forall|i: int| 0 <= i < v.len() implies plain_char(#[trigger] v[i]) by {
        }
    }
    lemma_next_plain(v);
    lemma_plain_not_contains(v, '\n');
    assert(n != v) by {
        lemma_numeric_suffix_distinct(v);
    }
    law_bump_chains_unrestored(once, text, n, v);
}

proof fn lemma_numeric_suffix_distinct(v: Seq<char>)
    requires
        !v.contains('\n'),
    ensures
        next_pkgrel(v) != v,
{
    if next_pkgrel(v) == v {
        match numeric_suffix(v) {
            Some((base, digits)) => {
                match parse_u32_digits(digits) {
                    Some(k) => {
                        if k >= 2 {
                            // v is `base.digits`, and also `base.(k+1)`: the
                            // suffix would denote both k and k + 1
                            let k0 = last_index_before(v, '.', v.len() as int);
                            lemma_decimal_chars((k + 1) as nat);
                            lemma_numeric_suffix_of(base, (k + 1) as nat);
                            assert(numeric_suffix(v) == Some((base, decimal_chars((k + 1) as nat))));
                        } else {
                            assert((v + dot_two()).len() > v.len());
                        }
                    },
                    None => { assert((v + dot_two()).len() > v.len()); },
                }
            },
            None => { assert((v + dot_two()).len() > v.len()); },
        }
    }
}


// ---------------------------------------------------------------------------
// The rewrite, line by line
// ---------------------------------------------------------------------------

proof fn lemma_line_end_props(s: Seq<char>, k: int)
    requires
        0 <= k,
    ensures
        k <= line_end(s, k) || (k > s.len() && line_end(s, k) == s.len()),
        line_end(s, k) <= s.len(),
        forall|m: int| k <= m < line_end(s, k) ==> s[m] != '\n',
        line_end(s, k) == s.len() || s[line_end(s, k)] == '\n',
    decreases s.len() - k,
{
    if k < s.len() && s[k] != '\n' {
        lemma_line_end_props(s, k + 1);
    }
}

/// Every line replaced by `rep` when it begins with `pkgrel=`, the others
/// kept, taken one line at a time.
spec fn lines_rewrite(s: Seq<char>, rep: Seq<char>) -> Seq<char>
    decreases s.len(),
{
    let e = line_end(s, 0);
    let line = s.take(e);
    let head = if starts_with(line, pkgrel_key()) { rep } else { line };
    if e >= s.len() {
        head
    } else {
        proof {
            lemma_line_end_props(s, 0);
        }
        head + seq!['\n'] + lines_rewrite(s.skip(e + 1), rep)
    }
}

proof fn lemma_skip_to_line_end(s: Seq<char>, rep: Seq<char>, j: int, e: int)
    requires
        0 <= j <= e <= s.len(),
        forall|m: int| j <= m < e ==> s[m] != '\n',
    ensures
        rewrite_pkgrel_lines(s, rep, j, true) == rewrite_pkgrel_lines(s, rep, e, true),
    decreases e - j,
{
    if j < e {
        lemma_skip_to_line_end(s, rep, j + 1, e);
    }
}

proof fn lemma_newline_copied(s: Seq<char>, rep: Seq<char>, e: int, skipping: bool)
    requires
        0 <= e < s.len(),
        s[e] == '\n',
    ensures
        rewrite_pkgrel_lines(s, rep, e, skipping) == seq!['\n'] + rewrite_pkgrel_lines(s, rep, e + 1, false),
{
    lemma_key_chars();
    if pkgrel_line_at(s, e) {
        assert(s.subrange(e, e + 7)[0] == s[e]);
    }
}

/// The character-by-character rewrite is the line-by-line one.
proof fn lemma_rewrite_by_lines(s: Seq<char>, rep: Seq<char>, i: int)
    requires
        0 <= i <= s.len(),
        i == 0 || s[i - 1] == '\n',
    ensures
        rewrite_pkgrel_lines(s, rep, i, false) == lines_rewrite(s.skip(i), rep),
    decreases s.len() - i,
{
    lemma_key_chars();
    let t = s.skip(i);
    lemma_line_end_props(s, i);
    lemma_line_end_props(t, 0);
    let e = line_end(s, i);
    let et = line_end(t, 0);
    // the line ends at the same place, seen from `s` or from `t`
    assert(et == e - i) by {
        assert forall|m: int| 0 <= m < e - i implies t[m] != '\n' by {
            assert(t[m] == s[i + m]);
        }
        if e < s.len() {
            assert(t[e - i] == s[e]);
        }
        lemma_line_end(t, 0, e - i);
    }
    let line = t.take(et);
    assert(line =~= s.subrange(i, e));
    // the line begins with `pkgrel=` exactly where a release line starts
    assert(starts_with(line, pkgrel_key()) == pkgrel_line_at(s, i)) by {
        if pkgrel_line_at(s, i) {
            assert forall|m: int| i <= m < i + 7 implies s[m] != '\n' by {
                assert(s[m] == s.subrange(i, i + 7)[m - i]);
                assert(pkgrel_key()[m - i] != '\n');
            }
            if e < i + 7 {
                assert(s[e] != '\n');
            }
            assert(line.take(7) =~= s.subrange(i, i + 7));
        }
        if starts_with(line, pkgrel_key()) {
            assert(s.subrange(i, i + 7) =~= line.take(7));
        }
    }
    if pkgrel_line_at(s, i) {
        lemma_skip_to_line_end(s, rep, i + 1, e);
        if e < s.len() {
            lemma_newline_copied(s, rep, e, true);
            lemma_rewrite_by_lines(s, rep, e + 1);
            assert(t.skip(et + 1) =~= s.skip(e + 1));
        }
    } else {
        assert forall|m: int| i <= m < e implies !pkgrel_line_at(s, m) by {
            if m > i {
                assert(s[m - 1] != '\n');
            }
        }
        lemma_rewrite_prefix(s, rep, i, e);
        if e < s.len() {
            lemma_newline_copied(s, rep, e, false);
            lemma_rewrite_by_lines(s, rep, e + 1);
            assert(t.skip(et + 1) =~= s.skip(e + 1));
            assert(s.subrange(i, e) + (seq!['\n'] + rewrite_pkgrel_lines(s, rep, e + 1, false))
                =~= s.subrange(i, e) + seq!['\n'] + rewrite_pkgrel_lines(s, rep, e + 1, false));
        } else {
            assert(rewrite_pkgrel_lines(s, rep, e, false) =~= Seq::<char>::empty());
            assert(s.subrange(i, e) + Seq::<char>::empty() =~= s.subrange(i, e));
        }
    }
}

/// Rewriting the release lines twice is rewriting them once with the
/// second replacement, when the first is itself a release line.
proof fn lemma_lines_rewrite_twice(s: Seq<char>, r1: Seq<char>, r2: Seq<char>)
    requires
        !r1.contains('\n'),
        starts_with(r1, pkgrel_key()),
    ensures
        lines_rewrite(lines_rewrite(s, r1), r2) == lines_rewrite(s, r2),
    decreases s.len(),
{
    lemma_line_end_props(s, 0);
    let e = line_end(s, 0);
    let line = s.take(e);
    let head1 = if starts_with(line, pkgrel_key()) { r1 } else { line };
    let u = lines_rewrite(s, r1);
    assert forall|m: int| 0 <= m < head1.len() implies head1[m] != '\n' by {
        if starts_with(line, pkgrel_key()) {
            if r1[m] == '\n' {
                assert(r1.contains('\n'));
            }
        } else {
            assert(line[m] == s[m]);
        }
    }
    let h = head1.len() as int;
    if e >= s.len() {
        assert(u == head1);
        lemma_line_end(u, 0, h);
        assert(u.take(h) =~= head1);
    } else {
        let rest = s.skip(e + 1);
        assert(u == head1 + seq!['\n'] + lines_rewrite(rest, r1));
        assert forall|m: int| 0 <= m < h implies u[m] != '\n' by {
            assert(u[m] == head1[m]);
        }
        assert(u[h] == '\n');
        lemma_line_end(u, 0, h);
        assert(u.take(h) =~= head1);
        assert(u.skip(h + 1) =~= lines_rewrite(rest, r1));
        lemma_lines_rewrite_twice(rest, r1, r2);
    }
}

/// The PKGBUILD after `k` bumps with no restore between them, each made
/// against the backup `t` taken before the first.
pub open spec fn bumped_times(t: Seq<char>, k: nat) -> Seq<char>
    decreases k,
{
    if k == 0 {
        t
    } else {
        bumped_pkgbuild(bumped_times(t, (k - 1) as nat), t)
    }
}

proof fn lemma_next_of_one()
    ensures
        next_pkgrel(seq!['1']) == seq!['1', '.'] + decimal_chars(2),
{
    let one = seq!['1'];
    assert(last_index_before(one, '.', 0) == -1);
    assert(last_index_before(one, '.', 1) == -1);
    assert(numeric_suffix(one) is None);
    lemma_decimal_chars(2);
    assert(decimal_chars(2) =~= seq!['2']);
    assert(one + dot_two() =~= seq!['1', '.'] + decimal_chars(2));
}

proof fn lemma_next_of_one_dot(n: nat)
    requires
        2 <= n < u32::MAX,
    ensures
        next_pkgrel(seq!['1', '.'] + decimal_chars(n)) == seq!['1', '.'] + decimal_chars(n + 1),
{
    let one = seq!['1'];
    assert(!one.contains('\n')) by {
        if one.contains('\n') {
            let j = choose|j: int| 0 <= j < one.len() && one[j] == '\n';
        }
    }
    lemma_numeric_suffix_of(one, n);
    lemma_decimal_chars(n);
    assert(one + seq!['.'] + decimal_chars(n) =~= seq!['1', '.'] + decimal_chars(n));
    assert(parse_u32_digits(decimal_chars(n)) == Some(n as u32));
    assert(one + seq!['.'] + decimal_chars(n + 1) =~= seq!['1', '.'] + decimal_chars(n + 1));
}

/// A release line `pkgrel=1.{n}` holds no line break and begins with
/// `pkgrel=`.
proof fn lemma_one_dot_line(n: nat)
    ensures
        !(pkgrel_key() + (seq!['1', '.'] + decimal_chars(n))).contains('\n'),
        starts_with(pkgrel_key() + (seq!['1', '.'] + decimal_chars(n)), pkgrel_key()),
{
    lemma_key_chars();
    lemma_decimal_chars(n);
    let d = decimal_chars(n);
    let r = pkgrel_key() + (seq!['1', '.'] + d);
    assert(r.take(7) =~= pkgrel_key());
    if r.contains('\n') {
        let j = choose|j: int| 0 <= j < r.len() && r[j] == '\n';
        if j < 7 {
            assert(pkgrel_key()[j] == '\n');
        } else if j < 9 {
            assert(r[j] == seq!['1', '.'][j - 7]);
        } else {
            assert(r[j] == d[j - 9]);
            assert(plain_char(d[j - 9]));
        }
    }
}

/// Rewriting the release lines of a text that was rewritten before is
/// rewriting the first text.
proof fn lemma_rewrite_again(t: Seq<char>, r1: Seq<char>, r2: Seq<char>)
    requires
        !r1.contains('\n'),
        starts_with(r1, pkgrel_key()),
    ensures
        pkgrel_rewrite(pkgrel_rewrite(t, r1), r2) == pkgrel_rewrite(t, r2),
{
    let u = pkgrel_rewrite(t, r1);
    lemma_rewrite_by_lines(t, r1, 0);
    lemma_rewrite_by_lines(u, r2, 0);
    lemma_rewrite_by_lines(t, r2, 0);
    assert(t.skip(0) =~= t);
    assert(u.skip(0) =~= u);
    lemma_lines_rewrite_twice(t, r1, r2);
}

/// A run stopped before the restore, again and again: when the upstream
/// PKGBUILD `t` has the release `1`, the `k`-th bump without a restore in
/// between gives `t` with every release line replaced by
/// `pkgrel=1.{k+1}` (`1.2`, `1.3`, ..., `1.10`, ...) and every other line
/// kept, so the release reads `1.{k+1}`, as far as the number fits in `u32`.
pub proof fn law_bump_k_times_unrestored(t: Seq<char>, k: nat)
    requires
        pkgrel_value(t) == Some(seq!['1']),
        1 <= k,
        k + 1 <= u32::MAX,
    ensures
        pkgrel_value(bumped_times(t, k)) == Some(seq!['1', '.'] + decimal_chars(k + 1)),
        bumped_times(t, k) == pkgrel_rewrite(t, pkgrel_key() + (seq!['1', '.'] + decimal_chars(k + 1))),
    decreases k,
{
    if k == 1 {
        assert(bumped_times(t, 0) == t);
        law_bump_from_upstream(t, seq!['1']);
        lemma_next_of_one();
        assert(bump_baseline(t, t) == seq!['1']);
    } else {
        law_bump_k_times_unrestored(t, (k - 1) as nat);
        let v = seq!['1', '.'] + decimal_chars(k);
        assert(v != seq!['1']) by {
            assert(v.len() > 1);
        }
        let live = bumped_times(t, (k - 1) as nat);
        law_bump_chains_unrestored(live, t, v, seq!['1']);
        lemma_next_of_one_dot(k);
        assert(bump_baseline(live, t) == v);
        assert(bumped_times(t, k) == pkgrel_rewrite(live, pkgrel_key() + next_pkgrel(v)));
        lemma_one_dot_line(k);
        lemma_rewrite_again(t, pkgrel_key() + v, pkgrel_key() + (seq!['1', '.'] + decimal_chars(k + 1)));
    }
}

} // verus!
