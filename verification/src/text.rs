use vstd::prelude::*;

verus! {

broadcast use vstd::string::group_string_axioms;

/// Unicode `White_Space`: the characters for which `char::is_whitespace` holds.
pub open spec fn is_white_space(c: char) -> bool {
    let u = c as u32;
    ||| 0x09 <= u <= 0x0d
    ||| u == 0x20
    ||| u == 0x85
    ||| u == 0xa0
    ||| u == 0x1680
    ||| 0x2000 <= u <= 0x200a
    ||| u == 0x2028
    ||| u == 0x2029
    ||| u == 0x202f
    ||| u == 0x205f
    ||| u == 0x3000
}

/// Whether `c` has the Unicode `White_Space` property, as
/// `char::is_whitespace` decides.
pub(crate) fn char_is_whitespace(c: char) -> (b: bool)
    ensures
        b == is_white_space(c),
{
    let u = c as u32;
    (0x09 <= u && u <= 0x0d) || u == 0x20 || u == 0x85 || u == 0xa0 || u == 0x1680
        || (0x2000 <= u && u <= 0x200a) || u == 0x2028 || u == 0x2029 || u == 0x202f
        || u == 0x205f || u == 0x3000
}

/// `String::push` from std: appends one character.
#[verifier::external_body]
fn string_push(s: &mut String, c: char)
    ensures
        final(s)@ == old(s)@.push(c),
{
    s.push(c);
}

/// The characters of a string slice, in order.
pub fn str_chars(s: &str) -> (r: Vec<char>)
    ensures
        r@ == s@,
{
    let mut out: Vec<char> = Vec::new();
    let mut it = s.chars();
    for c in iter: it
        invariant
            out@ == iter.seq().take(iter.index()),
            iter.seq() == s@,
    {
        out.push(c);
    }
    out
}

/// Builds a string from a sequence of characters.
pub fn chars_string(cs: &Vec<char>) -> (r: String)
    ensures
        r@ == cs@,
{
    let mut out = String::new();
    let mut i: usize = 0;
    while i < cs.len()
        invariant
            i <= cs.len(),
            out@ == cs@.take(i as int),
        decreases cs.len() - i,
    {
        string_push(&mut out, cs[i]);
        assert(cs@.take(i as int).push(cs@[i as int]) =~= cs@.take(i + 1));
        i = i + 1;
    }
    assert(cs@.take(cs.len() as int) =~= cs@);
    out
}

/// Appends the characters of `s` to `v`.
pub fn push_str_chars(v: &mut Vec<char>, s: &str)
    ensures
        final(v)@ == old(v)@ + s@,
{
    let cs = str_chars(s);
    let mut i: usize = 0;
    let ghost start = v@;
    while i < cs.len()
        invariant
            i <= cs.len(),
            cs@ == s@,
            v@ == start + cs@.take(i as int),
        decreases cs.len() - i,
    {
        v.push(cs[i]);
        assert(start + cs@.take(i + 1) =~= (start + cs@.take(i as int)).push(cs@[i as int]));
        i = i + 1;
    }
    assert(cs@.take(cs.len() as int) =~= cs@);
}

/// Character-wise equality of two sequences.
pub fn chars_eq(a: &Vec<char>, b: &Vec<char>) -> (r: bool)
    ensures
        r == (a@ == b@),
{
    if a.len() != b.len() {
        return false;
    }
    let mut i: usize = 0;
    while i < a.len()
        invariant
            a.len() == b.len(),
            i <= a.len(),
            forall|j: int| 0 <= j < i ==> a@[j] == b@[j],
        decreases a.len() - i,
    {
        if a[i] != b[i] {
            return false;
        }
        i = i + 1;
    }
    assert(a@ =~= b@);
    true
}

/// An ASCII decimal digit, `0` to `9`.
pub open spec fn is_ascii_digit(c: char) -> bool {
    '0' <= c <= '9'
}

pub open spec fn digit_value(c: char) -> nat {
    (c as u32 - '0' as u32) as nat
}

pub open spec fn all_ascii_digits(s: Seq<char>) -> bool {
    forall|i: int| 0 <= i < s.len() ==> is_ascii_digit(#[trigger] s[i])
}

/// The number that a string of decimal digits denotes.
pub open spec fn decimal_value(s: Seq<char>) -> nat
    decreases s.len(),
{
    if s.len() == 0 {
        0
    } else {
        decimal_value(s.drop_last()) * 10 + digit_value(s.last())
    }
}

/// What `str::parse::<u32>` gives for a non-empty string of ASCII digits.
pub open spec fn parse_u32_digits(s: Seq<char>) -> Option<u32> {
    if decimal_value(s) <= u32::MAX {
        Some(decimal_value(s) as u32)
    } else {
        None
    }
}

/// The character of one decimal digit.
pub open spec fn digit_char(d: nat) -> char {
    if d == 0 { '0' }
    else if d == 1 { '1' }
    else if d == 2 { '2' }
    else if d == 3 { '3' }
    else if d == 4 { '4' }
    else if d == 5 { '5' }
    else if d == 6 { '6' }
    else if d == 7 { '7' }
    else if d == 8 { '8' }
    else { '9' }
}

/// The decimal representation of a number, as `format!("{}", n)` writes it.
pub open spec fn decimal_chars(n: nat) -> Seq<char>
    decreases n,
{
    if n < 10 {
        seq![digit_char(n)]
    } else {
        decimal_chars(n / 10).push(digit_char(n % 10))
    }
}

fn digit_char_of(d: u64) -> (c: char)
    requires
        d < 10,
    ensures
        c == digit_char(d as nat),
{
    if d == 0 { '0' }
    else if d == 1 { '1' }
    else if d == 2 { '2' }
    else if d == 3 { '3' }
    else if d == 4 { '4' }
    else if d == 5 { '5' }
    else if d == 6 { '6' }
    else if d == 7 { '7' }
    else if d == 8 { '8' }
    else { '9' }
}

/// Appends the decimal representation of `n` to `v`.
pub fn push_decimal(v: &mut Vec<char>, n: u64)
    ensures
        final(v)@ == old(v)@ + decimal_chars(n as nat),
    decreases n,
{
    if n < 10 {
        v.push(digit_char_of(n));
        assert(decimal_chars(n as nat) == seq![digit_char(n as nat)]);
    } else {
        let ghost before = v@;
        push_decimal(v, n / 10);
        v.push(digit_char_of(n % 10));
        assert(v@ =~= before + decimal_chars(n as nat));
    }
}

proof fn lemma_decimal_value_grows(s: Seq<char>, c: char)
    ensures
        decimal_value(s.push(c)) >= decimal_value(s),
        decimal_value(s.push(c)) == decimal_value(s) * 10 + digit_value(c),
{
    assert(s.push(c).drop_last() =~= s);
}

/// Parses a string of ASCII digits as `str::parse::<u32>` does.
pub fn parse_u32_chars(s: &Vec<char>) -> (r: Option<u32>)
    requires
        all_ascii_digits(s@),
    ensures
        r == parse_u32_digits(s@),
{
    let mut acc: u64 = 0;
    let mut over = false;
    let mut i: usize = 0;
    assert(s@.take(0) =~= Seq::<char>::empty());
    while i < s.len()
        invariant
            i <= s.len(),
            all_ascii_digits(s@),
            !over ==> acc == decimal_value(s@.take(i as int)) && acc <= u32::MAX,
            over ==> decimal_value(s@.take(i as int)) > u32::MAX,
        decreases s.len() - i,
    {
        let c = s[i];
        assert(is_ascii_digit(s@[i as int]));
        let d: u64 = (c as u32 - '0' as u32) as u64;
        proof {
            lemma_decimal_value_grows(s@.take(i as int), c);
            assert(s@.take(i as int).push(c) =~= s@.take(i + 1));
        }
        if !over {
            acc = acc * 10 + d;
            if acc > 0xffff_ffffu64 {
                over = true;
            }
        }
        i = i + 1;
    }
    assert(s@.take(s.len() as int) =~= s@);
    if over {
        None
    } else {
        Some(acc as u32)
    }
}


// ---------------------------------------------------------------------------
// Trimming, splitting and parsing character sequences
// ---------------------------------------------------------------------------

/// `s` without its leading whitespace (`str::trim_start`).
pub open spec fn trim_start_ws(s: Seq<char>) -> Seq<char>
    decreases s.len(),
{
    if s.len() > 0 && is_white_space(s[0]) {
        trim_start_ws(s.skip(1))
    } else {
        s
    }
}

/// `s` without its trailing whitespace (`str::trim_end`).
pub open spec fn trim_end_ws(s: Seq<char>) -> Seq<char>
    decreases s.len(),
{
    if s.len() > 0 && is_white_space(s.last()) {
        trim_end_ws(s.drop_last())
    } else {
        s
    }
}

/// `str::trim`: without leading and trailing whitespace.
pub open spec fn trim_ws(s: Seq<char>) -> Seq<char> {
    trim_end_ws(trim_start_ws(s))
}

/// `str::split(c)`: the pieces between the occurrences of `c`; one more
/// piece than there are occurrences.
pub open spec fn split_on(s: Seq<char>, c: char) -> Seq<Seq<char>>
    decreases s.len(),
{
    if s.len() == 0 {
        seq![Seq::empty()]
    } else {
        let p = split_on(s.drop_last(), c);
        if s.last() == c {
            p.push(Seq::empty())
        } else {
            p.update(p.len() - 1, p.last().push(s.last()))
        }
    }
}

/// `s` without any occurrence of `c`.
pub open spec fn remove_char(s: Seq<char>, c: char) -> Seq<char>
    decreases s.len(),
{
    if s.len() == 0 {
        s
    } else if s.last() == c {
        remove_char(s.drop_last(), c)
    } else {
        remove_char(s.drop_last(), c).push(s.last())
    }
}

/// `s` begins with `p`.
pub open spec fn starts_with(s: Seq<char>, p: Seq<char>) -> bool {
    p.len() <= s.len() && s.take(p.len() as int) == p
}

/// What `str::parse::<usize>` gives: an optional `+` and a non-empty run of
/// ASCII digits whose value fits in `usize`.
pub open spec fn parse_usize(s: Seq<char>) -> Option<nat> {
    let d = if s.len() > 0 && s[0] == '+' { s.skip(1) } else { s };
    if d.len() > 0 && all_ascii_digits(d) && decimal_value(d) <= usize::MAX {
        Some(decimal_value(d))
    } else {
        None
    }
}

proof fn lemma_trim_start_step(s: Seq<char>, i: int)
    requires
        0 <= i < s.len(),
        is_white_space(s[i]),
    ensures
        trim_start_ws(s.skip(i)) == trim_start_ws(s.skip(i + 1)),
{
    assert(s.skip(i).skip(1) =~= s.skip(i + 1));
}

/// `str::trim` on a character sequence.
pub fn trim_chars(cs: &Vec<char>) -> (r: Vec<char>)
    ensures
        r@ == trim_ws(cs@),
{
    let mut i: usize = 0;
    assert(cs@.skip(0) =~= cs@);
    while i < cs.len() && char_is_whitespace(cs[i])
        invariant
            i <= cs.len(),
            trim_start_ws(cs@) == trim_start_ws(cs@.skip(i as int)),
        decreases cs.len() - i,
    {
        proof { lemma_trim_start_step(cs@, i as int); }
        i = i + 1;
    }
    let mut j: usize = cs.len();
    let ghost t = cs@.skip(i as int);
    assert(trim_start_ws(t) == t);
    assert(cs@.subrange(i as int, j as int) =~= t);
    while j > i && char_is_whitespace(cs[j - 1])
        invariant
            i <= j <= cs.len(),
            t == cs@.skip(i as int),
            trim_end_ws(t) == trim_end_ws(cs@.subrange(i as int, j as int)),
        decreases j,
    {
        assert(cs@.subrange(i as int, j as int).drop_last() =~= cs@.subrange(i as int, j - 1));
        j = j - 1;
    }
    let mut out: Vec<char> = Vec::new();
    let mut k: usize = i;
    while k < j
        invariant
            i <= k <= j <= cs.len(),
            out@ == cs@.subrange(i as int, k as int),
        decreases j - k,
    {
        out.push(cs[k]);
        assert(cs@.subrange(i as int, k + 1) =~= cs@.subrange(i as int, k as int).push(cs@[k as int]));
        k = k + 1;
    }
    out
}

/// The part of `cs` from `a` up to `b`.
pub fn sub_chars(cs: &Vec<char>, a: usize, b: usize) -> (r: Vec<char>)
    requires
        a <= b <= cs.len(),
    ensures
        r@ == cs@.subrange(a as int, b as int),
{
    let mut out: Vec<char> = Vec::new();
    let mut k: usize = a;
    while k < b
        invariant
            a <= k <= b <= cs.len(),
            out@ == cs@.subrange(a as int, k as int),
        decreases b - k,
    {
        out.push(cs[k]);
        assert(cs@.subrange(a as int, k + 1) =~= cs@.subrange(a as int, k as int).push(cs@[k as int]));
        k = k + 1;
    }
    out
}

pub open spec fn views(vs: Seq<Vec<char>>) -> Seq<Seq<char>> {
    vs.map_values(|v: Vec<char>| v@)
}

/// `str::split(c)` on a character sequence.
pub fn split_chars(cs: &Vec<char>, c: char) -> (r: Vec<Vec<char>>)
    ensures
        views(r@) == split_on(cs@, c),
{
    let mut done: Vec<Vec<char>> = Vec::new();
    let mut cur: Vec<char> = Vec::new();
    let mut i: usize = 0;
    assert(cs@.take(0) =~= Seq::<char>::empty());
    assert(views(done@).push(cur@) =~= split_on(Seq::<char>::empty(), c));
    while i < cs.len()
        invariant
            i <= cs.len(),
            views(done@).push(cur@) == split_on(cs@.take(i as int), c),
        decreases cs.len() - i,
    {
        let x = cs[i];
        assert(cs@.take(i + 1).drop_last() =~= cs@.take(i as int));
        assert(cs@.take(i + 1).last() == x);
        let ghost before = views(done@).push(cur@);
        if x == c {
            let piece = cur;
            done.push(piece);
            cur = Vec::new();
            assert(views(done@).push(cur@) =~= before.push(Seq::empty()));
        } else {
            cur.push(x);
            assert(views(done@).push(cur@) =~= before.update(before.len() - 1, before.last().push(x)));
        }
        i = i + 1;
    }
    assert(cs@.take(cs.len() as int) =~= cs@);
    done.push(cur);
    assert(views(done@) =~= split_on(cs@, c));
    done
}

/// `cs` without any occurrence of `c`.
pub fn remove_char_chars(cs: &Vec<char>, c: char) -> (r: Vec<char>)
    ensures
        r@ == remove_char(cs@, c),
{
    let mut out: Vec<char> = Vec::new();
    let mut i: usize = 0;
    assert(cs@.take(0) =~= Seq::<char>::empty());
    while i < cs.len()
        invariant
            i <= cs.len(),
            out@ == remove_char(cs@.take(i as int), c),
        decreases cs.len() - i,
    {
        assert(cs@.take(i + 1).drop_last() =~= cs@.take(i as int));
        assert(cs@.take(i + 1).last() == cs@[i as int]);
        if cs[i] != c {
            out.push(cs[i]);
        }
        i = i + 1;
    }
    assert(cs@.take(cs.len() as int) =~= cs@);
    out
}

/// Whether `cs` begins with `p`.
pub fn starts_with_chars(cs: &Vec<char>, p: &Vec<char>) -> (r: bool)
    ensures
        r == starts_with(cs@, p@),
{
    if p.len() > cs.len() {
        return false;
    }
    let mut i: usize = 0;
    while i < p.len()
        invariant
            p.len() <= cs.len(),
            i <= p.len(),
            forall|j: int| 0 <= j < i ==> cs@[j] == p@[j],
        decreases p.len() - i,
    {
        if cs[i] != p[i] {
            assert(cs@.take(p.len() as int)[i as int] != p@[i as int]);
            return false;
        }
        i = i + 1;
    }
    assert(cs@.take(p.len() as int) =~= p@);
    true
}

/// Parses `cs` as `str::parse::<usize>` does.
pub fn parse_usize_chars(cs: &Vec<char>) -> (r: Option<usize>)
    ensures
        match r {
            Some(v) => parse_usize(cs@) == Some(v as nat),
            None => parse_usize(cs@) is None,
        },
{
    let start: usize = if cs.len() > 0 && cs[0] == '+' { 1 } else { 0 };
    let ghost d = if cs@.len() > 0 && cs@[0] == '+' { cs@.skip(1) } else { cs@ };
    assert(d =~= cs@.skip(start as int));
    if start >= cs.len() {
        assert(d.len() == 0);
        return None;
    }
    let mut acc: usize = 0;
    let mut over = false;
    let mut i: usize = start;
    assert(d.take(0) =~= Seq::<char>::empty());
    while i < cs.len()
        invariant
            start <= i <= cs.len(),
            d == cs@.skip(start as int),
            d == (if cs@.len() > 0 && cs@[0] == '+' { cs@.skip(1) } else { cs@ }),
            all_ascii_digits(d.take(i - start)),
            !over ==> acc == decimal_value(d.take(i - start)),
            over ==> decimal_value(d.take(i - start)) > usize::MAX,
        decreases cs.len() - i,
    {
        let c = cs[i];
        if !('0' <= c && c <= '9') {
            assert(!all_ascii_digits(d)) by {
                assert(d[i - start] == c);
            }
            return None;
        }
        let dv: usize = (c as u32 - '0' as u32) as usize;
        proof {
            lemma_decimal_value_grows(d.take(i - start), c);
            assert(d.take(i - start).push(c) =~= d.take(i - start + 1));
        }
        if !over {
            if acc > (usize::MAX - dv) / 10 {
                over = true;
            } else {
                acc = acc * 10 + dv;
            }
        }
        i = i + 1;
    }
    assert(d.take(d.len() as int) =~= d);
    if over {
        None
    } else {
        Some(acc)
    }
}


/// What `str::to_lowercase` gives (Unicode lower-casing).
pub uninterp spec fn unicode_lowercase(s: Seq<char>) -> Seq<char>;

pub open spec fn is_ascii_seq(s: Seq<char>) -> bool {
    forall|i: int| 0 <= i < s.len() ==> (#[trigger] s[i] as u32) < 128
}

pub open spec fn ascii_lower_char(c: char) -> char {
    if 'A' <= c <= 'Z' {
        ((c as u32) + 32) as char
    } else {
        c
    }
}

pub open spec fn ascii_lowercase(s: Seq<char>) -> Seq<char> {
    s.map_values(|c: char| ascii_lower_char(c))
}

/// `str::to_lowercase` from std: the result is named; on ASCII text it maps
/// `A`-`Z` to `a`-`z` and keeps every other character.
#[verifier::external_body]
pub(crate) fn str_to_lowercase(s: &str) -> (r: String)
    ensures
        r@ == unicode_lowercase(s@),
        is_ascii_seq(s@) ==> r@ == ascii_lowercase(s@),
{
    s.to_lowercase()
}

/// `s` ends with `p`.
pub open spec fn ends_with(s: Seq<char>, p: Seq<char>) -> bool {
    p.len() <= s.len() && s.skip(s.len() - p.len()) == p
}

/// Whether `cs` ends with `p`.
pub fn ends_with_chars(cs: &Vec<char>, p: &Vec<char>) -> (r: bool)
    ensures
        r == ends_with(cs@, p@),
{
    if p.len() > cs.len() {
        return false;
    }
    let off = cs.len() - p.len();
    let mut i: usize = 0;
    while i < p.len()
        invariant
            p.len() <= cs.len(),
            off == cs.len() - p.len(),
            i <= p.len(),
            forall|j: int| 0 <= j < i ==> cs@[off + j] == p@[j],
        decreases p.len() - i,
    {
        if cs[off + i] != p[i] {
            assert(cs@.skip(off as int)[i as int] != p@[i as int]);
            return false;
        }
        i = i + 1;
    }
    assert(cs@.skip(off as int) =~= p@);
    true
}

/// The views of a sequence of strings.
pub open spec fn string_views(v: Seq<String>) -> Seq<Seq<char>> {
    v.map_values(|s: String| s@)
}

/// The position of the first whitespace character, or the length.
pub open spec fn first_ws_index(s: Seq<char>) -> int
    decreases s.len(),
{
    if s.len() == 0 || is_white_space(s[0]) {
        0
    } else {
        1 + first_ws_index(s.skip(1))
    }
}

/// The first whitespace-separated word (`split_whitespace().next()`).
pub open spec fn first_word(s: Seq<char>) -> Option<Seq<char>> {
    let t = trim_start_ws(s);
    if t.len() == 0 {
        None
    } else {
        Some(t.take(first_ws_index(t)))
    }
}

/// The first whitespace-separated word of a text.
pub fn first_word_of(s: &str) -> (r: Option<String>)
    ensures
        match r {
            Some(w) => first_word(s@) == Some(w@),
            None => first_word(s@) is None,
        },
{
    let cs = str_chars(s);
    let mut i: usize = 0;
    assert(cs@.skip(0) =~= cs@);
    while i < cs.len() && char_is_whitespace(cs[i])
        invariant
            i <= cs.len(),
            trim_start_ws(cs@) == trim_start_ws(cs@.skip(i as int)),
        decreases cs.len() - i,
    {
        proof { lemma_trim_start_step(cs@, i as int); }
        i = i + 1;
    }
    let ghost t = cs@.skip(i as int);
    assert(trim_start_ws(t) == t);
    if i == cs.len() {
        assert(t.len() == 0);
        return None;
    }
    let mut j: usize = i;
    assert(cs@.skip(i as int).skip(0) =~= t);
    while j < cs.len() && !char_is_whitespace(cs[j])
        invariant
            i <= j <= cs.len(),
            t == cs@.skip(i as int),
            first_ws_index(t) == (j - i) + first_ws_index(cs@.skip(j as int)),
        decreases cs.len() - j,
    {
        assert(cs@.skip(j as int).skip(1) =~= cs@.skip(j + 1));
        j = j + 1;
    }
    let w = sub_chars(&cs, i, j);
    assert(w@ =~= t.take(j - i));
    Some(chars_string(&w))
}

} // verus!

verus! {

/// Whether two string slices hold the same characters.
pub fn str_eq(a: &str, b: &str) -> (r: bool)
    ensures
        r == (a@ == b@),
{
    chars_eq(&str_chars(a), &str_chars(b))
}

} // verus!
