use vstd::prelude::*;
use crate::order::{
    all_keys, compare_keys, key_views, keys_lt, lemma_keys_lt_irreflexive, lemma_keys_lt_total, sorted_positions,
    strictly_sorted_by, Order3,
};
use crate::text::{split_chars, split_on, str_chars, views};

verus! {

broadcast use vstd::string::group_string_axioms;

pub open spec fn root_mark() -> Seq<char> {
    seq!['\u{1}']
}

pub open spec fn cur_mark() -> Seq<char> {
    seq!['\u{2}']
}

pub open spec fn parent_mark() -> Seq<char> {
    seq!['\u{3}']
}

/// A named component, marked so that it orders after the root, `.` and
/// `..` components, as `std::path::Component` orders them.
pub open spec fn normal_mark(name: Seq<char>) -> Seq<char> {
    seq!['\u{4}'] + name
}

/// The components that the `/`-separated pieces contribute: empty pieces
/// and `.` add none, `..` is the parent component, others are named.
pub open spec fn piece_components(pieces: Seq<Seq<char>>) -> Seq<Seq<char>>
    decreases pieces.len(),
{
    if pieces.len() == 0 {
        Seq::empty()
    } else {
        let acc = piece_components(pieces.drop_last());
        let x = pieces.last();
        if x.len() == 0 || x == seq!['.'] {
            acc
        } else if x == seq!['.', '.'] {
            acc.push(parent_mark())
        } else {
            acc.push(normal_mark(x))
        }
    }
}

/// The components of a Unix path as `Path::components` yields them (a
/// leading `/` is the root; a leading `.` without a root is the current
/// directory), each written as a marked character sequence. Two paths are
/// equal, and ordered, as these sequences are.
pub open spec fn path_key(p: Seq<char>) -> Seq<Seq<char>> {
    let pieces = split_on(p, '/');
    let root = p.len() > 0 && p[0] == '/';
    let cur = !root && pieces[0] == seq!['.'];
    if root {
        seq![root_mark()] + piece_components(pieces)
    } else if cur {
        seq![cur_mark()] + piece_components(pieces.skip(1))
    } else {
        piece_components(pieces)
    }
}

proof fn lemma_split_nonempty(s: Seq<char>, c: char)
    ensures
        split_on(s, c).len() > 0,
    decreases s.len(),
{
    if s.len() > 0 {
        lemma_split_nonempty(s.drop_last(), c);
    }
}

fn is_dot(x: &Vec<char>) -> (r: bool)
    ensures
        r == (x@ == seq!['.']),
{
    if x.len() == 1 && x[0] == '.' {
        assert(x@ =~= seq!['.']);
        true
    } else {
        false
    }
}

fn is_dot_dot(x: &Vec<char>) -> (r: bool)
    ensures
        r == (x@ == seq!['.', '.']),
{
    if x.len() == 2 && x[0] == '.' && x[1] == '.' {
        assert(x@ =~= seq!['.', '.']);
        true
    } else {
        false
    }
}

fn marked(mark: char, name: &Vec<char>) -> (r: Vec<char>)
    ensures
        r@ == seq![mark] + name@,
{
    let mut out: Vec<char> = Vec::new();
    out.push(mark);
    let mut i: usize = 0;
    while i < name.len()
        invariant
            i <= name.len(),
            out@ == seq![mark] + name@.take(i as int),
        decreases name.len() - i,
    {
        out.push(name[i]);
        assert(seq![mark] + name@.take(i + 1) =~= (seq![mark] + name@.take(i as int)).push(name@[i as int]));
        i = i + 1;
    }
    assert(name@.take(name.len() as int) =~= name@);
    out
}

/// The components of a path (see `path_key`).
pub fn path_key_of(p: &str) -> (r: Vec<Vec<char>>)
    ensures
        key_views(r@) == path_key(p@),
{
    let cs = str_chars(p);
    let pieces = split_chars(&cs, '/');
    proof { lemma_split_nonempty(cs@, '/'); }
    let root = cs.len() > 0 && cs[0] == '/';
    let cur = !root && is_dot(&pieces[0]);
    let mut out: Vec<Vec<char>> = Vec::new();
    let start: usize = if cur { 1 } else { 0 };
    if root {
        out.push(marked('\u{1}', &Vec::new()));
    } else if cur {
        out.push(marked('\u{2}', &Vec::new()));
    }
    let ghost head = key_views(out@);
    assert(head =~= (if root { seq![root_mark()] } else if cur { seq![cur_mark()] } else { Seq::<Seq<char>>::empty() }));
    let ghost ps = views(pieces@).skip(start as int);
    let mut i: usize = start;
    assert(views(pieces@).skip(start as int).take(0) =~= Seq::<Seq<char>>::empty());
    while i < pieces.len()
        invariant
            start <= i <= pieces.len(),
            ps == views(pieces@).skip(start as int),
            key_views(out@) == head + piece_components(ps.take(i - start)),
        decreases pieces.len() - i,
    {
        let ghost pre = key_views(out@);
        assert(ps.take(i - start + 1).drop_last() =~= ps.take(i - start));
        assert(ps.take(i - start + 1).last() == pieces@[i as int]@);
        let x = &pieces[i];
        if x.len() == 0 || is_dot(x) {
        } else if is_dot_dot(x) {
            out.push(marked('\u{3}', &Vec::new()));
            assert(key_views(out@) =~= pre.push(parent_mark()));
        } else {
            out.push(marked('\u{4}', x));
            assert(key_views(out@) =~= pre.push(normal_mark(x@)));
        }
        assert(head + piece_components(ps.take(i - start + 1)) =~= key_views(out@));
        i = i + 1;
    }
    assert(ps.take(pieces.len() - start) =~= ps);
    assert(views(pieces@).skip(0) =~= views(pieces@));
    out
}

/// Position `i` holds the first path with its components.
#[verifier::opaque]
pub open spec fn first_of_its_path(paths: Seq<String>, i: int) -> bool {
    forall|j: int| 0 <= j < i ==> path_key(#[trigger] paths[j]@) != path_key(paths[i]@)
}

/// `x` is the first path of its kind among `paths`.
pub open spec fn is_first_copy(paths: Seq<String>, x: Seq<char>) -> bool {
    exists|i: int| 0 <= i < paths.len() && x == paths[i]@ && first_of_its_path(paths, i)
}

/// Some path in `r` has the components `k`.
pub open spec fn has_path_key(r: Seq<String>, k: Seq<Seq<char>>) -> bool {
    exists|t: int| 0 <= t < r.len() && path_key(r[t]@) == k
}

/// `r` is `src` sorted by path components with the later of equal paths
/// dropped: strictly increasing, each entry the first of its kind in
/// `src`, and every path of `src` represented.
pub open spec fn sorted_dedup_of(src: Seq<String>, r: Seq<String>) -> bool {
    &&& forall|i: int, j: int| 0 <= i < j < r.len() ==> keys_lt(path_key(r[i]@), path_key(r[j]@))
    &&& forall|t: int| 0 <= t < r.len() ==> is_first_copy(src, #[trigger] r[t]@)
    &&& forall|i: int| 0 <= i < src.len() ==> has_path_key(r, path_key(#[trigger] src[i]@))
}

pub open spec fn pk(paths: Seq<String>, j: int) -> Seq<Seq<char>> {
    path_key(paths[j]@)
}

/// The positions of the first path of each kind, in order, with their
/// components; `cover[j]` names the kept position with the path of `j`.
fn first_positions(paths: &Vec<String>) -> (r: (Vec<usize>, Vec<Vec<Vec<char>>>, Ghost<Seq<int>>))
    ensures
        r.0.len() == r.1.len(),
        forall|a: int| 0 <= a < r.0.len() ==> #[trigger] r.0@[a] < paths.len(),
        forall|a: int| 0 <= a < r.0.len() ==> key_views(#[trigger] r.1@[a]@) == pk(paths@, r.0@[a] as int),
        forall|a: int| 0 <= a < r.0.len() ==> first_of_its_path(paths@, #[trigger] r.0@[a] as int),
        forall|a: int, b: int| 0 <= a < b < r.0.len() ==> all_keys(r.1@)[a] != all_keys(r.1@)[b],
        r.2@.len() == paths.len(),
        forall|j: int| 0 <= j < paths.len() ==> 0 <= #[trigger] r.2@[j] < r.0.len(),
        forall|j: int| 0 <= j < paths.len() ==> pk(paths@, j) == pk(paths@, r.0@[#[trigger] r.2@[j]] as int),
{
    let mut kept: Vec<usize> = Vec::new();
    let mut kept_keys: Vec<Vec<Vec<char>>> = Vec::new();
    let ghost mut cover: Seq<int> = Seq::empty();
    let mut i: usize = 0;
    while i < paths.len()
        invariant
            i <= paths.len(),
            kept.len() == kept_keys.len(),
            forall|a: int| 0 <= a < kept.len() ==> #[trigger] kept@[a] < i,
            forall|a: int| 0 <= a < kept.len() ==> key_views(#[trigger] kept_keys@[a]@) == pk(paths@, kept@[a] as int),
            forall|a: int| 0 <= a < kept.len() ==> first_of_its_path(paths@, #[trigger] kept@[a] as int),
            forall|a: int, b: int| 0 <= a < b < kept.len() ==> all_keys(kept_keys@)[a] != all_keys(kept_keys@)[b],
            cover.len() == i,
            forall|j: int| 0 <= j < i ==> 0 <= #[trigger] cover[j] < kept.len(),
            forall|j: int| 0 <= j < i ==> pk(paths@, j) == pk(paths@, kept@[#[trigger] cover[j]] as int),
        decreases paths.len() - i,
    {
        let k = path_key_of(paths[i].as_str());
        let mut found: Option<usize> = None;
        let mut a: usize = 0;
        while a < kept.len()
            invariant
                i < paths.len(),
                a <= kept.len(),
                kept.len() == kept_keys.len(),
                key_views(k@) == pk(paths@, i as int),
                forall|b: int| 0 <= b < kept.len() ==> key_views(#[trigger] kept_keys@[b]@) == pk(paths@, kept@[b] as int),
                found matches Some(b) ==> b < kept.len() && pk(paths@, i as int) == pk(paths@, kept@[b as int] as int),
                found is None ==> forall|b: int| 0 <= b < a ==> pk(paths@, i as int) != pk(paths@, #[trigger] kept@[b] as int),
            decreases kept.len() - a,
        {
            if found.is_none() && matches!(compare_keys(&kept_keys[a], &k), Order3::Same) {
                found = Some(a);
            }
            a = a + 1;
        }
        match found {
            Some(b) => {
                proof { cover = cover.push(b as int); }
            },
            None => {
                proof {
                    reveal(first_of_its_path);
                    assert forall|j: int| 0 <= j < i implies path_key(#[trigger] paths@[j]@) != path_key(paths@[i as int]@) by {
                        let c = cover[j];
                        assert(pk(paths@, j) == pk(paths@, kept@[c] as int));
                        assert(pk(paths@, i as int) != pk(paths@, kept@[c] as int));
                    }
                }
                let ghost old_kk = all_keys(kept_keys@);
                let ghost old_kept = kept@;
                kept.push(i);
                kept_keys.push(k);
                proof {
                    cover = cover.push((kept.len() - 1) as int);
                    assert forall|a: int, b: int| 0 <= a < b < kept.len() implies all_keys(kept_keys@)[a] != all_keys(kept_keys@)[b] by {
                        assert(all_keys(kept_keys@)[a] == key_views(kept_keys@[a]@));
                        assert(all_keys(kept_keys@)[b] == key_views(kept_keys@[b]@));
                        if b == kept.len() - 1 {
                            assert(pk(paths@, i as int) != pk(paths@, kept@[a] as int));
                        } else {
                            assert(old_kk[a] != old_kk[b]);
                        }
                    }
                    assert forall|j: int| 0 <= j < i + 1 implies pk(paths@, j) == pk(paths@, kept@[#[trigger] cover[j]] as int) by {
                        if j < i {
                            assert(kept@[cover[j]] == old_kept[cover[j]]);
                        }
                    }
                }
            },
        }
        i = i + 1;
    }
    (kept, kept_keys, Ghost(cover))
}

/// Sorts paths by their components and drops the later of equal ones, as
/// `sort()` followed by `dedup()` on a `Vec<PathBuf>` does (the sort is
/// stable, so the first of equal paths stays).
#[verifier::spinoff_prover]
#[verifier::rlimit(60)]
pub fn sort_dedup_paths(paths: &Vec<String>) -> (r: Vec<String>)
    ensures
        sorted_dedup_of(paths@, r@),
{
    let (kept, kept_keys, Ghost(cover)) = first_positions(paths);
    let order = sorted_positions(&kept_keys);
    let mut out: Vec<String> = Vec::new();
    let mut t: usize = 0;
    while t < order.len()
        invariant
            t <= order.len(),
            order.len() == kept.len(),
            kept.len() == kept_keys.len(),
            strictly_sorted_by(all_keys(kept_keys@), order@),
            forall|a: int| 0 <= a < kept.len() ==> #[trigger] kept@[a] < paths.len(),
            out.len() == t,
            forall|s: int| 0 <= s < t ==> #[trigger] out@[s]@ == paths@[kept@[order@[s] as int] as int]@,
        decreases order.len() - t,
    {
        let p = kept[order[t]];
        out.push(paths[p].clone());
        t = t + 1;
    }
    proof {
        assert forall|x: int, y: int| 0 <= x < y < out.len() implies keys_lt(path_key(out@[x]@), path_key(out@[y]@)) by {
            let ox = order@[x] as int;
            let oy = order@[y] as int;
            assert(all_keys(kept_keys@)[ox] == key_views(kept_keys@[ox]@));
            assert(all_keys(kept_keys@)[oy] == key_views(kept_keys@[oy]@));
        }
        assert forall|s: int| 0 <= s < out.len() implies is_first_copy(paths@, #[trigger] out@[s]@) by {
            let i = kept@[order@[s] as int] as int;
            assert(out@[s]@ == paths@[i]@);
            assert(first_of_its_path(paths@, kept@[order@[s] as int] as int));
        }
        assert forall|j: int| 0 <= j < paths.len() implies has_path_key(out@, path_key(#[trigger] paths@[j]@)) by {
            let a = cover[j];
            assert(0 <= a < kept.len());
            assert(order@.contains(a as usize));
            let s = choose|s: int| 0 <= s < order.len() && order@[s] == a as usize;
            assert(out@[s]@ == paths@[kept@[a] as int]@);
            assert(pk(paths@, j) == pk(paths@, kept@[a] as int));
        }
    }
    out
}

} // verus!

verus! {

/// Two strictly increasing key sequences, each holding every key of the
/// other, agree on their first `k` positions.
proof fn lemma_sorted_keys_prefix(k1: Seq<Seq<Seq<char>>>, k2: Seq<Seq<Seq<char>>>, k: int)
    requires
        forall|i: int, j: int| 0 <= i < j < k1.len() ==> keys_lt(k1[i], k1[j]),
        forall|i: int, j: int| 0 <= i < j < k2.len() ==> keys_lt(k2[i], k2[j]),
        forall|i: int| 0 <= i < k1.len() ==> k2.contains(#[trigger] k1[i]),
        forall|i: int| 0 <= i < k2.len() ==> k1.contains(#[trigger] k2[i]),
        0 <= k <= k1.len(),
        k <= k2.len(),
    ensures
        forall|i: int| 0 <= i < k ==> k1[i] == k2[i],
    decreases k,
{
    if k > 0 {
        lemma_sorted_keys_prefix(k1, k2, k - 1);
        let m = k - 1;
        if k1[m] != k2[m] {
            assert(k2.contains(k1[m]));
            let q = choose|q: int| 0 <= q < k2.len() && k2[q] == k1[m];
            assert(k1.contains(k2[m]));
            let p = choose|p: int| 0 <= p < k1.len() && k1[p] == k2[m];
            lemma_keys_lt_irreflexive(k1[m]);
            lemma_keys_lt_irreflexive(k2[m]);
            if q < m {
                assert(k1[q] == k1[m]);
                assert(keys_lt(k1[q], k1[m]));
            } else if p < m {
                assert(k2[p] == k2[m]);
                assert(keys_lt(k2[p], k2[m]));
            } else {
                assert(keys_lt(k2[m], k2[q]));
                assert(keys_lt(k1[m], k1[p]));
                lemma_keys_lt_total(k1[m], k2[m]);
            }
        }
    }
}

proof fn lemma_key_sequences_equal(k1: Seq<Seq<Seq<char>>>, k2: Seq<Seq<Seq<char>>>)
    requires
        forall|i: int, j: int| 0 <= i < j < k1.len() ==> keys_lt(k1[i], k1[j]),
        forall|i: int, j: int| 0 <= i < j < k2.len() ==> keys_lt(k2[i], k2[j]),
        forall|i: int| 0 <= i < k1.len() ==> k2.contains(#[trigger] k1[i]),
        forall|i: int| 0 <= i < k2.len() ==> k1.contains(#[trigger] k2[i]),
    ensures
        k1 == k2,
{
    if k1.len() <= k2.len() {
        lemma_sorted_keys_prefix(k1, k2, k1.len() as int);
        if k2.len() > k1.len() {
            let m = k1.len() as int;
            assert(k1.contains(k2[m]));
            let p = choose|p: int| 0 <= p < k1.len() && k1[p] == k2[m];
            assert(k2[p] == k2[m]);
            lemma_keys_lt_irreflexive(k2[m]);
            assert(keys_lt(k2[p], k2[m]));
        }
    } else {
        lemma_sorted_keys_prefix(k1, k2, k2.len() as int);
        let m = k2.len() as int;
        assert(k2.contains(k1[m]));
        let q = choose|q: int| 0 <= q < k2.len() && k2[q] == k1[m];
        assert(k1[q] == k1[m]);
        lemma_keys_lt_irreflexive(k1[m]);
        assert(keys_lt(k1[q], k1[m]));
    }
    assert(k1 =~= k2);
}

pub open spec fn key_seq(r: Seq<String>) -> Seq<Seq<Seq<char>>> {
    r.map_values(|s: String| path_key(s@))
}

/// Sorting and dropping repeats has one outcome: any two results for the
/// same paths hold the same paths in the same order.
pub proof fn law_sort_dedup_unique(src: Seq<String>, r1: Seq<String>, r2: Seq<String>)
    requires
        sorted_dedup_of(src, r1),
        sorted_dedup_of(src, r2),
    ensures
        r1.len() == r2.len(),
        forall|i: int| 0 <= i < r1.len() ==> (#[trigger] r1[i])@ == r2[i]@,
{
    let k1 = key_seq(r1);
    let k2 = key_seq(r2);
    assert forall|i: int| 0 <= i < k1.len() implies k2.contains(#[trigger] k1[i]) by {
        assert(is_first_copy(src, r1[i]@));
        let a = choose|a: int| 0 <= a < src.len() && r1[i]@ == src[a]@ && first_of_its_path(src, a);
        assert(has_path_key(r2, path_key(src[a]@)));
        let t = choose|t: int| 0 <= t < r2.len() && path_key(r2[t]@) == path_key(src[a]@);
        assert(k2[t] == k1[i]);
    }
    assert forall|i: int| 0 <= i < k2.len() implies k1.contains(#[trigger] k2[i]) by {
        assert(is_first_copy(src, r2[i]@));
        let a = choose|a: int| 0 <= a < src.len() && r2[i]@ == src[a]@ && first_of_its_path(src, a);
        assert(has_path_key(r1, path_key(src[a]@)));
        let t = choose|t: int| 0 <= t < r1.len() && path_key(r1[t]@) == path_key(src[a]@);
        assert(k1[t] == k2[i]);
    }
    lemma_key_sequences_equal(k1, k2);
    assert forall|i: int| 0 <= i < r1.len() implies (#[trigger] r1[i])@ == r2[i]@ by {
        assert(k1[i] == k2[i]);
        assert(is_first_copy(src, r1[i]@));
        assert(is_first_copy(src, r2[i]@));
        let a = choose|a: int| 0 <= a < src.len() && r1[i]@ == src[a]@ && first_of_its_path(src, a);
        let b = choose|b: int| 0 <= b < src.len() && r2[i]@ == src[b]@ && first_of_its_path(src, b);
        reveal(first_of_its_path);
        if a < b {
            assert(path_key(src[a]@) == path_key(src[b]@));
        } else if b < a {
            assert(path_key(src[b]@) == path_key(src[a]@));
        }
    }
}

} // verus!
