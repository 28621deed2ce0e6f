use vstd::prelude::*;

verus! {

/// Lexicographic order on character sequences: the order of `str` and
/// `String` (UTF-8 byte order is code point order).
pub open spec fn chars_lt(a: Seq<char>, b: Seq<char>) -> bool
    decreases a.len(),
{
    if a.len() == 0 {
        b.len() > 0
    } else if b.len() == 0 {
        false
    } else if a[0] != b[0] {
        a[0] < b[0]
    } else {
        chars_lt(a.skip(1), b.skip(1))
    }
}

/// Lexicographic order on sequences of character sequences.
pub open spec fn keys_lt(a: Seq<Seq<char>>, b: Seq<Seq<char>>) -> bool
    decreases a.len(),
{
    if a.len() == 0 {
        b.len() > 0
    } else if b.len() == 0 {
        false
    } else if a[0] != b[0] {
        chars_lt(a[0], b[0])
    } else {
        keys_lt(a.skip(1), b.skip(1))
    }
}

pub proof fn lemma_chars_lt_irreflexive(a: Seq<char>)
    ensures
        !chars_lt(a, a),
    decreases a.len(),
{
    if a.len() > 0 {
        lemma_chars_lt_irreflexive(a.skip(1));
    }
}

pub proof fn lemma_chars_lt_total(a: Seq<char>, b: Seq<char>)
    ensures
        a == b || chars_lt(a, b) || chars_lt(b, a),
        !(chars_lt(a, b) && chars_lt(b, a)),
    decreases a.len(),
{
    if a.len() > 0 && b.len() > 0 && a[0] == b[0] {
        lemma_chars_lt_total(a.skip(1), b.skip(1));
        if a.skip(1) == b.skip(1) {
            assert(a =~= seq![a[0]] + a.skip(1));
            assert(b =~= seq![b[0]] + b.skip(1));
        }
    } else if a.len() == 0 && b.len() == 0 {
        assert(a =~= b);
    }
}

pub proof fn lemma_chars_lt_transitive(a: Seq<char>, b: Seq<char>, c: Seq<char>)
    requires
        chars_lt(a, b),
        chars_lt(b, c),
    ensures
        chars_lt(a, c),
    decreases a.len(),
{
    if a.len() > 0 && b.len() > 0 && c.len() > 0 && a[0] == b[0] && b[0] == c[0] {
        lemma_chars_lt_transitive(a.skip(1), b.skip(1), c.skip(1));
    }
}

pub proof fn lemma_keys_lt_irreflexive(a: Seq<Seq<char>>)
    ensures
        !keys_lt(a, a),
    decreases a.len(),
{
    if a.len() > 0 {
        lemma_keys_lt_irreflexive(a.skip(1));
    }
}

pub proof fn lemma_keys_lt_total(a: Seq<Seq<char>>, b: Seq<Seq<char>>)
    ensures
        a == b || keys_lt(a, b) || keys_lt(b, a),
        !(keys_lt(a, b) && keys_lt(b, a)),
    decreases a.len(),
{
    if a.len() > 0 && b.len() > 0 {
        if a[0] == b[0] {
            lemma_keys_lt_total(a.skip(1), b.skip(1));
            if a.skip(1) == b.skip(1) {
                assert(a =~= seq![a[0]] + a.skip(1));
                assert(b =~= seq![b[0]] + b.skip(1));
            }
        } else {
            lemma_chars_lt_total(a[0], b[0]);
        }
    } else if a.len() == 0 && b.len() == 0 {
        assert(a =~= b);
    }
}

pub proof fn lemma_keys_lt_transitive(a: Seq<Seq<char>>, b: Seq<Seq<char>>, c: Seq<Seq<char>>)
    requires
        keys_lt(a, b),
        keys_lt(b, c),
    ensures
        keys_lt(a, c),
    decreases a.len(),
{
    if a.len() > 0 && b.len() > 0 && c.len() > 0 {
        if a[0] == b[0] && b[0] == c[0] {
            lemma_keys_lt_transitive(a.skip(1), b.skip(1), c.skip(1));
        } else if a[0] == b[0] {
        } else if b[0] == c[0] {
        } else {
            lemma_chars_lt_transitive(a[0], b[0], c[0]);
            lemma_chars_lt_total(a[0], c[0]);
            if a[0] == c[0] {
                lemma_chars_lt_total(a[0], b[0]);
            }
        }
    }
}

/// The result of comparing two keys.
#[derive(Debug, PartialEq, Eq, Clone, Copy)]
pub enum Order3 {
    Before,
    Same,
    After,
}

/// Compares two character sequences lexicographically.
pub fn compare_chars(a: &Vec<char>, b: &Vec<char>) -> (r: Order3)
    ensures
        (r is Before) <==> chars_lt(a@, b@),
        (r is Same) <==> a@ == b@,
        (r is After) <==> chars_lt(b@, a@),
{
    proof {
        lemma_chars_lt_total(a@, b@);
        lemma_chars_lt_irreflexive(a@);
    }
    let mut i: usize = 0;
    assert(a@.skip(0) =~= a@);
    assert(b@.skip(0) =~= b@);
    while i < a.len() && i < b.len() && a[i] == b[i]
        invariant
            i <= a.len(),
            i <= b.len(),
            a@.take(i as int) == b@.take(i as int),
            chars_lt(a@, b@) == chars_lt(a@.skip(i as int), b@.skip(i as int)),
            chars_lt(b@, a@) == chars_lt(b@.skip(i as int), a@.skip(i as int)),
        decreases a.len() - i,
    {
        assert(a@.skip(i as int).skip(1) =~= a@.skip(i + 1));
        assert(b@.skip(i as int).skip(1) =~= b@.skip(i + 1));
        assert(a@.take(i + 1) =~= a@.take(i as int).push(a@[i as int]));
        assert(b@.take(i + 1) =~= b@.take(i as int).push(b@[i as int]));
        i = i + 1;
    }
    if i < a.len() && i < b.len() {
        if a[i] < b[i] {
            Order3::Before
        } else {
            Order3::After
        }
    } else if i < b.len() {
        assert(a@.take(i as int) =~= a@);
        Order3::Before
    } else if i < a.len() {
        assert(b@.take(i as int) =~= b@);
        Order3::After
    } else {
        assert(a@ =~= a@.take(i as int));
        assert(b@ =~= b@.take(i as int));
        Order3::Same
    }
}

pub open spec fn key_views(k: Seq<Vec<char>>) -> Seq<Seq<char>> {
    k.map_values(|v: Vec<char>| v@)
}

/// Compares two keys (sequences of character sequences) lexicographically.
pub fn compare_keys(a: &Vec<Vec<char>>, b: &Vec<Vec<char>>) -> (r: Order3)
    ensures
        (r is Before) <==> keys_lt(key_views(a@), key_views(b@)),
        (r is Same) <==> key_views(a@) == key_views(b@),
        (r is After) <==> keys_lt(key_views(b@), key_views(a@)),
{
    let ghost ka = key_views(a@);
    let ghost kb = key_views(b@);
    proof {
        lemma_keys_lt_total(ka, kb);
        lemma_keys_lt_irreflexive(ka);
    }
    let mut i: usize = 0;
    assert(ka.skip(0) =~= ka);
    assert(kb.skip(0) =~= kb);
    while i < a.len() && i < b.len()
        invariant
            ka == key_views(a@),
            kb == key_views(b@),
            i <= a.len(),
            i <= b.len(),
            ka.take(i as int) == kb.take(i as int),
            keys_lt(ka, kb) == keys_lt(ka.skip(i as int), kb.skip(i as int)),
            keys_lt(kb, ka) == keys_lt(kb.skip(i as int), ka.skip(i as int)),
        decreases a.len() - i,
    {
        let c = compare_chars(&a[i], &b[i]);
        assert(ka[i as int] == a@[i as int]@);
        assert(kb[i as int] == b@[i as int]@);
        assert(ka.skip(i as int)[0] == ka[i as int]);
        assert(kb.skip(i as int)[0] == kb[i as int]);
        match c {
            Order3::Before => {
                proof { lemma_chars_lt_total(ka[i as int], kb[i as int]); }
                return Order3::Before;
            },
            Order3::After => {
                proof { lemma_chars_lt_total(ka[i as int], kb[i as int]); }
                return Order3::After;
            },
            Order3::Same => {},
        }
        assert(ka.skip(i as int).skip(1) =~= ka.skip(i + 1));
        assert(kb.skip(i as int).skip(1) =~= kb.skip(i + 1));
        assert(ka.take(i + 1) =~= ka.take(i as int).push(ka[i as int]));
        assert(kb.take(i + 1) =~= kb.take(i as int).push(kb[i as int]));
        i = i + 1;
    }
    if i < b.len() {
        assert(ka.take(i as int) =~= ka);
        Order3::Before
    } else if i < a.len() {
        assert(kb.take(i as int) =~= kb);
        Order3::After
    } else {
        assert(ka =~= ka.take(i as int));
        assert(kb =~= kb.take(i as int));
        Order3::Same
    }
}

/// The keys at these positions are strictly increasing.
pub open spec fn strictly_sorted_by(keys: Seq<Seq<Seq<char>>>, idx: Seq<usize>) -> bool {
    &&& forall|i: int| 0 <= i < idx.len() ==> #[trigger] idx[i] < keys.len()
    &&& forall|i: int, j: int| 0 <= i < j < idx.len() ==> keys_lt(keys[idx[i] as int], keys[idx[j] as int])
}

pub open spec fn all_keys(keys: Seq<Vec<Vec<char>>>) -> Seq<Seq<Seq<char>>> {
    keys.map_values(|k: Vec<Vec<char>>| key_views(k@))
}

/// The positions of distinct keys, ordered by key.
pub fn sorted_positions(keys: &Vec<Vec<Vec<char>>>) -> (r: Vec<usize>)
    requires
        forall|i: int, j: int| 0 <= i < j < keys.len() ==> all_keys(keys@)[i] != all_keys(keys@)[j],
    ensures
        strictly_sorted_by(all_keys(keys@), r@),
        r.len() == keys.len(),
        forall|p: usize| p < keys.len() ==> r@.contains(p),
{
    let ghost ks = all_keys(keys@);
    let mut out: Vec<usize> = Vec::new();
    let mut n: usize = 0;
    while n < keys.len()
        invariant
            ks == all_keys(keys@),
            n <= keys.len(),
            out.len() == n,
            forall|i: int, j: int| 0 <= i < j < keys.len() ==> ks[i] != ks[j],
            strictly_sorted_by(ks, out@),
            forall|i: int| 0 <= i < out.len() ==> #[trigger] out@[i] < n,
            forall|p: usize| p < n ==> out@.contains(p),
        decreases keys.len() - n,
    {
        // find the first position whose key is after keys[n]
        let mut p: usize = 0;
        while p < out.len() && !matches!(compare_keys(&keys[out[p]], &keys[n]), Order3::After)
            invariant
                ks == all_keys(keys@),
                n < keys.len(),
                p <= out.len(),
                out.len() == n,
                forall|i: int| 0 <= i < out.len() ==> #[trigger] out@[i] < n,
                forall|i: int| 0 <= i < p ==> keys_lt(ks[#[trigger] out@[i] as int], ks[n as int]),
                forall|i: int, j: int| 0 <= i < j < keys.len() ==> ks[i] != ks[j],
            decreases out.len() - p,
        {
            proof {
                assert(ks[out@[p as int] as int] == key_views(keys@[out@[p as int] as int]@));
                assert(ks[n as int] == key_views(keys@[n as int]@));
                lemma_keys_lt_total(ks[out@[p as int] as int], ks[n as int]);
            }
            p = p + 1;
        }
        proof {
            if p < out.len() {
                assert(ks[out@[p as int] as int] == key_views(keys@[out@[p as int] as int]@));
                assert(ks[n as int] == key_views(keys@[n as int]@));
                assert(keys_lt(ks[n as int], ks[out@[p as int] as int]));
                assert forall|i: int| p <= i < out.len() implies keys_lt(ks[n as int], ks[#[trigger] out@[i] as int]) by {
                    if i > p {
                        lemma_keys_lt_transitive(ks[n as int], ks[out@[p as int] as int], ks[out@[i] as int]);
                    }
                }
            }
        }
        let ghost old_out = out@;
        out.insert(p, n);
        proof {
            assert(out@ =~= old_out.insert(p as int, n));
            assert forall|i: int, j: int| 0 <= i < j < out@.len() implies keys_lt(ks[out@[i] as int], ks[out@[j] as int]) by {
                if j < p {
                } else if j == p {
                } else if i < p {
                    assert(out@[j] == old_out[j - 1]);
                    if j - 1 >= p {
                        assert(keys_lt(ks[n as int], ks[old_out[j - 1] as int]));
                        lemma_keys_lt_transitive(ks[old_out[i] as int], ks[n as int], ks[old_out[j - 1] as int]);
                    }
                } else if i == p {
                    assert(out@[j] == old_out[j - 1]);
                } else {
                    assert(out@[i] == old_out[i - 1]);
                    assert(out@[j] == old_out[j - 1]);
                }
            }
            assert forall|q: usize| q < n + 1 implies out@.contains(q) by {
                if q == n {
                    assert(out@[p as int] == n);
                } else {
                    assert(old_out.contains(q));
                    let k = choose|k: int| 0 <= k < old_out.len() && old_out[k] == q;
                    if k < p {
                        assert(out@[k] == q);
                    } else {
                        assert(out@[k + 1] == q);
                    }
                }
            }
        }
        n = n + 1;
    }
    out
}

} // verus!
