use vstd::prelude::*;

verus! {

/// The package names of the available artifacts, as character sequences.
pub open spec fn name_views(names: Seq<Option<String>>) -> Seq<Option<Seq<char>>> {
    names.map_values(|o: Option<String>| match o {
        Some(s) => Some(s@),
        None => None,
    })
}

/// The dependency names of the available artifacts.
pub open spec fn deps_views(deps: Seq<Vec<String>>) -> Seq<Seq<Seq<char>>> {
    deps.map_values(|v: Vec<String>| v@.map_values(|s: String| s@))
}

/// The artifact that provides package `d`: the last one with that name (a
/// later artifact of the same name replaces an earlier one in the map).
pub open spec fn provider(names: Seq<Option<Seq<char>>>, d: Seq<char>) -> Option<usize>
    decreases names.len(),
{
    if names.len() == 0 {
        None
    } else if names.last() == Some(d) {
        Some((names.len() - 1) as usize)
    } else {
        provider(names.drop_last(), d)
    }
}

/// The package names of the selected artifacts.
pub open spec fn selected_names(names: Seq<Option<Seq<char>>>, sel: Seq<usize>) -> Set<Seq<char>>
    decreases sel.len(),
{
    if sel.len() == 0 {
        Set::empty()
    } else {
        let p = selected_names(names, sel.drop_last());
        match names[sel.last() as int] {
            Some(d) => p.insert(d),
            None => p,
        }
    }
}

/// Takes in the dependencies `ds` in order: a dependency that is not yet
/// selected and that an artifact provides adds its name and that artifact.
pub open spec fn absorb(
    names: Seq<Option<Seq<char>>>,
    ds: Seq<Seq<char>>,
    pkgs: Set<Seq<char>>,
    sel: Seq<usize>,
) -> (Set<Seq<char>>, Seq<usize>)
    decreases ds.len(),
{
    if ds.len() == 0 {
        (pkgs, sel)
    } else {
        let (p, s) = absorb(names, ds.drop_last(), pkgs, sel);
        let d = ds.last();
        if p.contains(d) {
            (p, s)
        } else {
            match provider(names, d) {
                Some(f) => (p.insert(d), s.push(f)),
                None => (p, s),
            }
        }
    }
}

/// The dependencies of the artifacts `cur`, in order.
pub open spec fn flat_deps(deps: Seq<Seq<Seq<char>>>, cur: Seq<usize>) -> Seq<Seq<char>>
    decreases cur.len(),
{
    if cur.len() == 0 {
        Seq::empty()
    } else {
        flat_deps(deps, cur.drop_last()) + deps[cur.last() as int]
    }
}

/// One pass over the artifacts selected when the pass starts.
pub open spec fn include_round(
    names: Seq<Option<Seq<char>>>,
    deps: Seq<Seq<Seq<char>>>,
    st: (Set<Seq<char>>, Seq<usize>),
) -> (Set<Seq<char>>, Seq<usize>) {
    absorb(names, flat_deps(deps, st.1), st.0, st.1)
}

/// The number of artifacts whose package is not in `pkgs`.
pub open spec fn unabsorbed(names: Seq<Option<Seq<char>>>, pkgs: Set<Seq<char>>, k: int) -> nat
    decreases k,
{
    if k <= 0 {
        0
    } else {
        unabsorbed(names, pkgs, k - 1) + match names[k - 1] {
            Some(d) => if pkgs.contains(d) { 0nat } else { 1nat },
            None => 0nat,
        }
    }
}

/// Passes are repeated until one adds nothing.
pub open spec fn include_closure(
    names: Seq<Option<Seq<char>>>,
    deps: Seq<Seq<Seq<char>>>,
    st: (Set<Seq<char>>, Seq<usize>),
) -> (Set<Seq<char>>, Seq<usize>)
    decreases unabsorbed(names, st.0, names.len() as int),
        when names.len() <= usize::MAX
    via lemma_closure_decreases
{
    let next = include_round(names, deps, st);
    if next.1.len() == st.1.len() {
        st
    } else {
        include_closure(names, deps, next)
    }
}

proof fn lemma_provider(names: Seq<Option<Seq<char>>>, d: Seq<char>)
    requires
        names.len() <= usize::MAX,
    ensures
        provider(names, d) matches Some(f) ==> f < names.len() && names[f as int] == Some(d),
        provider(names, d) is None ==> forall|i: int| 0 <= i < names.len() ==> names[i] != Some(d),
    decreases names.len(),
{
    if names.len() > 0 {
        lemma_provider(names.drop_last(), d);
        if names.last() != Some(d) {
            assert forall|i: int| 0 <= i < names.len() - 1 implies names[i] == names.drop_last()[i] by {}
            if let Some(f) = provider(names.drop_last(), d) {
                assert(names[f as int] == names.drop_last()[f as int]);
            }
        }
    }
}

proof fn lemma_absorb(names: Seq<Option<Seq<char>>>, ds: Seq<Seq<char>>, pkgs: Set<Seq<char>>, sel: Seq<usize>)
    requires
        names.len() <= usize::MAX,
    ensures
        ({
            let (p, s) = absorb(names, ds, pkgs, sel);
            &&& pkgs.subset_of(p)
            &&& s.len() >= sel.len()
            &&& s.take(sel.len() as int) == sel
            &&& forall|t: int| sel.len() <= t < s.len() ==> (#[trigger] s[t]) < names.len()
                && names[s[t] as int] is Some && p.contains(names[s[t] as int]->0)
            &&& forall|x: Seq<char>| p.contains(x) && !pkgs.contains(x) ==>
                exists|t: int| sel.len() <= t < s.len() && names[#[trigger] s[t] as int] == Some(x)
            &&& s.len() > sel.len() ==> exists|i: int| 0 <= i < names.len() && (#[trigger] names[i]) is Some
                && !pkgs.contains(names[i]->0) && p.contains(names[i]->0)
        }),
    decreases ds.len(),
{
    if ds.len() > 0 {
        lemma_absorb(names, ds.drop_last(), pkgs, sel);
        let (p, s) = absorb(names, ds.drop_last(), pkgs, sel);
        let d = ds.last();
        lemma_provider(names, d);
        if !p.contains(d) {
            if let Some(f) = provider(names, d) {
                let s2 = s.push(f);
                let p2 = p.insert(d);
                assert(s2.take(sel.len() as int) =~= s.take(sel.len() as int));
                assert forall|t: int| sel.len() <= t < s2.len() implies (#[trigger] s2[t]) < names.len()
                    && names[s2[t] as int] is Some && p2.contains(names[s2[t] as int]->0) by {
                    if t < s.len() {
                        assert(s2[t] == s[t]);
                    }
                }
                assert forall|x: Seq<char>| p2.contains(x) && !pkgs.contains(x) implies
                    exists|t: int| sel.len() <= t < s2.len() && names[#[trigger] s2[t] as int] == Some(x) by {
                    if x == d {
                        assert(s2[s.len() as int] == f);
                    } else {
                        let t = choose|t: int| sel.len() <= t < s.len() && names[#[trigger] s[t] as int] == Some(x);
                        assert(s2[t] == s[t]);
                    }
                }
                if s.len() == sel.len() {
                    assert(names[f as int] is Some && !pkgs.contains(names[f as int]->0) && p2.contains(names[f as int]->0));
                } else {
                    let i = choose|i: int| 0 <= i < names.len() && (#[trigger] names[i]) is Some
                        && !pkgs.contains(names[i]->0) && p.contains(names[i]->0);
                    assert(p2.contains(names[i]->0));
                }
            }
        }
    } else {
        assert(sel.take(sel.len() as int) =~= sel);
    }
}

proof fn lemma_unabsorbed_monotone(names: Seq<Option<Seq<char>>>, p: Set<Seq<char>>, q: Set<Seq<char>>, k: int)
    requires
        p.subset_of(q),
        k <= names.len(),
    ensures
        unabsorbed(names, q, k) <= unabsorbed(names, p, k),
        (exists|i: int| 0 <= i < k && (#[trigger] names[i]) is Some && !p.contains(names[i]->0) && q.contains(names[i]->0))
            ==> unabsorbed(names, q, k) < unabsorbed(names, p, k),
    decreases k,
{
    if k > 0 {
        lemma_unabsorbed_monotone(names, p, q, k - 1);
        if exists|i: int| 0 <= i < k && (#[trigger] names[i]) is Some && !p.contains(names[i]->0) && q.contains(names[i]->0) {
            let i = choose|i: int| 0 <= i < k && (#[trigger] names[i]) is Some && !p.contains(names[i]->0) && q.contains(names[i]->0);
            if i < k - 1 {
                assert(exists|j: int| 0 <= j < k - 1 && (#[trigger] names[j]) is Some && !p.contains(names[j]->0) && q.contains(names[j]->0));
            }
        }
    }
}

#[via_fn]
proof fn lemma_closure_decreases(
    names: Seq<Option<Seq<char>>>,
    deps: Seq<Seq<Seq<char>>>,
    st: (Set<Seq<char>>, Seq<usize>),
) {
    let next = include_round(names, deps, st);
    if next.1.len() != st.1.len() {
        lemma_absorb(names, flat_deps(deps, st.1), st.0, st.1);
        lemma_unabsorbed_monotone(names, st.0, next.0, names.len() as int);
    }
}


/// The names held by a list of strings.
pub open spec fn str_set(v: Seq<String>) -> Set<Seq<char>> {
    Set::new(|x: Seq<char>| exists|j: int| 0 <= j < v.len() && (#[trigger] v[j])@ == x)
}

proof fn lemma_str_set_push(v: Seq<String>, s: String)
    ensures
        str_set(v.push(s)) == str_set(v).insert(s@),
{
    assert forall|x: Seq<char>| str_set(v.push(s)).contains(x) == str_set(v).insert(s@).contains(x) by {
        if str_set(v.push(s)).contains(x) {
            let j = choose|j: int| 0 <= j < v.push(s).len() && (#[trigger] v.push(s)[j])@ == x;
            if j < v.len() {
                assert(v[j]@ == x);
            }
        }
        if str_set(v).contains(x) {
            let j = choose|j: int| 0 <= j < v.len() && (#[trigger] v[j])@ == x;
            assert(v.push(s)[j] == v[j]);
        }
        if x == s@ {
            assert(v.push(s)[v.len() as int] == s);
        }
    }
    assert(str_set(v.push(s)) =~= str_set(v).insert(s@));
}

fn holds_name(v: &Vec<String>, d: &String) -> (r: bool)
    ensures
        r == str_set(v@).contains(d@),
{
    let mut i: usize = 0;
    while i < v.len()
        invariant
            i <= v.len(),
            forall|j: int| 0 <= j < i ==> v@[j]@ != d@,
        decreases v.len() - i,
    {
        if v[i] == *d {
            assert(str_set(v@).contains(d@)) by {
                assert(v@[i as int]@ == d@);
            }
            return true;
        }
        i = i + 1;
    }
    assert(!str_set(v@).contains(d@)) by {
        if str_set(v@).contains(d@) {
            let j = choose|j: int| 0 <= j < v@.len() && (#[trigger] v@[j])@ == d@;
        }
    }
    false
}

fn provider_of(names: &Vec<Option<String>>, d: &String) -> (r: Option<usize>)
    ensures
        r == provider(name_views(names@), d@),
{
    let ghost nv = name_views(names@);
    let mut i: usize = names.len();
    assert(nv.take(names.len() as int) =~= nv);
    while i > 0
        invariant
            i <= names.len(),
            nv == name_views(names@),
            provider(nv, d@) == provider(nv.take(i as int), d@),
        decreases i,
    {
        assert(nv.take(i as int).drop_last() =~= nv.take(i - 1));
        assert(nv.take(i as int).last() == nv[i - 1]);
        match &names[i - 1] {
            Some(n) => {
                if *n == *d {
                    return Some(i - 1);
                }
            },
            None => {},
        }
        i = i - 1;
    }
    assert(nv.take(0) =~= Seq::<Option<Seq<char>>>::empty());
    None
}

/// Adds to the selection the artifacts that provide the dependencies of the
/// selected ones, pass after pass, until a pass adds nothing (the decisions
/// of `auto_include_local_dependencies`). `names[i]` is the package name of
/// artifact `i` (`None` when it could not be read) and `deps[i]` the names
/// its package depends on; `selected` holds positions of artifacts.
pub fn auto_include_local_dependencies(
    selected: &mut Vec<usize>,
    names: &Vec<Option<String>>,
    deps: &Vec<Vec<String>>,
)
    requires
        names.len() == deps.len(),
        forall|i: int| 0 <= i < old(selected).len() ==> old(selected)@[i] < names.len(),
    ensures
        final(selected)@ == include_closure(
            name_views(names@),
            deps_views(deps@),
            (selected_names(name_views(names@), old(selected)@), old(selected)@),
        ).1,
{
    let ghost nv = name_views(names@);
    let ghost dv = deps_views(deps@);
    // the names of the selected artifacts
    let mut pk: Vec<String> = Vec::new();
    let mut k: usize = 0;
    assert(old(selected)@.take(0) =~= Seq::<usize>::empty());
    while k < selected.len()
        invariant
            nv == name_views(names@),
            selected@ == old(selected)@,
            k <= selected.len(),
            forall|i: int| 0 <= i < selected.len() ==> selected@[i] < names.len(),
            str_set(pk@) == selected_names(nv, selected@.take(k as int)),
        decreases selected.len() - k,
    {
        assert(selected@.take(k + 1).drop_last() =~= selected@.take(k as int));
        assert(selected@.take(k + 1).last() == selected@[k as int]);
        assert(nv[selected@[k as int] as int] == match names@[selected@[k as int] as int] {
            Some(s) => Some(s@),
            None => None,
        });
        match &names[selected[k]] {
            Some(n) => {
                let c = n.clone();
                proof { lemma_str_set_push(pk@, c); }
                pk.push(c);
            },
            None => {},
        }
        k = k + 1;
    }
    assert(selected@.take(selected.len() as int) =~= selected@);
    let ghost goal = include_closure(nv, dv, (str_set(pk@), selected@));
    let mut changed = true;
    while changed
        invariant
            nv == name_views(names@),
            dv == deps_views(deps@),
            names.len() == deps.len(),
            names.len() <= usize::MAX,
            forall|i: int| 0 <= i < selected.len() ==> selected@[i] < names.len(),
            changed ==> include_closure(nv, dv, (str_set(pk@), selected@)) == goal,
            !changed ==> selected@ == goal.1,
        decreases unabsorbed(nv, str_set(pk@), names.len() as int) + if changed { 1int } else { 0int },
    {
        let ghost p0 = str_set(pk@);
        let ghost sel0 = selected@;
        let cur_len = selected.len();
        let mut idx: usize = 0;
        assert(sel0.take(0) =~= Seq::<usize>::empty());
        assert(flat_deps(dv, sel0.take(0)) =~= Seq::<Seq<char>>::empty());
        while idx < cur_len
            invariant
                nv == name_views(names@),
                dv == deps_views(deps@),
                names.len() == deps.len(),
                names.len() <= usize::MAX,
                cur_len == sel0.len(),
                idx <= cur_len,
                selected.len() >= cur_len,
                selected@.take(cur_len as int) == sel0,
                forall|i: int| 0 <= i < selected.len() ==> selected@[i] < names.len(),
                (str_set(pk@), selected@) == absorb(nv, flat_deps(dv, sel0.take(idx as int)), p0, sel0),
            decreases cur_len - idx,
        {
            let f = selected[idx];
            assert(f == sel0[idx as int]);
            let ghost base = flat_deps(dv, sel0.take(idx as int));
            assert(sel0.take(idx + 1).drop_last() =~= sel0.take(idx as int));
            assert(sel0.take(idx + 1).last() == f);
            let ghost fd = dv[f as int];
            assert(fd == deps@[f as int]@.map_values(|s: String| s@));
            let mut j: usize = 0;
            assert(base + fd.take(0) =~= base);
            while j < deps[f].len()
                invariant
                    nv == name_views(names@),
                    dv == deps_views(deps@),
                    names.len() == deps.len(),
                    names.len() <= usize::MAX,
                    f < deps.len(),
                    fd == dv[f as int],
                    fd == deps@[f as int]@.map_values(|s: String| s@),
                    j <= deps@[f as int].len(),
                    cur_len == sel0.len(),
                    selected.len() >= cur_len,
                    selected@.take(cur_len as int) == sel0,
                    forall|i: int| 0 <= i < selected.len() ==> selected@[i] < names.len(),
                    (str_set(pk@), selected@) == absorb(nv, base + fd.take(j as int), p0, sel0),
                decreases deps@[f as int].len() - j,
            {
                let d = &deps[f][j];
                assert((base + fd.take(j + 1)).drop_last() =~= base + fd.take(j as int));
                assert((base + fd.take(j + 1)).last() == d@);
                if !holds_name(&pk, d) {
                    match provider_of(names, d) {
                        Some(g) => {
                            let c = d.clone();
                            proof {
                                lemma_provider(nv, d@);
                                lemma_str_set_push(pk@, c);
                            }
                            pk.push(c);
                            let ghost before = selected@;
                            selected.push(g);
                            assert(selected@.take(cur_len as int) =~= before.take(cur_len as int));
                        },
                        None => {},
                    }
                }
                j = j + 1;
            }
            assert(fd.take(fd.len() as int) =~= fd);
            assert(flat_deps(dv, sel0.take(idx + 1)) == base + fd);
            idx = idx + 1;
        }
        assert(sel0.take(cur_len as int) =~= sel0);
        proof {
            lemma_absorb(nv, flat_deps(dv, sel0), p0, sel0);
            lemma_unabsorbed_monotone(nv, p0, str_set(pk@), names.len() as int);
        }
        if selected.len() == cur_len {
            changed = false;
        }
    }
    assert(goal.1 == include_closure(nv, dv, (selected_names(nv, old(selected)@), old(selected)@)).1);
}


// ---------------------------------------------------------------------------
// Laws
// ---------------------------------------------------------------------------

/// Every selected package name belongs to a selected artifact, and every
/// selected position is an artifact.
pub open spec fn names_backed(names: Seq<Option<Seq<char>>>, pkgs: Set<Seq<char>>, sel: Seq<usize>) -> bool {
    &&& forall|t: int| 0 <= t < sel.len() ==> (#[trigger] sel[t]) < names.len()
    &&& forall|x: Seq<char>| #[trigger] pkgs.contains(x) ==> exists|t: int| 0 <= t < sel.len() && names[#[trigger] sel[t] as int] == Some(x)
}

proof fn lemma_selected_names_backed(names: Seq<Option<Seq<char>>>, sel: Seq<usize>)
    requires
        forall|t: int| 0 <= t < sel.len() ==> (#[trigger] sel[t]) < names.len(),
    ensures
        names_backed(names, selected_names(names, sel), sel),
    decreases sel.len(),
{
    if sel.len() > 0 {
        let pre = sel.drop_last();
        assert forall|t: int| 0 <= t < pre.len() implies (#[trigger] pre[t]) < names.len() by {
            assert(pre[t] == sel[t]);
        }
        lemma_selected_names_backed(names, pre);
        let p = selected_names(names, pre);
        assert forall|x: Seq<char>| #[trigger] selected_names(names, sel).contains(x) implies
            exists|t: int| 0 <= t < sel.len() && names[#[trigger] sel[t] as int] == Some(x) by {
            if p.contains(x) {
                let t = choose|t: int| 0 <= t < pre.len() && names[#[trigger] pre[t] as int] == Some(x);
                assert(sel[t] == pre[t]);
            } else {
                assert(names[sel[sel.len() - 1] as int] == Some(x));
            }
        }
    }
}

proof fn lemma_absorb_covers(names: Seq<Option<Seq<char>>>, ds: Seq<Seq<char>>, pkgs: Set<Seq<char>>, sel: Seq<usize>)
    requires
        names.len() <= usize::MAX,
    ensures
        forall|k: int| 0 <= k < ds.len() ==> absorb(names, ds, pkgs, sel).0.contains(#[trigger] ds[k])
            || provider(names, ds[k]) is None,
    decreases ds.len(),
{
    if ds.len() > 0 {
        let pre = ds.drop_last();
        lemma_absorb_covers(names, pre, pkgs, sel);
        let (p, s) = absorb(names, pre, pkgs, sel);
        lemma_absorb(names, pre, pkgs, sel);
        assert forall|k: int| 0 <= k < ds.len() implies absorb(names, ds, pkgs, sel).0.contains(#[trigger] ds[k])
            || provider(names, ds[k]) is None by {
            if k < pre.len() {
                assert(ds[k] == pre[k]);
            }
        }
    }
}

proof fn lemma_flat_deps_holds(deps: Seq<Seq<Seq<char>>>, cur: Seq<usize>, i: int, j: int)
    requires
        0 <= i < cur.len(),
        0 <= j < deps[cur[i] as int].len(),
    ensures
        flat_deps(deps, cur).contains(deps[cur[i] as int][j]),
    decreases cur.len(),
{
    let pre = cur.drop_last();
    let fd = flat_deps(deps, pre);
    if i < cur.len() - 1 {
        lemma_flat_deps_holds(deps, pre, i, j);
        let k = choose|k: int| 0 <= k < fd.len() && fd[k] == deps[pre[i] as int][j];
        assert(flat_deps(deps, cur)[k] == fd[k]);
    } else {
        assert(flat_deps(deps, cur)[fd.len() + j] == deps[cur[i] as int][j]);
    }
}

proof fn lemma_round_backed(names: Seq<Option<Seq<char>>>, deps: Seq<Seq<Seq<char>>>, st: (Set<Seq<char>>, Seq<usize>))
    requires
        names.len() <= usize::MAX,
        names_backed(names, st.0, st.1),
    ensures
        names_backed(names, include_round(names, deps, st).0, include_round(names, deps, st).1),
        include_round(names, deps, st).1.take(st.1.len() as int) == st.1,
{
    let ds = flat_deps(deps, st.1);
    lemma_absorb(names, ds, st.0, st.1);
    let (p, s) = absorb(names, ds, st.0, st.1);
    assert forall|x: Seq<char>| #[trigger] p.contains(x) implies exists|t: int| 0 <= t < s.len() && names[#[trigger] s[t] as int] == Some(x) by {
        if st.0.contains(x) {
            let t = choose|t: int| 0 <= t < st.1.len() && names[#[trigger] st.1[t] as int] == Some(x);
            assert(s[t] == s.take(st.1.len() as int)[t]);
        } else {
            let t = choose|t: int| st.1.len() <= t < s.len() && names[#[trigger] s[t] as int] == Some(x);
        }
    }
    assert forall|t: int| 0 <= t < s.len() implies (#[trigger] s[t]) < names.len() by {
        if t < st.1.len() {
            assert(s[t] == s.take(st.1.len() as int)[t]);
        }
    }
}

/// What holds of the closure of a backed state.
proof fn lemma_closure(names: Seq<Option<Seq<char>>>, deps: Seq<Seq<Seq<char>>>, st: (Set<Seq<char>>, Seq<usize>))
    requires
        names.len() <= usize::MAX,
        deps.len() == names.len(),
        names_backed(names, st.0, st.1),
    ensures
        ({
            let fin = include_closure(names, deps, st);
            &&& names_backed(names, fin.0, fin.1)
            &&& fin.1.take(st.1.len() as int) == st.1
            &&& fin.1.len() >= st.1.len()
            &&& forall|d: Seq<char>| #[trigger] flat_deps(deps, fin.1).contains(d) ==> fin.0.contains(d) || provider(names, d) is None
        }),
    decreases unabsorbed(names, st.0, names.len() as int),
{
    let next = include_round(names, deps, st);
    lemma_round_backed(names, deps, st);
    lemma_absorb(names, flat_deps(deps, st.1), st.0, st.1);
    if next.1.len() == st.1.len() {
        assert(st.1.take(st.1.len() as int) =~= st.1);
        // the pass added nothing, so its names did not change either
        assert(next.0 =~= st.0) by {
            assert forall|x: Seq<char>| next.0.contains(x) implies st.0.contains(x) by {
                if !st.0.contains(x) {
                    let t = choose|t: int| st.1.len() <= t < next.1.len() && names[#[trigger] next.1[t] as int] == Some(x);
                }
            }
        }
        lemma_absorb_covers(names, flat_deps(deps, st.1), st.0, st.1);
        assert forall|d: Seq<char>| #[trigger] flat_deps(deps, st.1).contains(d) implies st.0.contains(d) || provider(names, d) is None by {
            let k = choose|k: int| 0 <= k < flat_deps(deps, st.1).len() && flat_deps(deps, st.1)[k] == d;
        }
    } else {
        lemma_unabsorbed_monotone(names, st.0, next.0, names.len() as int);
        lemma_closure(names, deps, next);
        let fin = include_closure(names, deps, next);
        assert(fin.1.take(st.1.len() as int) =~= fin.1.take(next.1.len() as int).take(st.1.len() as int));
    }
}

/// The closure holds positions of artifacts only.
pub proof fn lemma_closure_in_range(
    names: Seq<Option<Seq<char>>>,
    deps: Seq<Seq<Seq<char>>>,
    sel: Seq<usize>,
)
    requires
        names.len() <= usize::MAX,
        deps.len() == names.len(),
        forall|t: int| 0 <= t < sel.len() ==> (#[trigger] sel[t]) < names.len(),
    ensures
        forall|t: int| 0 <= t < include_closure(names, deps, (selected_names(names, sel), sel)).1.len()
            ==> (#[trigger] include_closure(names, deps, (selected_names(names, sel), sel)).1[t]) < names.len(),
{
    lemma_selected_names_backed(names, sel);
    lemma_closure(names, deps, (selected_names(names, sel), sel));
}

/// Auto-including keeps what was chosen: the selection before is the start
/// of the selection after.
pub proof fn law_auto_include_keeps_choice(
    names: Seq<Option<Seq<char>>>,
    deps: Seq<Seq<Seq<char>>>,
    sel: Seq<usize>,
)
    requires
        names.len() <= usize::MAX,
        deps.len() == names.len(),
        forall|t: int| 0 <= t < sel.len() ==> (#[trigger] sel[t]) < names.len(),
    ensures
        include_closure(names, deps, (selected_names(names, sel), sel)).1.take(sel.len() as int) == sel,
{
    lemma_selected_names_backed(names, sel);
    lemma_closure(names, deps, (selected_names(names, sel), sel));
}

/// Auto-including leaves no dependency behind: for every selected artifact
/// and every dependency of it that some available artifact provides, an
/// artifact of that package is selected.
pub proof fn law_auto_include_closed(
    names: Seq<Option<Seq<char>>>,
    deps: Seq<Seq<Seq<char>>>,
    sel: Seq<usize>,
    i: int,
    j: int,
)
    requires
        names.len() <= usize::MAX,
        deps.len() == names.len(),
        forall|t: int| 0 <= t < sel.len() ==> (#[trigger] sel[t]) < names.len(),
        0 <= i < include_closure(names, deps, (selected_names(names, sel), sel)).1.len(),
        0 <= j < deps[include_closure(names, deps, (selected_names(names, sel), sel)).1[i] as int].len(),
        provider(names, deps[include_closure(names, deps, (selected_names(names, sel), sel)).1[i] as int][j]) is Some,
    ensures
        ({
            let fin = include_closure(names, deps, (selected_names(names, sel), sel)).1;
            let d = deps[fin[i] as int][j];
            exists|t: int| 0 <= t < fin.len() && names[#[trigger] fin[t] as int] == Some(d)
        }),
{
    let st = (selected_names(names, sel), sel);
    lemma_selected_names_backed(names, sel);
    lemma_closure(names, deps, st);
    let fin = include_closure(names, deps, st);
    let d = deps[fin.1[i] as int][j];
    lemma_flat_deps_holds(deps, fin.1, i, j);
    assert(flat_deps(deps, fin.1).contains(d));
    assert(fin.0.contains(d));
}


// ---------------------------------------------------------------------------
// What the closure adds
// ---------------------------------------------------------------------------

/// The package name of the artifact at entry `t` of a selection.
pub open spec fn name_at(names: Seq<Option<Seq<char>>>, sel: Seq<usize>, t: int) -> Option<Seq<char>> {
    names[sel[t] as int]
}

/// Entry `t` of the selection was added for a dependency: its artifact has
/// a package name that no earlier entry has, and some earlier entry's
/// artifact depends on that package.
pub open spec fn added_for_dependency(names: Seq<Option<Seq<char>>>, deps: Seq<Seq<Seq<char>>>, sel: Seq<usize>, t: int) -> bool {
    &&& name_at(names, sel, t) is Some
    &&& forall|u: int| 0 <= u < t ==> #[trigger] name_at(names, sel, u) != name_at(names, sel, t)
    &&& exists|s: int| 0 <= s < t && #[trigger] deps[sel[s] as int].contains(name_at(names, sel, t)->0)
}

proof fn lemma_selected_names_contains(names: Seq<Option<Seq<char>>>, sel: Seq<usize>, x: Seq<char>)
    ensures
        selected_names(names, sel).contains(x) <==> exists|u: int| 0 <= u < sel.len() && #[trigger] name_at(names, sel, u) == Some(x),
    decreases sel.len(),
{
    if sel.len() > 0 {
        let pre = sel.drop_last();
        lemma_selected_names_contains(names, pre, x);
        if exists|u: int| 0 <= u < sel.len() && #[trigger] name_at(names, sel, u) == Some(x) {
            let u = choose|u: int| 0 <= u < sel.len() && #[trigger] name_at(names, sel, u) == Some(x);
            if u < pre.len() {
                assert(name_at(names, pre, u) == name_at(names, sel, u));
            }
        }
        if exists|u: int| 0 <= u < pre.len() && #[trigger] name_at(names, pre, u) == Some(x) {
            let u = choose|u: int| 0 <= u < pre.len() && #[trigger] name_at(names, pre, u) == Some(x);
            assert(name_at(names, sel, u) == name_at(names, pre, u));
        }
        if names[sel.last() as int] == Some(x) {
            assert(name_at(names, sel, sel.len() - 1) == Some(x));
        }
    }
}

/// Every dependency in `flat_deps(deps, cur)` belongs to an entry of `cur`.
proof fn lemma_flat_deps_origin(deps: Seq<Seq<Seq<char>>>, cur: Seq<usize>, d: Seq<char>)
    requires
        flat_deps(deps, cur).contains(d),
    ensures
        exists|s: int| 0 <= s < cur.len() && #[trigger] deps[cur[s] as int].contains(d),
    decreases cur.len(),
{
    let pre = cur.drop_last();
    let fd = flat_deps(deps, pre);
    let last = deps[cur.last() as int];
    let k = choose|k: int| 0 <= k < (fd + last).len() && (fd + last)[k] == d;
    if k < fd.len() {
        assert(fd[k] == d);
        lemma_flat_deps_origin(deps, pre, d);
        let s = choose|s: int| 0 <= s < pre.len() && #[trigger] deps[pre[s] as int].contains(d);
        assert(cur[s] == pre[s]);
    } else {
        assert(last[k - fd.len()] == d);
        assert(deps[cur[cur.len() - 1] as int].contains(d));
    }
}

/// Some entry of `sel` depends on package `d`.
pub open spec fn needed_by(deps: Seq<Seq<Seq<char>>>, sel: Seq<usize>, d: Seq<char>) -> bool {
    exists|s: int| 0 <= s < sel.len() && #[trigger] deps[sel[s] as int].contains(d)
}

/// A longer selection with the same start says the same of the entries of
/// that start.
proof fn lemma_added_kept(names: Seq<Option<Seq<char>>>, deps: Seq<Seq<Seq<char>>>, s1: Seq<usize>, s2: Seq<usize>, t: int)
    requires
        s1.len() <= s2.len(),
        s2.take(s1.len() as int) == s1,
        0 <= t < s1.len(),
        added_for_dependency(names, deps, s1, t),
    ensures
        added_for_dependency(names, deps, s2, t),
{
    assert forall|u: int| 0 <= u <= t implies #[trigger] s2[u] == s1[u] by {
        assert(s2.take(s1.len() as int)[u] == s2[u]);
    }
    assert forall|u: int| 0 <= u < t implies #[trigger] name_at(names, s2, u) != name_at(names, s2, t) by {
        assert(name_at(names, s1, u) != name_at(names, s1, t));
    }
    let s = choose|s: int| 0 <= s < t && #[trigger] deps[s1[s] as int].contains(name_at(names, s1, t)->0);
    assert(deps[s2[s] as int].contains(name_at(names, s2, t)->0));
}

/// What one pass adds, it adds for a dependency of an entry selected when
/// the pass started, each under a name not yet selected.
proof fn lemma_absorb_added(
    names: Seq<Option<Seq<char>>>,
    deps: Seq<Seq<Seq<char>>>,
    ds: Seq<Seq<char>>,
    pkgs: Set<Seq<char>>,
    sel: Seq<usize>,
    base: int,
)
    requires
        names.len() <= usize::MAX,
        pkgs == selected_names(names, sel),
        0 <= base <= sel.len(),
        forall|t: int| base <= t < sel.len() ==> added_for_dependency(names, deps, sel, t),
        forall|k: int| 0 <= k < ds.len() ==> needed_by(deps, sel, #[trigger] ds[k]),
    ensures
        ({
            let (p, r) = absorb(names, ds, pkgs, sel);
            &&& p == selected_names(names, r)
            &&& r.len() >= sel.len()
            &&& r.take(sel.len() as int) == sel
            &&& forall|t: int| base <= t < r.len() ==> added_for_dependency(names, deps, r, t)
        }),
    decreases ds.len(),
{
    if ds.len() == 0 {
        assert(sel.take(sel.len() as int) =~= sel);
    } else {
        let pre = ds.drop_last();
        assert forall|k: int| 0 <= k < pre.len() implies needed_by(deps, sel, #[trigger] pre[k]) by {
            assert(pre[k] == ds[k]);
        }
        lemma_absorb_added(names, deps, pre, pkgs, sel, base);
        let (p0, r0) = absorb(names, pre, pkgs, sel);
        let d = ds.last();
        lemma_provider(names, d);
        if !p0.contains(d) {
            if let Some(f) = provider(names, d) {
                let r = r0.push(f);
                assert(r.drop_last() =~= r0);
                assert(selected_names(names, r) == p0.insert(d));
                assert(r.take(sel.len() as int) =~= r0.take(sel.len() as int));
                let t0 = r0.len() as int;
                assert(name_at(names, r, t0) == Some(d));
                lemma_selected_names_contains(names, r0, d);
                assert forall|u: int| 0 <= u < t0 implies #[trigger] name_at(names, r, u) != name_at(names, r, t0) by {
                    assert(name_at(names, r, u) == name_at(names, r0, u));
                }
                assert(ds[ds.len() - 1] == d);
                assert(needed_by(deps, sel, ds[ds.len() - 1]));
                let s = choose|s: int| 0 <= s < sel.len() && #[trigger] deps[sel[s] as int].contains(d);
                assert(r[s] == r0.take(sel.len() as int)[s]);
                assert(deps[r[s] as int].contains(name_at(names, r, t0)->0));
                assert(added_for_dependency(names, deps, r, t0));
                assert forall|t: int| base <= t < r.len() implies added_for_dependency(names, deps, r, t) by {
                    if t < t0 {
                        assert(r.take(r0.len() as int) =~= r0);
                        lemma_added_kept(names, deps, r0, r, t);
                    }
                }
            }
        }
    }
}

/// The closure of a selection whose names are exactly those selected adds
/// entries for dependencies only.
proof fn lemma_closure_added(
    names: Seq<Option<Seq<char>>>,
    deps: Seq<Seq<Seq<char>>>,
    st: (Set<Seq<char>>, Seq<usize>),
    base: int,
)
    requires
        names.len() <= usize::MAX,
        deps.len() == names.len(),
        names_backed(names, st.0, st.1),
        st.0 == selected_names(names, st.1),
        0 <= base <= st.1.len(),
        forall|t: int| base <= t < st.1.len() ==> added_for_dependency(names, deps, st.1, t),
    ensures
        ({
            let fin = include_closure(names, deps, st).1;
            forall|t: int| base <= t < fin.len() ==> added_for_dependency(names, deps, fin, t)
        }),
    decreases unabsorbed(names, st.0, names.len() as int),
{
    let next = include_round(names, deps, st);
    let ds = flat_deps(deps, st.1);
    assert forall|k: int| 0 <= k < ds.len() implies needed_by(deps, st.1, #[trigger] ds[k]) by {
        assert(ds.contains(ds[k]));
        lemma_flat_deps_origin(deps, st.1, ds[k]);
    }
    lemma_absorb_added(names, deps, ds, st.0, st.1, base);
    lemma_absorb(names, ds, st.0, st.1);
    assert(next == absorb(names, ds, st.0, st.1));
    assert(next.0 == selected_names(names, next.1));
    assert(forall|t: int| base <= t < next.1.len() ==> added_for_dependency(names, deps, next.1, t));
    if next.1.len() != st.1.len() {
        lemma_round_backed(names, deps, st);
        lemma_unabsorbed_monotone(names, st.0, next.0, names.len() as int);
        lemma_closure_added(names, deps, next, base);
        assert(include_closure(names, deps, st) == include_closure(names, deps, next));
    } else {
        assert(include_closure(names, deps, st) == st);
    }
}

/// Auto-including adds nothing but what is needed: each artifact added
/// after the chosen ones provides a package that some artifact selected
/// before it depends on, and its package name differs from the name of
/// every artifact selected before it (so also from every other added one).
pub proof fn law_auto_include_adds_dependencies(
    names: Seq<Option<Seq<char>>>,
    deps: Seq<Seq<Seq<char>>>,
    sel: Seq<usize>,
)
    requires
        names.len() <= usize::MAX,
        deps.len() == names.len(),
        forall|t: int| 0 <= t < sel.len() ==> (#[trigger] sel[t]) < names.len(),
    ensures
        ({
            let fin = include_closure(names, deps, (selected_names(names, sel), sel)).1;
            forall|t: int| sel.len() <= t < fin.len() ==> added_for_dependency(names, deps, fin, t)
        }),
{
    lemma_selected_names_backed(names, sel);
    lemma_closure_added(names, deps, (selected_names(names, sel), sel), sel.len() as int);
}

/// `chain` leads from a chosen entry (one of the first `n0`) to entry `t`
/// of the selection `fin`: each entry after the first provides a package
/// that the entry before it depends on.
pub open spec fn dependency_chain(
    names: Seq<Option<Seq<char>>>,
    deps: Seq<Seq<Seq<char>>>,
    fin: Seq<usize>,
    n0: int,
    chain: Seq<int>,
    t: int,
) -> bool {
    &&& chain.len() >= 1
    &&& 0 <= chain[0] < n0
    &&& chain.last() == t
    &&& forall|i: int| 0 <= i < chain.len() ==> 0 <= #[trigger] chain[i] < fin.len()
    &&& forall|i: int| 0 <= i < chain.len() - 1 ==> #[trigger] dependency_link(names, deps, fin, chain[i], chain[i + 1])
}

/// Entry `b` comes after entry `a` and provides a package that `a`
/// depends on.
pub open spec fn dependency_link(names: Seq<Option<Seq<char>>>, deps: Seq<Seq<Seq<char>>>, fin: Seq<usize>, a: int, b: int) -> bool {
    &&& a < b
    &&& name_at(names, fin, b) is Some
    &&& deps[fin[a] as int].contains(name_at(names, fin, b)->0)
}

/// Some chain of dependencies leads from a chosen entry to entry `t`.
pub open spec fn reached_from_choice(
    names: Seq<Option<Seq<char>>>,
    deps: Seq<Seq<Seq<char>>>,
    fin: Seq<usize>,
    n0: int,
    t: int,
) -> bool {
    exists|chain: Seq<int>| #[trigger] dependency_chain(names, deps, fin, n0, chain, t)
}

proof fn lemma_chain_to(
    names: Seq<Option<Seq<char>>>,
    deps: Seq<Seq<Seq<char>>>,
    fin: Seq<usize>,
    n0: int,
    t: int,
) -> (chain: Seq<int>)
    requires
        0 <= n0 <= fin.len(),
        0 <= t < fin.len(),
        t < n0 || n0 > 0,
        forall|u: int| n0 <= u < fin.len() ==> added_for_dependency(names, deps, fin, u),
    ensures
        dependency_chain(names, deps, fin, n0, chain, t),
    decreases t,
{
    if t < n0 {
        seq![t]
    } else {
        assert(added_for_dependency(names, deps, fin, t));
        let s = choose|s: int| 0 <= s < t && #[trigger] deps[fin[s] as int].contains(name_at(names, fin, t)->0);
        let c = lemma_chain_to(names, deps, fin, n0, s);
        let r = c.push(t);
        assert forall|i: int| 0 <= i < r.len() - 1 implies #[trigger] dependency_link(names, deps, fin, r[i], r[i + 1]) by {
            if i < c.len() - 1 {
                assert(r[i] == c[i]);
                assert(r[i + 1] == c[i + 1]);
                assert(dependency_link(names, deps, fin, c[i], c[i + 1]));
            } else {
                assert(r[i] == s);
                assert(r[i + 1] == t);
            }
        }
        assert(r.last() == t);
        assert(r[0] == c[0]);
        assert forall|i: int| 0 <= i < r.len() implies 0 <= #[trigger] r[i] < fin.len() by {
            if i < c.len() {
                assert(r[i] == c[i]);
            }
        }
        r
    }
}

/// Every artifact that auto-including adds is a direct or transitive
/// dependency of a chosen one: a chain of dependencies leads to it from an
/// artifact the user chose.
pub proof fn law_auto_include_from_choice(
    names: Seq<Option<Seq<char>>>,
    deps: Seq<Seq<Seq<char>>>,
    sel: Seq<usize>,
)
    requires
        names.len() <= usize::MAX,
        deps.len() == names.len(),
        forall|t: int| 0 <= t < sel.len() ==> (#[trigger] sel[t]) < names.len(),
    ensures
        ({
            let fin = include_closure(names, deps, (selected_names(names, sel), sel)).1;
            forall|t: int| 0 <= t < fin.len() ==> #[trigger] reached_from_choice(names, deps, fin, sel.len() as int, t)
        }),
{
    let fin = include_closure(names, deps, (selected_names(names, sel), sel)).1;
    law_auto_include_adds_dependencies(names, deps, sel);
    law_auto_include_keeps_choice(names, deps, sel);
    lemma_selected_names_backed(names, sel);
    lemma_closure(names, deps, (selected_names(names, sel), sel));
    assert forall|t: int| 0 <= t < fin.len() implies #[trigger] reached_from_choice(names, deps, fin, sel.len() as int, t) by {
        if sel.len() == 0 && t >= 0 {
            // nothing chosen: nothing is added either
            assert(fin.len() == 0 || added_for_dependency(names, deps, fin, 0));
        }
        let c = lemma_chain_to(names, deps, fin, sel.len() as int, t);
        assert(dependency_chain(names, deps, fin, sel.len() as int, c, t));
    }
    assert(fin == include_closure(names, deps, (selected_names(names, sel), sel)).1);
}

} // verus!
