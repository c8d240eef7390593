//! Association lists with string keys: the representation of every keyed
//! collection in the store. The ghost side works on sequences of
//! `(Seq<char>, V)` pairs with pairwise-distinct keys; insertion order is part
//! of the model, which is what the pagination contracts slice.

use vstd::prelude::*;
use crate::strutil::str_eq;

verus! {

/// There is an entry with key `k`.
pub open spec fn al_contains<V>(s: Seq<(Seq<char>, V)>, k: Seq<char>) -> bool {
    exists|i: int| 0 <= i < s.len() && s[i].0 == k
}

/// The position of the entry with key `k` (unique when the keys are
/// pairwise distinct).
pub open spec fn al_index<V>(s: Seq<(Seq<char>, V)>, k: Seq<char>) -> int {
    choose|i: int| 0 <= i < s.len() && s[i].0 == k
}

/// The value bound to `k`, if any.
pub open spec fn al_get<V>(s: Seq<(Seq<char>, V)>, k: Seq<char>) -> Option<V> {
    if al_contains(s, k) {
        Some(s[al_index(s, k)].1)
    } else {
        None
    }
}

/// The keys are pairwise distinct.
pub open spec fn al_unique<V>(s: Seq<(Seq<char>, V)>) -> bool {
    forall|i: int, j: int| #![trigger s[i].0, s[j].0] 0 <= i < j < s.len() ==> s[i].0 != s[j].0
}

/// Binds `k` to `v`: replaces the value in place when `k` is present, appends
/// a new entry otherwise.
pub open spec fn al_put<V>(s: Seq<(Seq<char>, V)>, k: Seq<char>, v: V) -> Seq<(Seq<char>, V)> {
    if al_contains(s, k) {
        s.update(al_index(s, k), (k, v))
    } else {
        s.push((k, v))
    }
}

/// Drops the entry with key `k`, keeping the order of the rest.
pub open spec fn al_remove<V>(s: Seq<(Seq<char>, V)>, k: Seq<char>) -> Seq<(Seq<char>, V)> {
    if al_contains(s, k) {
        s.remove(al_index(s, k))
    } else {
        s
    }
}

/// With distinct keys, the entry found at `i` is the entry of its key.
pub proof fn lemma_al_index<V>(s: Seq<(Seq<char>, V)>, k: Seq<char>, i: int)
    requires
        al_unique(s),
        0 <= i < s.len(),
        s[i].0 == k,
    ensures
        al_contains(s, k),
        al_index(s, k) == i,
{
    assert(al_contains(s, k));
    let j = al_index(s, k);
    assert(0 <= j < s.len() && s[j].0 == k);
    if i < j {
        assert(s[i].0 != s[j].0);
    } else if j < i {
        assert(s[j].0 != s[i].0);
    }
}

/// What `al_put` does to membership, lookup, length and key distinctness.
pub proof fn lemma_al_put<V>(s: Seq<(Seq<char>, V)>, k: Seq<char>, v: V)
    requires
        al_unique(s),
    ensures
        al_unique(al_put(s, k, v)),
        al_get(al_put(s, k, v), k) == Some(v),
        forall|k2: Seq<char>| k2 != k ==> al_get(al_put(s, k, v), k2) == al_get(s, k2),
        forall|k2: Seq<char>|
            al_contains(al_put(s, k, v), k2) == (al_contains(s, k2) || k2 == k),
        al_put(s, k, v).len() == if al_contains(s, k) {
            s.len() as int
        } else {
            s.len() + 1 as int
        },
        forall|a: int| 0 <= a < al_put(s, k, v).len()
            ==> (#[trigger] al_put(s, k, v)[a]) == s[a] || al_put(s, k, v)[a] == (k, v),
{
    let t = al_put(s, k, v);
    if al_contains(s, k) {
        let i = al_index(s, k);
        assert(0 <= i < s.len() && s[i].0 == k);
        assert(forall|a: int| 0 <= a < t.len() ==> t[a].0 == s[a].0);
        assert(al_unique(t));
        lemma_al_index(t, k, i);
        assert(al_get(t, k) == Some(v));
        assert forall|k2: Seq<char>| k2 != k implies al_get(t, k2) == al_get(s, k2) by {
            if al_contains(s, k2) {
                let a = al_index(s, k2);
                assert(0 <= a < s.len() && s[a].0 == k2);
                assert(a != i);
                assert(t[a] == s[a]);
                lemma_al_index(t, k2, a);
            } else {
                assert(forall|a: int| 0 <= a < t.len() ==> t[a].0 != k2);
                assert(!al_contains(t, k2));
            }
        }
        assert forall|k2: Seq<char>|
            al_contains(t, k2) == (al_contains(s, k2) || k2 == k) by {
            if al_contains(t, k2) {
                let a = al_index(t, k2);
                assert(0 <= a < t.len() && t[a].0 == k2);
                assert(s[a].0 == k2);
            }
            if al_contains(s, k2) {
                let a = al_index(s, k2);
                assert(t[a].0 == k2);
                assert(al_contains(t, k2));
            }
            if k2 == k {
                assert(t[i].0 == k2);
                assert(al_contains(t, k2));
            }
        }
    } else {
        let n = s.len() as int;
        assert(forall|a: int| #![trigger s[a]] 0 <= a < n ==> s[a].0 != k);
        assert(t[n] == (k, v));
        assert forall|a: int, b: int| #![trigger t[a].0, t[b].0] 0 <= a < b < t.len()
            implies t[a].0 != t[b].0 by {
            if b < n {
                assert(s[a].0 != s[b].0);
            } else {
                assert(t[a].0 == s[a].0);
                assert(s[a].0 != k);
            }
        }
        lemma_al_index(t, k, n);
        assert(al_get(t, k) == Some(v));
        assert forall|k2: Seq<char>| k2 != k implies al_get(t, k2) == al_get(s, k2) by {
            if al_contains(s, k2) {
                let a = al_index(s, k2);
                assert(0 <= a < s.len() && s[a].0 == k2);
                assert(t[a] == s[a]);
                lemma_al_index(t, k2, a);
            } else {
                assert(forall|a: int| #![trigger t[a]] 0 <= a < t.len() ==> t[a].0 != k2);
                assert(!al_contains(t, k2));
            }
        }
        assert forall|k2: Seq<char>|
            al_contains(t, k2) == (al_contains(s, k2) || k2 == k) by {
            if al_contains(t, k2) {
                let a = al_index(t, k2);
                assert(0 <= a < t.len() && t[a].0 == k2);
                if a < n {
                    assert(s[a].0 == k2);
                } else {
                    assert(k2 == k);
                }
            }
            if al_contains(s, k2) {
                let a = al_index(s, k2);
                assert(t[a].0 == k2);
                assert(al_contains(t, k2));
            }
            if k2 == k {
                assert(al_contains(t, k2));
            }
        }
    }
}

/// What `al_remove` does to membership, lookup, length and key distinctness.
pub proof fn lemma_al_remove<V>(s: Seq<(Seq<char>, V)>, k: Seq<char>)
    requires
        al_unique(s),
    ensures
        al_unique(al_remove(s, k)),
        al_get(al_remove(s, k), k) is None,
        forall|k2: Seq<char>| k2 != k ==> al_get(al_remove(s, k), k2) == al_get(s, k2),
        forall|k2: Seq<char>|
            al_contains(al_remove(s, k), k2) == (al_contains(s, k2) && k2 != k),
        al_remove(s, k).len() == if al_contains(s, k) {
            s.len() - 1
        } else {
            s.len() as int
        },
        forall|a: int| 0 <= a < al_remove(s, k).len()
            ==> (#[trigger] al_remove(s, k)[a]) == s[a] || al_remove(s, k)[a] == s[a + 1],
{
    let t = al_remove(s, k);
    if al_contains(s, k) {
        let i = al_index(s, k);
        assert(0 <= i < s.len() && s[i].0 == k);
        // t[a] is s[a] below i and s[a + 1] from i on
        assert(forall|a: int| #![trigger t[a]] 0 <= a < i ==> t[a] == s[a]);
        assert(forall|a: int| #![trigger t[a]] i <= a < t.len() ==> t[a] == s[a + 1]);
        assert forall|a: int, b: int| #![trigger t[a].0, t[b].0] 0 <= a < b < t.len()
            implies t[a].0 != t[b].0 by {
            let a2: int = if a < i { a } else { a + 1 };
            let b2: int = if b < i { b } else { b + 1 };
            assert(t[a] == s[a2]);
            assert(t[b] == s[b2]);
            assert(s[a2].0 != s[b2].0);
        }
        assert forall|a: int| #![trigger t[a]] 0 <= a < t.len() implies t[a].0 != k by {
            let a2: int = if a < i { a } else { a + 1 };
            assert(t[a] == s[a2]);
            if a2 < i {
                assert(s[a2].0 != s[i].0);
            } else {
                assert(s[i].0 != s[a2].0);
            }
        }
        assert(!al_contains(t, k));
        assert forall|k2: Seq<char>| k2 != k implies al_get(t, k2) == al_get(s, k2) by {
            if al_contains(s, k2) {
                let a = al_index(s, k2);
                assert(0 <= a < s.len() && s[a].0 == k2);
                assert(a != i);
                let a2: int = if a < i { a } else { a - 1 };
                assert(t[a2] == s[a]);
                lemma_al_index(t, k2, a2);
            } else {
                assert forall|a: int| #![trigger t[a]] 0 <= a < t.len()
                    implies t[a].0 != k2 by {
                    let a2: int = if a < i { a } else { a + 1 };
                    assert(t[a] == s[a2]);
                }
                assert(!al_contains(t, k2));
            }
        }
        assert forall|k2: Seq<char>|
            al_contains(t, k2) == (al_contains(s, k2) && k2 != k) by {
            if al_contains(t, k2) {
                let a = al_index(t, k2);
                assert(0 <= a < t.len() && t[a].0 == k2);
                let a2: int = if a < i { a } else { a + 1 };
                assert(t[a] == s[a2]);
                assert(al_contains(s, k2));
            }
            if al_contains(s, k2) && k2 != k {
                let a = al_index(s, k2);
                assert(0 <= a < s.len() && s[a].0 == k2);
                assert(a != i);
                let a2: int = if a < i { a } else { a - 1 };
                assert(t[a2] == s[a]);
                assert(al_contains(t, k2));
            }
        }
    }
}

/// The values of the entries, in listing order.
pub open spec fn al_values<V>(s: Seq<(Seq<char>, V)>) -> Seq<V> {
    s.map_values(|p: (Seq<char>, V)| p.1)
}

/// The ghost image of a vector of keyed entries.
pub open spec fn pairs_view<T: DeepView>(s: Seq<(String, T)>) -> Seq<(Seq<char>, T::V)> {
    s.map_values(|p: (String, T)| (p.0@, p.1.deep_view()))
}

/// The position of the first entry whose key spells `k`, if any.
pub fn al_find<V: DeepView>(v: &Vec<(String, V)>, k: &str) -> (r: Option<usize>)
    ensures
        match r {
            Some(i) => i < v@.len() && v@[i as int].0@ == k@,
            None => forall|j: int| #![trigger v@[j]] 0 <= j < v@.len() ==> v@[j].0@ != k@,
        },
{
    let mut i: usize = 0;
    while i < v.len()
        invariant
            0 <= i <= v@.len(),
            forall|j: int| #![trigger v@[j]] 0 <= j < i ==> v@[j].0@ != k@,
        decreases v@.len() - i,
    {
        if str_eq(v[i].0.as_str(), k) {
            return Some(i);
        }
        i = i + 1;
    }
    None
}

/// Borrows the value bound to `k`, if any.
pub fn al_get_ref<'a, V: DeepView>(v: &'a Vec<(String, V)>, k: &str) -> (r: Option<&'a V>)
    requires
        al_unique(pairs_view(v@)),
    ensures
        match r {
            Some(x) => al_get(pairs_view(v@), k@) == Some(x.deep_view()),
            None => al_get(pairs_view(v@), k@) is None,
        },
{
    match al_find(v, k) {
        Some(i) => {
            proof {
                lemma_al_index(pairs_view(v@), k@, i as int);
            }
            Some(&v[i].1)
        },
        None => {
            proof {
                assert(forall|j: int| #![trigger pairs_view(v@)[j]]
                    0 <= j < pairs_view(v@).len() ==> pairs_view(v@)[j].0 != k@);
            }
            None
        },
    }
}

/// Binds `k` to `val`, replacing in place or appending.
pub fn al_upsert<V: DeepView>(v: &mut Vec<(String, V)>, k: String, val: V)
    requires
        al_unique(pairs_view(old(v)@)),
    ensures
        pairs_view(final(v)@) == al_put(pairs_view(old(v)@), k@, val.deep_view()),
{
    let ghost s = pairs_view(v@);
    match al_find(v, k.as_str()) {
        Some(i) => {
            proof {
                lemma_al_index(s, k@, i as int);
            }
            v.set(i, (k, val));
            proof {
                assert(pairs_view(v@) =~= s.update(i as int, (k@, val.deep_view())));
            }
        },
        None => {
            proof {
                assert(forall|j: int| #![trigger s[j]] 0 <= j < s.len() ==> s[j].0 != k@);
                assert(!al_contains(s, k@));
            }
            v.push((k, val));
            proof {
                assert(pairs_view(v@) =~= s.push((k@, val.deep_view())));
            }
        },
    }
}

/// Drops the entry with key `k` and hands its value out, if there was one.
pub fn al_delete<V: DeepView>(v: &mut Vec<(String, V)>, k: &str) -> (r: Option<V>)
    requires
        al_unique(pairs_view(old(v)@)),
    ensures
        pairs_view(final(v)@) == al_remove(pairs_view(old(v)@), k@),
        match r {
            Some(x) => al_get(pairs_view(old(v)@), k@) == Some(x.deep_view()),
            None => al_get(pairs_view(old(v)@), k@) is None,
        },
{
    let ghost s = pairs_view(v@);
    match al_find(v, k) {
        Some(i) => {
            proof {
                lemma_al_index(s, k@, i as int);
            }
            let p = v.remove(i);
            proof {
                assert(pairs_view(v@) =~= s.remove(i as int));
            }
            Some(p.1)
        },
        None => {
            proof {
                assert(forall|j: int| #![trigger s[j]] 0 <= j < s.len() ==> s[j].0 != k@);
                assert(!al_contains(s, k@));
            }
            None
        },
    }
}

/// True exactly when some element of `v` spells `s`.
pub fn vec_contains_str(v: &Vec<String>, s: &str) -> (r: bool)
    ensures
        r == v.deep_view().contains(s@),
{
    let mut i: usize = 0;
    while i < v.len()
        invariant
            0 <= i <= v@.len(),
            forall|j: int| 0 <= j < i ==> v.deep_view()[j] != s@,
        decreases v@.len() - i,
    {
        if str_eq(v[i].as_str(), s) {
            proof {
                assert(v.deep_view()[i as int] == s@);
            }
            return true;
        }
        i = i + 1;
    }
    proof {
        assert(forall|j: int| 0 <= j < v.deep_view().len() ==> v.deep_view()[j] != s@);
    }
    false
}

/// `s` with every occurrence of `x` dropped, order kept.
pub open spec fn seq_remove_all(s: Seq<Seq<char>>, x: Seq<char>) -> Seq<Seq<char>>
    decreases s.len(),
{
    if s.len() == 0 {
        Seq::empty()
    } else {
        let rest = seq_remove_all(s.drop_last(), x);
        if s.last() == x {
            rest
        } else {
            rest.push(s.last())
        }
    }
}

/// No duplicate elements.
pub open spec fn seq_nodup(s: Seq<Seq<char>>) -> bool {
    forall|i: int, j: int| #![trigger s[i], s[j]] 0 <= i < j < s.len() ==> s[i] != s[j]
}

/// What `seq_remove_all` keeps: everything but `x`, each survivor an element
/// of the original, duplicates never introduced.
pub proof fn lemma_seq_remove_all(s: Seq<Seq<char>>, x: Seq<char>)
    ensures
        forall|y: Seq<char>|
            #[trigger] seq_remove_all(s, x).contains(y) == (s.contains(y) && y != x),
        forall|i: int| 0 <= i < seq_remove_all(s, x).len()
            ==> (#[trigger] seq_remove_all(s, x)[i]) != x && s.contains(seq_remove_all(s, x)[i]),
        seq_nodup(s) ==> seq_nodup(seq_remove_all(s, x)),
        seq_remove_all(s, x).len() <= s.len(),
    decreases s.len(),
{
    let t = seq_remove_all(s, x);
    if s.len() == 0 {
        assert forall|y: Seq<char>| #[trigger] t.contains(y) == (s.contains(y) && y != x) by {
            assert(!t.contains(y));
            assert(!s.contains(y));
        }
    } else {
        let rest = s.drop_last();
        lemma_seq_remove_all(rest, x);
        let f = seq_remove_all(rest, x);
        assert(t == if s.last() == x {
            f
        } else {
            f.push(s.last())
        });
        assert(seq_nodup(s) ==> seq_nodup(rest));
        assert forall|y: Seq<char>| #[trigger] t.contains(y) == (s.contains(y) && y != x) by {
            if t.contains(y) {
                let a = choose|a: int| 0 <= a < t.len() && t[a] == y;
                if a < f.len() {
                    assert(f.contains(y));
                    let b = choose|b: int| 0 <= b < rest.len() && rest[b] == y;
                    assert(s[b] == y);
                } else {
                    assert(y == s.last());
                    assert(s[s.len() - 1] == y);
                }
                assert(s.contains(y));
            }
            if s.contains(y) && y != x {
                let a = choose|a: int| 0 <= a < s.len() && s[a] == y;
                if a < s.len() - 1 {
                    assert(rest[a] == y);
                    assert(rest.contains(y));
                    assert(f.contains(y));
                    let b = choose|b: int| 0 <= b < f.len() && f[b] == y;
                    assert(t[b] == y);
                } else {
                    assert(s.last() == y);
                    assert(t[t.len() - 1] == y);
                }
                assert(t.contains(y));
            }
        }
        assert forall|i: int| 0 <= i < t.len()
            implies #[trigger] t[i] != x && s.contains(t[i]) by {
            assert(t.contains(t[i]));
        }
        if seq_nodup(s) {
            assert forall|i: int, j: int| #![trigger t[i], t[j]] 0 <= i < j < t.len()
                implies t[i] != t[j] by {
                if j < f.len() {
                    assert(f[i] != f[j]);
                } else if s.last() != x {
                    // t[j] is the kept last element; t[i] comes from `rest`
                    assert(t[j] == s.last());
                    assert(f.contains(f[i]));
                    assert(rest.contains(f[i]));
                    let b = choose|b: int| 0 <= b < rest.len() && rest[b] == f[i];
                    assert(s[b] == f[i]);
                    assert(s[b] != s[s.len() - 1]);
                }
            }
        }
    }
}

/// Removes every element that spells `x`, keeping the order of the rest.
pub fn vec_remove_str(v: &mut Vec<String>, x: &str)
    ensures
        final(v).deep_view() == seq_remove_all(old(v).deep_view(), x@),
{
    let ghost dv = v.deep_view();
    let mut out: Vec<String> = Vec::new();
    let mut i: usize = 0;
    while i < v.len()
        invariant
            0 <= i <= v@.len(),
            dv == v.deep_view(),
            dv.len() == v@.len(),
            out.deep_view() == seq_remove_all(dv.take(i as int), x@),
        decreases v@.len() - i,
    {
        let ghost prev = out.deep_view();
        proof {
            assert(dv[i as int] == v@[i as int]@);
            assert(dv.take(i + 1).drop_last() =~= dv.take(i as int));
            assert(dv.take(i + 1).last() == dv[i as int]);
            assert(seq_remove_all(dv.take(i + 1), x@) == if dv[i as int] == x@ {
                prev
            } else {
                prev.push(dv[i as int])
            });
        }
        if !str_eq(v[i].as_str(), x) {
            out.push(v[i].clone());
            proof {
                assert(out.deep_view() =~= prev.push(dv[i as int]));
            }
        }
        i = i + 1;
    }
    proof {
        assert(dv.take(dv.len() as int) =~= dv);
    }
    *v = out;
}

/// The index entries whose bound value is not `val`, order kept.
pub open spec fn al_purge_value(
    s: Seq<(Seq<char>, Seq<char>)>,
    val: Seq<char>,
) -> Seq<(Seq<char>, Seq<char>)>
    decreases s.len(),
{
    if s.len() == 0 {
        Seq::empty()
    } else {
        let rest = al_purge_value(s.drop_last(), val);
        if s.last().1 == val {
            rest
        } else {
            rest.push(s.last())
        }
    }
}

/// What purging an index by value keeps: every entry not bound to `val`, each
/// an entry of the original, key distinctness preserved.
pub proof fn lemma_al_purge_value(s: Seq<(Seq<char>, Seq<char>)>, val: Seq<char>)
    ensures
        forall|i: int| 0 <= i < al_purge_value(s, val).len()
            ==> (#[trigger] al_purge_value(s, val)[i]).1 != val
                && s.contains(al_purge_value(s, val)[i]),
        al_unique(s) ==> al_unique(al_purge_value(s, val)),
        al_purge_value(s, val).len() <= s.len(),
    decreases s.len(),
{
    let t = al_purge_value(s, val);
    if s.len() == 0 {
    } else {
        let rest = s.drop_last();
        lemma_al_purge_value(rest, val);
        let f = al_purge_value(rest, val);
        assert(t == if s.last().1 == val {
            f
        } else {
            f.push(s.last())
        });
        assert(al_unique(s) ==> al_unique(rest));
        assert forall|i: int| 0 <= i < t.len()
            implies (#[trigger] t[i]).1 != val && s.contains(t[i]) by {
            if i < f.len() {
                assert(al_purge_value(rest, val)[i].1 != val
                    && rest.contains(al_purge_value(rest, val)[i]));
                let b = choose|b: int| 0 <= b < rest.len() && rest[b] == f[i];
                assert(s[b] == f[i]);
                assert(s.contains(t[i]));
            } else {
                assert(t[i] == s.last());
                assert(s[s.len() - 1] == s.last());
                assert(s.contains(t[i]));
            }
        }
        if al_unique(s) {
            assert forall|a: int, b: int| #![trigger t[a].0, t[b].0] 0 <= a < b < t.len()
                implies t[a].0 != t[b].0 by {
                if b < f.len() {
                    assert(f[a].0 != f[b].0);
                } else if s.last().1 != val {
                    assert(t[b] == s.last());
                    assert(al_purge_value(rest, val)[a].1 != val
                        && rest.contains(al_purge_value(rest, val)[a]));
                    let c = choose|c: int| 0 <= c < rest.len() && rest[c] == f[a];
                    assert(s[c] == f[a]);
                    assert(s[c].0 != s[s.len() - 1].0);
                }
            }
        }
    }
}

/// Drops every index entry bound to `val`, keeping the order of the rest.
pub fn al_purge_value_exec(v: &mut Vec<(String, String)>, val: &str)
    ensures
        pairs_view(final(v)@) == al_purge_value(pairs_view(old(v)@), val@),
{
    let ghost pv = pairs_view(v@);
    let mut out: Vec<(String, String)> = Vec::new();
    let mut i: usize = 0;
    while i < v.len()
        invariant
            0 <= i <= v@.len(),
            pv == pairs_view(v@),
            pv.len() == v@.len(),
            pairs_view(out@) == al_purge_value(pv.take(i as int), val@),
        decreases v@.len() - i,
    {
        let ghost prev = pairs_view(out@);
        proof {
            assert(pv[i as int] == (v@[i as int].0@, v@[i as int].1@));
            assert(pv.take(i + 1).drop_last() =~= pv.take(i as int));
            assert(pv.take(i + 1).last() == pv[i as int]);
            assert(al_purge_value(pv.take(i + 1), val@) == if pv[i as int].1 == val@ {
                prev
            } else {
                prev.push(pv[i as int])
            });
        }
        if !str_eq(v[i].1.as_str(), val) {
            out.push((v[i].0.clone(), v[i].1.clone()));
            proof {
                assert(pairs_view(out@) =~= prev.push(pv[i as int]));
            }
        }
        i = i + 1;
    }
    proof {
        assert(pv.take(pv.len() as int) =~= pv);
    }
    *v = out;
}

} // verus!
