//! Association lists keyed by strings, read through a `Map` view.
//!
//! Both stores of the crate (the link ledger and the room registry) keep
//! their pairs in a vector with pairwise-distinct keys and state their
//! contracts over the derived map.

use vstd::prelude::*;

verus! {

/// The value bound to key `k` by the first pair that carries it, if any.
pub open spec fn assoc_find<V>(s: Seq<(String, V)>, k: Seq<char>) -> Option<V>
    decreases s.len(),
{
    if s.len() == 0 {
        None
    } else if s[0].0@ == k {
        Some(s[0].1)
    } else {
        assoc_find(s.drop_first(), k)
    }
}

/// No two pairs share a key.
pub open spec fn assoc_unique<V>(s: Seq<(String, V)>) -> bool {
    forall|i: int, j: int| 0 <= i < j < s.len() ==> s[i].0@ != s[j].0@
}

/// The pair sequence read as a finite map from key to value.
pub open spec fn assoc_map<V>(s: Seq<(String, V)>) -> Map<Seq<char>, V> {
    Map::new(
        |k: Seq<char>| assoc_find(s, k) is Some,
        |k: Seq<char>| assoc_find(s, k)->Some_0,
    )
}

pub proof fn lemma_find_present<V>(s: Seq<(String, V)>, i: int)
    requires
        assoc_unique(s),
        0 <= i < s.len(),
    ensures
        assoc_find(s, s[i].0@) == Some(s[i].1),
    decreases s.len(),
{
    if i > 0 {
        let t = s.drop_first();
        assert(assoc_unique(t)) by {
            assert(forall|p: int, q: int|
                0 <= p < q < t.len() ==> #[trigger] t[p].0@ != #[trigger] t[q].0@) by {
                assert(forall|p: int, q: int|
                    0 <= p < q < t.len() ==> t[p] == s[p + 1] && t[q] == s[q + 1]);
            }
        }
        lemma_find_present(t, i - 1);
        assert(s[0].0@ != s[i].0@);
    }
}

/// A successful lookup names the index it read.
pub proof fn lemma_find_some_index<V>(s: Seq<(String, V)>, k: Seq<char>) -> (i: int)
    requires
        assoc_find(s, k) is Some,
    ensures
        0 <= i < s.len(),
        s[i].0@ == k,
        assoc_find(s, k) == Some(s[i].1),
    decreases s.len(),
{
    if s[0].0@ == k {
        0
    } else {
        let j = lemma_find_some_index(s.drop_first(), k);
        assert(s.drop_first()[j] == s[j + 1]);
        j + 1
    }
}

pub proof fn lemma_find_absent<V>(s: Seq<(String, V)>, k: Seq<char>)
    requires
        forall|i: int| 0 <= i < s.len() ==> s[i].0@ != k,
    ensures
        assoc_find(s, k) is None,
    decreases s.len(),
{
    if s.len() > 0 {
        let t = s.drop_first();
        assert(forall|i: int| 0 <= i < t.len() ==> #[trigger] t[i].0@ != k) by {
            assert(forall|i: int| 0 <= i < t.len() ==> t[i] == s[i + 1]);
        }
        lemma_find_absent(t, k);
    }
}

pub proof fn lemma_find_push<V>(s: Seq<(String, V)>, p: (String, V), k: Seq<char>)
    ensures
        assoc_find(s.push(p), k) == if assoc_find(s, k) is Some {
            assoc_find(s, k)
        } else if p.0@ == k {
            Some(p.1)
        } else {
            None
        },
    decreases s.len(),
{
    let e = s.push(p);
    if s.len() == 0 {
        assert(e[0] == p);
        assert(e.drop_first() =~= Seq::<(String, V)>::empty());
    } else {
        assert(e[0] == s[0]);
        assert(e.drop_first() =~= s.drop_first().push(p));
        lemma_find_push(s.drop_first(), p, k);
    }
}

pub proof fn lemma_find_remove<V>(s: Seq<(String, V)>, i: int, k: Seq<char>)
    requires
        assoc_unique(s),
        0 <= i < s.len(),
    ensures
        assoc_find(s.remove(i), k) == if s[i].0@ == k {
            None::<V>
        } else {
            assoc_find(s, k)
        },
    decreases s.len(),
{
    let r = s.remove(i);
    if s[i].0@ == k {
        assert(forall|j: int| 0 <= j < r.len() ==> #[trigger] r[j].0@ != k) by {
            assert(forall|j: int| 0 <= j < i ==> r[j] == s[j]);
            assert(forall|j: int| i <= j < r.len() ==> r[j] == s[j + 1]);
        }
        lemma_find_absent(r, k);
    } else if i == 0 {
        assert(r =~= s.drop_first());
    } else {
        assert(r[0] == s[0]);
        if s[0].0@ == k {
        } else {
            let t = s.drop_first();
            assert(assoc_unique(t)) by {
                assert(forall|p: int, q: int|
                    0 <= p < q < t.len() ==> t[p] == s[p + 1] && t[q] == s[q + 1]);
            }
            lemma_find_remove(t, i - 1, k);
            assert(r.drop_first() =~= t.remove(i - 1));
        }
    }
}

pub proof fn lemma_find_update<V>(s: Seq<(String, V)>, i: int, p: (String, V), k: Seq<char>)
    requires
        assoc_unique(s),
        0 <= i < s.len(),
        p.0@ == s[i].0@,
    ensures
        assoc_find(s.update(i, p), k) == if s[i].0@ == k {
            Some(p.1)
        } else {
            assoc_find(s, k)
        },
    decreases s.len(),
{
    let u = s.update(i, p);
    if i == 0 {
        assert(u[0] == p);
        assert(u.drop_first() =~= s.drop_first());
    } else {
        assert(u[0] == s[0]);
        let t = s.drop_first();
        assert(assoc_unique(t)) by {
            assert(forall|x: int, y: int|
                0 <= x < y < t.len() ==> t[x] == s[x + 1] && t[y] == s[y + 1]);
        }
        if s[0].0@ == k {
            lemma_find_present(s, i);
            assert(s[0].0@ != s[i].0@);
        } else {
            lemma_find_update(t, i - 1, p, k);
            assert(u.drop_first() =~= t.update(i - 1, p));
        }
    }
}

/// The update keeps keys pairwise distinct when the key does not change.
pub proof fn lemma_unique_update<V>(s: Seq<(String, V)>, i: int, p: (String, V))
    requires
        assoc_unique(s),
        0 <= i < s.len(),
        p.0@ == s[i].0@,
    ensures
        assoc_unique(s.update(i, p)),
{
    let u = s.update(i, p);
    assert(forall|x: int, y: int|
        0 <= x < y < u.len() ==> #[trigger] u[x].0@ != #[trigger] u[y].0@) by {
        assert(forall|x: int| 0 <= x < u.len() && x != i ==> u[x] == s[x]);
    }
}

pub proof fn lemma_unique_push<V>(s: Seq<(String, V)>, p: (String, V))
    requires
        assoc_unique(s),
        forall|i: int| 0 <= i < s.len() ==> s[i].0@ != p.0@,
    ensures
        assoc_unique(s.push(p)),
{
    let e = s.push(p);
    assert(forall|x: int, y: int|
        0 <= x < y < e.len() ==> #[trigger] e[x].0@ != #[trigger] e[y].0@) by {
        assert(forall|x: int| 0 <= x < s.len() ==> e[x] == s[x]);
    }
}

pub proof fn lemma_unique_remove<V>(s: Seq<(String, V)>, i: int)
    requires
        assoc_unique(s),
        0 <= i < s.len(),
    ensures
        assoc_unique(s.remove(i)),
{
    let r = s.remove(i);
    assert(forall|x: int, y: int|
        0 <= x < y < r.len() ==> #[trigger] r[x].0@ != #[trigger] r[y].0@) by {
        assert(forall|x: int| 0 <= x < r.len() ==>
            r[x] == (if x < i { s[x] } else { s[x + 1] }));
    }
}

/// Map-level reading of a push of a fresh key.
pub proof fn lemma_map_push<V>(s: Seq<(String, V)>, p: (String, V))
    requires
        assoc_unique(s),
        assoc_find(s, p.0@) is None,
    ensures
        assoc_unique(s.push(p)),
        assoc_map(s.push(p)) == assoc_map(s).insert(p.0@, p.1),
{
    assert forall|i: int| 0 <= i < s.len() implies #[trigger] s[i].0@ != p.0@ by {
        lemma_find_present(s, i);
    }
    lemma_unique_push(s, p);
    assert(assoc_map(s.push(p)) =~= assoc_map(s).insert(p.0@, p.1)) by {
        assert forall|k: Seq<char>| true implies
            assoc_find(s.push(p), k) == if k == p.0@ {
                Some(p.1)
            } else {
                assoc_find(s, k)
            } by {
            lemma_find_push(s, p, k);
        }
    }
}

/// Map-level reading of removing the pair at `i`.
pub proof fn lemma_map_remove<V>(s: Seq<(String, V)>, i: int)
    requires
        assoc_unique(s),
        0 <= i < s.len(),
    ensures
        assoc_unique(s.remove(i)),
        assoc_map(s.remove(i)) == assoc_map(s).remove(s[i].0@),
{
    lemma_unique_remove(s, i);
    assert(assoc_map(s.remove(i)) =~= assoc_map(s).remove(s[i].0@)) by {
        assert forall|k: Seq<char>| true implies
            assoc_find(s.remove(i), k) == if k == s[i].0@ {
                None::<V>
            } else {
                assoc_find(s, k)
            } by {
            lemma_find_remove(s, i, k);
        }
    }
}

/// Map-level reading of overwriting the value at `i`, key unchanged.
pub proof fn lemma_map_update<V>(s: Seq<(String, V)>, i: int, p: (String, V))
    requires
        assoc_unique(s),
        0 <= i < s.len(),
        p.0@ == s[i].0@,
    ensures
        assoc_unique(s.update(i, p)),
        assoc_map(s.update(i, p)) == assoc_map(s).insert(p.0@, p.1),
{
    lemma_unique_update(s, i, p);
    assert(assoc_map(s.update(i, p)) =~= assoc_map(s).insert(p.0@, p.1)) by {
        assert forall|k: Seq<char>| true implies
            assoc_find(s.update(i, p), k) == if k == s[i].0@ {
                Some(p.1)
            } else {
                assoc_find(s, k)
            } by {
            lemma_find_update(s, i, p, k);
        }
    }
}

/// Relies on `str`'s `PartialEq`: string slices compare equal exactly when
/// their character sequences do.
#[verifier::external_body]
pub fn str_eq(a: &str, b: &str) -> (r: bool)
    ensures
        r == (a@ == b@),
{
    a == b
}

/// Index of the pair that carries `key`, if one does.
pub fn assoc_index<V>(v: &Vec<(String, V)>, key: &str) -> (r: Option<usize>)
    ensures
        match r {
            Some(i) => i < v@.len() && v@[i as int].0@ == key@,
            None => forall|i: int| 0 <= i < v@.len() ==> v@[i].0@ != key@,
        },
{
    let mut i: usize = 0;
    while i < v.len()
        invariant
            i <= v@.len(),
            forall|j: int| 0 <= j < i ==> v@[j].0@ != key@,
        decreases v@.len() - i,
    {
        if str_eq(v[i].0.as_str(), key) {
            return Some(i);
        }
        i += 1;
    }
    None
}

} // verus!
