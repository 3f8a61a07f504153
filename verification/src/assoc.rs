//! Specification helpers for association sequences: sequences of
//! `(key, value)` pairs used as small insertion-ordered maps.  Lookup
//! returns the value of the first pair carrying the key.

use vstd::prelude::*;

verus! {

/// The value of the first pair in `s` whose key is `k`, if any.
pub open spec fn lookup_assoc<V>(s: Seq<(usize, V)>, k: usize) -> Option<V>
    decreases s.len(),
{
    if s.len() == 0 {
        None
    } else if s[0].0 == k {
        Some(s[0].1)
    } else {
        lookup_assoc(s.drop_first(), k)
    }
}

/// Whether some pair in `s` carries the key `k`.
pub open spec fn has_key<V>(s: Seq<(usize, V)>, k: usize) -> bool {
    exists|j: int| 0 <= j < s.len() && s[j].0 == k
}

/// Whether no two pairs of `s` carry the same key.
pub open spec fn keys_unique<V>(s: Seq<(usize, V)>) -> bool {
    forall|i: int, j: int| 0 <= i < j < s.len() ==> s[i].0 != s[j].0
}

/// Lookup ignores a prefix that does not carry the key.
pub proof fn lemma_lookup_skip<V>(s: Seq<(usize, V)>, k: usize, i: int)
    requires
        0 <= i <= s.len(),
        forall|j: int| 0 <= j < i ==> s[j].0 != k,
    ensures
        lookup_assoc(s, k) == lookup_assoc(s.skip(i), k),
    decreases i,
{
    if i == 0 {
        assert(s.skip(0) =~= s);
    } else {
        assert(s.drop_first() =~= s.skip(1));
        assert(s.skip(1).skip(i - 1) =~= s.skip(i));
        lemma_lookup_skip(s.skip(1), k, i - 1);
    }
}

/// A sequence without the key looks the key up to `None`.
pub proof fn lemma_lookup_none<V>(s: Seq<(usize, V)>, k: usize)
    requires
        !has_key(s, k),
    ensures
        lookup_assoc(s, k) is None,
    decreases s.len(),
{
    if s.len() > 0 {
        assert(s[0].0 != k);
        assert(forall|j: int| 0 <= j < s.drop_first().len() ==> s.drop_first()[j] == s[j + 1]);
        lemma_lookup_none(s.drop_first(), k);
    }
}

/// A successful lookup names a pair that is present in the sequence.
pub proof fn lemma_lookup_finds_pair<V>(s: Seq<(usize, V)>, k: usize)
    requires
        lookup_assoc(s, k) is Some,
    ensures
        exists|j: int|
            0 <= j < s.len() && s[j].0 == k && s[j].1 == lookup_assoc(s, k).unwrap(),
    decreases s.len(),
{
    if s.len() > 0 {
        if s[0].0 == k {
            assert(s[0].0 == k && s[0].1 == lookup_assoc(s, k).unwrap());
        } else {
            lemma_lookup_finds_pair(s.drop_first(), k);
            let j0 = choose|j: int|
                0 <= j < s.drop_first().len() && s.drop_first()[j].0 == k
                    && s.drop_first()[j].1 == lookup_assoc(s.drop_first(), k).unwrap();
            assert(s[j0 + 1].0 == k && s[j0 + 1].1 == lookup_assoc(s, k).unwrap());
        }
    }
}

/// Under unique keys, any pair carrying `k` is what lookup returns.
pub proof fn lemma_lookup_unique<V>(s: Seq<(usize, V)>, k: usize, j: int)
    requires
        keys_unique(s),
        0 <= j < s.len(),
        s[j].0 == k,
    ensures
        lookup_assoc(s, k) == Some(s[j].1),
    decreases s.len(),
{
    if j == 0 {
    } else {
        assert(s[0].0 != k);
        assert(keys_unique(s.drop_first())) by {
            assert(forall|a: int, b: int|
                0 <= a < b < s.drop_first().len() ==> s.drop_first()[a].0 == s[a + 1].0
                    && s.drop_first()[b].0 == s[b + 1].0);
        }
        assert(s.drop_first()[j - 1] == s[j]);
        lemma_lookup_unique(s.drop_first(), k, j - 1);
    }
}

/// A present key is found by lookup.
pub proof fn lemma_haskey_lookup<V>(s: Seq<(usize, V)>, k: usize)
    requires
        has_key(s, k),
    ensures
        lookup_assoc(s, k) is Some,
    decreases s.len(),
{
    if s.len() > 0 && s[0].0 != k {
        let j0 = choose|j: int| 0 <= j < s.len() && s[j].0 == k;
        assert(s.drop_first()[j0 - 1].0 == k);
        lemma_haskey_lookup(s.drop_first(), k);
    }
}

/// Appending a pair with a fresh key leaves other lookups unchanged and
/// makes the new key look up to the new value.
pub proof fn lemma_lookup_push<V>(s: Seq<(usize, V)>, k: usize, v: V)
    ensures
        forall|k2: usize| k2 != k ==> lookup_assoc(s.push((k, v)), k2) == lookup_assoc(s, k2),
        !has_key(s, k) ==> lookup_assoc(s.push((k, v)), k) == Some(v),
    decreases s.len(),
{
    let t = s.push((k, v));
    if s.len() == 0 {
        assert(t[0] == (k, v));
        assert(t.drop_first() =~= s);
    } else {
        assert(t[0] == s[0]);
        assert(t.drop_first() =~= s.drop_first().push((k, v)));
        lemma_lookup_push(s.drop_first(), k, v);
        assert forall|k2: usize| k2 != k implies lookup_assoc(t, k2) == lookup_assoc(s, k2) by {
            if s[0].0 == k2 {
            } else {
                assert(lookup_assoc(t, k2) == lookup_assoc(t.drop_first(), k2));
                assert(lookup_assoc(s, k2) == lookup_assoc(s.drop_first(), k2));
            }
        }
        if !has_key(s, k) {
            assert(s[0].0 != k);
            assert(!has_key(s.drop_first(), k)) by {
                if has_key(s.drop_first(), k) {
                    let j0 = choose|j: int|
                        0 <= j < s.drop_first().len() && s.drop_first()[j].0 == k;
                    assert(s[j0 + 1].0 == k);
                }
            }
            assert(lookup_assoc(t, k) == lookup_assoc(t.drop_first(), k));
        }
    }
}

/// Updating the value at position `j` leaves lookups of other keys
/// unchanged, and, under unique keys, redirects the key of `j`.
pub proof fn lemma_lookup_update<V>(s: Seq<(usize, V)>, j: int, v: V)
    requires
        0 <= j < s.len(),
        keys_unique(s),
    ensures
        keys_unique(s.update(j, (s[j].0, v))),
        forall|k2: usize|
            k2 != s[j].0 ==> lookup_assoc(s.update(j, (s[j].0, v)), k2) == lookup_assoc(s, k2),
        lookup_assoc(s.update(j, (s[j].0, v)), s[j].0) == Some(v),
    decreases s.len(),
{
    let t = s.update(j, (s[j].0, v));
    assert forall|a: int| 0 <= a < s.len() && a != j implies t[a] == s[a] by {}
    assert(t[j].0 == s[j].0);
    assert forall|a: int, b: int| 0 <= a < b < t.len() implies t[a].0 != t[b].0 by {
        assert(t[a].0 == s[a].0 && t[b].0 == s[b].0);
    }
    if j == 0 {
        assert(t.drop_first() =~= s.drop_first());
        assert forall|k2: usize| k2 != s[0].0 implies lookup_assoc(t, k2) == lookup_assoc(s, k2)
            by {
            assert(lookup_assoc(t, k2) == lookup_assoc(t.drop_first(), k2));
            assert(lookup_assoc(s, k2) == lookup_assoc(s.drop_first(), k2));
        }
    } else {
        assert(t[0] == s[0]);
        assert(t.drop_first() =~= s.drop_first().update(j - 1, (s.drop_first()[j - 1].0, v)));
        assert(keys_unique(s.drop_first())) by {
            assert(forall|a: int, b: int|
                0 <= a < b < s.drop_first().len() ==> s.drop_first()[a].0 == s[a + 1].0
                    && s.drop_first()[b].0 == s[b + 1].0);
        }
        lemma_lookup_update(s.drop_first(), j - 1, v);
        assert(s[0].0 != s[j].0);
        assert forall|k2: usize| k2 != s[j].0 implies lookup_assoc(t, k2) == lookup_assoc(s, k2)
            by {
            if s[0].0 == k2 {
            } else {
                assert(lookup_assoc(t, k2) == lookup_assoc(t.drop_first(), k2));
                assert(lookup_assoc(s, k2) == lookup_assoc(s.drop_first(), k2));
            }
        }
        assert(lookup_assoc(t, s[j].0) == lookup_assoc(t.drop_first(), s[j].0));
        assert(lookup_assoc(s.drop_first(), s[j].0) == lookup_assoc(s, s[j].0));
    }
}

/// Removing the pair at position `i` removes its key and, under unique
/// keys, leaves every other lookup unchanged.
pub proof fn lemma_lookup_remove<V>(s: Seq<(usize, V)>, i: int)
    requires
        0 <= i < s.len(),
        keys_unique(s),
    ensures
        keys_unique(s.remove(i)),
        !has_key(s.remove(i), s[i].0),
        forall|k2: usize| k2 != s[i].0 ==> lookup_assoc(s.remove(i), k2) == lookup_assoc(s, k2),
        forall|v: usize| has_key(s.remove(i), v) <==> (has_key(s, v) && v != s[i].0),
    decreases s.len(),
{
    let t = s.remove(i);
    assert(forall|a: int| 0 <= a < i ==> t[a] == s[a]);
    assert(forall|a: int| i <= a < t.len() ==> t[a] == s[a + 1]);
    assert forall|a: int, b: int| 0 <= a < b < t.len() implies t[a].0 != t[b].0 by {
        if a < i {
            if b < i {
                assert(t[a] == s[a] && t[b] == s[b]);
            } else {
                assert(t[a] == s[a] && t[b] == s[b + 1]);
            }
        } else {
            assert(t[a] == s[a + 1] && t[b] == s[b + 1]);
        }
    }
    assert forall|v: usize| has_key(t, v) implies (has_key(s, v) && v != s[i].0) by {
        let a = choose|a: int| 0 <= a < t.len() && t[a].0 == v;
        if a < i {
            assert(s[a].0 == v);
        } else {
            assert(s[a + 1].0 == v);
        }
    }
    assert forall|v: usize| has_key(s, v) && v != s[i].0 implies has_key(t, v) by {
        let a = choose|a: int| 0 <= a < s.len() && s[a].0 == v;
        if a < i {
            assert(t[a].0 == v);
        } else {
            assert(a != i);
            assert(t[a - 1].0 == v);
        }
    }
    assert forall|k2: usize| k2 != s[i].0 implies lookup_assoc(t, k2) == lookup_assoc(s, k2) by {
        lemma_lookup_remove_one(s, i, k2);
    }
}

proof fn lemma_lookup_remove_one<V>(s: Seq<(usize, V)>, i: int, k2: usize)
    requires
        0 <= i < s.len(),
        keys_unique(s),
        k2 != s[i].0,
    ensures
        lookup_assoc(s.remove(i), k2) == lookup_assoc(s, k2),
    decreases s.len(),
{
    let t = s.remove(i);
    if i == 0 {
        assert(t =~= s.drop_first());
        assert(s[0].0 != k2);
    } else {
        assert(t[0] == s[0]);
        assert(t.drop_first() =~= s.drop_first().remove(i - 1));
        assert(keys_unique(s.drop_first())) by {
            assert(forall|a: int, b: int|
                0 <= a < b < s.drop_first().len() ==> s.drop_first()[a].0 == s[a + 1].0
                    && s.drop_first()[b].0 == s[b + 1].0);
        }
        assert(s.drop_first()[i - 1].0 == s[i].0);
        lemma_lookup_remove_one(s.drop_first(), i - 1, k2);
        if s[0].0 == k2 {
        } else {
            assert(lookup_assoc(t, k2) == lookup_assoc(t.drop_first(), k2));
            assert(lookup_assoc(s, k2) == lookup_assoc(s.drop_first(), k2));
        }
    }
}

} // verus!
