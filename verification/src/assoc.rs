//! Association lists: the lookup tables of the layout are lists of
//! `(key, value)` pairs, and a lookup returns the value of the first pair
//! with the key.
use vstd::prelude::*;

verus! {

/// Value of the first pair of `s` whose key is `k`.
pub open spec fn assoc<K, V>(s: Seq<(K, V)>, k: K) -> Option<V>
    decreases s.len(),
{
    if s.len() == 0 {
        None
    } else if s[0].0 == k {
        Some(s[0].1)
    } else {
        assoc(s.drop_first(), k)
    }
}

/// Whether some pair of `s` has the key `k`.
pub open spec fn has_key<K, V>(s: Seq<(K, V)>, k: K) -> bool {
    exists|i: int| 0 <= i < s.len() && #[trigger] s[i].0 == k
}

/// Skipping a prefix that does not hold the key keeps the lookup.
pub proof fn lemma_assoc_skip<K, V>(s: Seq<(K, V)>, k: K, i: int)
    requires
        0 <= i <= s.len(),
        forall|j: int| 0 <= j < i ==> #[trigger] s[j].0 != k,
    ensures
        assoc(s, k) == assoc(s.skip(i), k),
    decreases i,
{
    if i == 0 {
        assert(s.skip(0) =~= s);
    } else {
        assert(s[0].0 != k);
        assert(s.skip(1) =~= s.drop_first());
        assert(s.drop_first().skip(i - 1) =~= s.skip(i));
        assert forall|j: int| 0 <= j < i - 1 implies #[trigger] s.drop_first()[j].0 != k by {
            assert(s.drop_first()[j] == s[j + 1]);
        }
        lemma_assoc_skip(s.drop_first(), k, i - 1);
    }
}

/// A lookup finds a value exactly when the key occurs.
pub proof fn lemma_assoc_some<K, V>(s: Seq<(K, V)>, k: K)
    ensures
        assoc(s, k) is Some <==> has_key(s, k),
        assoc(s, k) is Some ==> exists|i: int|
            0 <= i < s.len() && s[i].0 == k && s[i].1 == assoc(s, k)->0,
    decreases s.len(),
{
    if s.len() > 0 {
        lemma_assoc_some(s.drop_first(), k);
        if s[0].0 == k {
            assert(s[0].0 == k);
        } else {
            if has_key(s, k) {
                let i = choose|i: int| 0 <= i < s.len() && #[trigger] s[i].0 == k;
                assert(s.drop_first()[i - 1].0 == k);
            }
            if has_key(s.drop_first(), k) {
                let i = choose|i: int| 0 <= i < s.drop_first().len() && #[trigger] s.drop_first()[i].0 == k;
                assert(s[i + 1].0 == k);
            }
            if assoc(s, k) is Some {
                let i = choose|i: int|
                    0 <= i < s.drop_first().len() && s.drop_first()[i].0 == k && s.drop_first()[i].1
                        == assoc(s.drop_first(), k)->0;
                assert(s[i + 1] == s.drop_first()[i]);
            }
        }
    }
}

/// `s` without its element at `i`, the last element taking its place.
pub open spec fn swap_remove_seq<T>(s: Seq<T>, i: int) -> Seq<T> {
    s.update(i, s.last()).drop_last()
}

/// `i` is the index of the first pair whose key is `k`.
pub open spec fn first_index<K, V>(s: Seq<(K, V)>, k: K, i: int) -> bool {
    0 <= i < s.len() && s[i].0 == k && forall|j: int| 0 <= j < i ==> #[trigger] s[j].0 != k
}

/// A key that occurs has a first index.
pub proof fn lemma_first_index_exists<K, V>(s: Seq<(K, V)>, k: K)
    requires
        has_key(s, k),
    ensures
        exists|i: int| first_index(s, k, i),
    decreases s.len(),
{
    if s[0].0 == k {
        assert(first_index(s, k, 0));
    } else {
        let j = choose|j: int| 0 <= j < s.len() && #[trigger] s[j].0 == k;
        assert(s.drop_first()[j - 1].0 == k);
        lemma_first_index_exists(s.drop_first(), k);
        let i = choose|i: int| first_index(s.drop_first(), k, i);
        assert forall|m: int| 0 <= m < i + 1 implies #[trigger] s[m].0 != k by {
            if m > 0 {
                assert(s[m] == s.drop_first()[m - 1]);
            }
        }
        assert(first_index(s, k, i + 1));
    }
}

/// The first index of a key is unique.
pub proof fn lemma_first_index_unique<K, V>(s: Seq<(K, V)>, k: K, i: int, j: int)
    requires
        first_index(s, k, i),
        first_index(s, k, j),
    ensures
        i == j,
{
    if i < j {
        assert(s[i].0 != k);
    } else if j < i {
        assert(s[j].0 != k);
    }
}

pub proof fn lemma_assoc_at<K, V>(s: Seq<(K, V)>, k: K, i: int)
    requires
        first_index(s, k, i),
    ensures
        assoc(s, k) == Some(s[i].1),
{
    lemma_assoc_skip(s, k, i);
}

pub proof fn lemma_assoc_none<K, V>(s: Seq<(K, V)>, k: K)
    requires
        forall|j: int| 0 <= j < s.len() ==> #[trigger] s[j].0 != k,
    ensures
        assoc(s, k) is None,
{
    lemma_assoc_skip(s, k, s.len() as int);
}

/// Overwriting the value at the first index of a key: the key now gives the
/// new value, every other key what it gave before.
pub proof fn lemma_assoc_update<K, V>(s: Seq<(K, V)>, k: K, v: V, i: int, k2: K)
    requires
        first_index(s, k, i),
    ensures
        assoc(s.update(i, (k, v)), k) == Some(v),
        k2 != k ==> assoc(s.update(i, (k, v)), k2) == assoc(s, k2),
{
    let t = s.update(i, (k, v));
    assert(first_index(t, k, i));
    lemma_assoc_at(t, k, i);
    if k2 != k {
        if has_key(s, k2) {
            lemma_first_index_exists(s, k2);
            let j = choose|j: int| first_index(s, k2, j);
            assert(j != i);
            assert(first_index(t, k2, j));
            lemma_assoc_at(s, k2, j);
            lemma_assoc_at(t, k2, j);
        } else {
            assert forall|j: int| 0 <= j < t.len() implies #[trigger] t[j].0 != k2 by {
                if j != i {
                    assert(t[j] == s[j]);
                }
            }
            lemma_assoc_none(t, k2);
            lemma_assoc_some(s, k2);
        }
    }
}

/// Appending a pair whose key does not occur: the key now gives the new
/// value, every other key what it gave before.
pub proof fn lemma_assoc_push<K, V>(s: Seq<(K, V)>, k: K, v: V, k2: K)
    requires
        !has_key(s, k),
    ensures
        assoc(s.push((k, v)), k) == Some(v),
        k2 != k ==> assoc(s.push((k, v)), k2) == assoc(s, k2),
{
    let t = s.push((k, v));
    assert forall|j: int| 0 <= j < s.len() implies #[trigger] t[j].0 != k by {
        assert(t[j] == s[j]);
    }
    assert(first_index(t, k, s.len() as int));
    lemma_assoc_at(t, k, s.len() as int);
    if k2 != k {
        if has_key(s, k2) {
            lemma_first_index_exists(s, k2);
            let j = choose|j: int| first_index(s, k2, j);
            assert(t[j] == s[j]);
            assert forall|m: int| 0 <= m < j implies #[trigger] t[m].0 != k2 by {
                assert(t[m] == s[m]);
            }
            assert(first_index(t, k2, j));
            lemma_assoc_at(s, k2, j);
            lemma_assoc_at(t, k2, j);
        } else {
            assert forall|j: int| 0 <= j < t.len() implies #[trigger] t[j].0 != k2 by {
                if j < s.len() {
                    assert(t[j] == s[j]);
                }
            }
            lemma_assoc_none(t, k2);
            lemma_assoc_some(s, k2);
        }
    }
}

/// Removing the only pair with a key leaves no pair with it.
pub proof fn lemma_assoc_swap_remove<K, V>(s: Seq<(K, V)>, k: K, i: int)
    requires
        first_index(s, k, i),
        forall|a: int, b: int| 0 <= a < b < s.len() ==> #[trigger] s[a].0 != #[trigger] s[b].0,
    ensures
        assoc(swap_remove_seq(s, i), k) is None,
{
    let t = swap_remove_seq(s, i);
    let n = s.len() - 1;
    assert forall|j: int| 0 <= j < t.len() implies #[trigger] t[j].0 != k by {
        if j == i {
            assert(t[j] == s[n]);
            assert(s[i].0 != s[n].0);
        } else {
            assert(t[j] == s[j]);
            if j < i {
                assert(s[j].0 != k);
            } else {
                assert(s[i].0 != s[j].0);
            }
        }
    }
    lemma_assoc_none(t, k);
}

pub fn lookup_u8<V: Copy>(t: &[(u8, V)], k: u8) -> (r: Option<V>)
    ensures
        r == assoc(t@, k),
{
    let mut i: usize = 0;
    while i < t.len()
        invariant
            i <= t@.len(),
            forall|j: int| 0 <= j < i ==> #[trigger] t@[j].0 != k,
        decreases t@.len() - i,
    {
        if t[i].0 == k {
            proof {
                lemma_assoc_at(t@, k, i as int);
            }
            return Some(t[i].1);
        }
        i += 1;
    }
    proof {
        lemma_assoc_none(t@, k);
    }
    None
}

pub fn lookup_u16<V: Copy>(t: &[(u16, V)], k: u16) -> (r: Option<V>)
    ensures
        r == assoc(t@, k),
{
    let mut i: usize = 0;
    while i < t.len()
        invariant
            i <= t@.len(),
            forall|j: int| 0 <= j < i ==> #[trigger] t@[j].0 != k,
        decreases t@.len() - i,
    {
        if t[i].0 == k {
            proof {
                lemma_assoc_at(t@, k, i as int);
            }
            return Some(t[i].1);
        }
        i += 1;
    }
    proof {
        lemma_assoc_none(t@, k);
    }
    None
}

pub fn lookup_u32<V: Copy>(t: &[(u32, V)], k: u32) -> (r: Option<V>)
    ensures
        r == assoc(t@, k),
{
    let mut i: usize = 0;
    while i < t.len()
        invariant
            i <= t@.len(),
            forall|j: int| 0 <= j < i ==> #[trigger] t@[j].0 != k,
        decreases t@.len() - i,
    {
        if t[i].0 == k {
            proof {
                lemma_assoc_at(t@, k, i as int);
            }
            return Some(t[i].1);
        }
        i += 1;
    }
    proof {
        lemma_assoc_none(t@, k);
    }
    None
}

pub fn lookup_char<V: Copy>(t: &[(char, V)], k: char) -> (r: Option<V>)
    ensures
        r == assoc(t@, k),
{
    let mut i: usize = 0;
    while i < t.len()
        invariant
            i <= t@.len(),
            forall|j: int| 0 <= j < i ==> #[trigger] t@[j].0 != k,
        decreases t@.len() - i,
    {
        if t[i].0 == k {
            proof {
                lemma_assoc_at(t@, k, i as int);
            }
            return Some(t[i].1);
        }
        i += 1;
    }
    proof {
        lemma_assoc_none(t@, k);
    }
    None
}

/// A lookup finds the first entry with the key.
pub proof fn lemma_assoc_first<K, V>(s: Seq<(K, V)>, k: K, i: int)
    requires
        0 <= i < s.len(),
        s[i].0 == k,
        forall|j: int| 0 <= j < i ==> #[trigger] s[j].0 != k,
    ensures
        assoc(s, k) == Some(s[i].1),
    decreases i,
{
    if i > 0 {
        assert(s[0].0 != k);
        let t = s.drop_first();
        assert forall|j: int| 0 <= j < i - 1 implies #[trigger] t[j].0 != k by {
            assert(t[j] == s[j + 1]);
        }
        lemma_assoc_first(t, k, i - 1);
    }
}

} // verus!
