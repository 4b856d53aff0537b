//! A small verified association table, generic over the key type, used for
//! the agent stores: agent configurations by numeric id, agent ids by
//! owner, and stored outputs by digest.

use vstd::prelude::*;

verus! {

/// A key that can decide equality of its mathematical view.
pub trait TableKey: View + Sized {
    /// Whether two keys denote the same view.
    fn key_eq(&self, other: &Self) -> (r: bool)
        ensures
            r == (self@ == other@),
    ;
}

impl TableKey for u64 {
    fn key_eq(&self, other: &Self) -> (r: bool)
        ensures
            r == (self@ == other@),
    {
        *self == *other
    }
}

impl TableKey for String {
    fn key_eq(&self, other: &Self) -> (r: bool)
        ensures
            r == (self@ == other@),
    {
        self.eq(other)
    }
}

impl TableKey for Vec<u8> {
    fn key_eq(&self, other: &Self) -> (r: bool)
        ensures
            r == (self@ == other@),
    {
        crate::account::bytes_eq(self, other)
    }
}

/// Whether the keys are pairwise distinct.
pub open spec fn kv_keys_distinct<K: View, V>(s: Seq<(K, V)>) -> bool {
    forall|i: int, j: int| 0 <= i < j < s.len() ==> s[i].0@ != s[j].0@
}

/// Whether the table holds an entry under `k`.
pub open spec fn kv_has<K: View, V>(s: Seq<(K, V)>, k: K::V) -> bool {
    exists|i: int| 0 <= i < s.len() && s[i].0@ == k
}

/// The value stored under `k`, if any.
pub open spec fn kv_get<K: View, V>(s: Seq<(K, V)>, k: K::V) -> Option<V>
    decreases s.len(),
{
    if s.len() == 0 {
        None
    } else if s[0].0@ == k {
        Some(s[0].1)
    } else {
        kv_get(s.subrange(1, s.len() as int), k)
    }
}

/// The entry found at an index holds the key's value.
pub proof fn lemma_kv_found<K: View, V>(s: Seq<(K, V)>, i: int)
    requires
        kv_keys_distinct(s),
        0 <= i < s.len(),
    ensures
        kv_has(s, s[i].0@),
        kv_get(s, s[i].0@) == Some(s[i].1),
    decreases i,
{
    if i > 0 {
        let rest = s.subrange(1, s.len() as int);
        assert(forall|k: int| 0 <= k < rest.len() ==> rest[k] == s[k + 1]);
        lemma_kv_found(rest, i - 1);
    }
}

/// An absent key has no value.
pub proof fn lemma_kv_absent<K: View, V>(s: Seq<(K, V)>, k: K::V)
    requires
        !kv_has(s, k),
    ensures
        kv_get(s, k) is None,
    decreases s.len(),
{
    if s.len() > 0 {
        let rest = s.subrange(1, s.len() as int);
        assert(forall|i: int| 0 <= i < rest.len() ==> rest[i] == s[i + 1]);
        lemma_kv_absent(rest, k);
    }
}

/// Replacing the entry at `i` under the same key rewrites that key's value
/// and leaves every other value alone.
pub proof fn lemma_kv_update_point<K: View, V>(s: Seq<(K, V)>, i: int, p: (K, V), x: K::V)
    requires
        kv_keys_distinct(s),
        0 <= i < s.len(),
        p.0@ == s[i].0@,
    ensures
        kv_has(s.update(i, p), x) == kv_has(s, x),
        kv_get(s.update(i, p), x) == if x == s[i].0@ {
            Some(p.1)
        } else {
            kv_get(s, x)
        },
        kv_keys_distinct(s.update(i, p)),
    decreases s.len(),
{
    let t = s.update(i, p);
    assert(forall|k: int| 0 <= k < t.len() ==> t[k].0@ == s[k].0@);
    assert(kv_has(t, x) == kv_has(s, x)) by {
        if kv_has(s, x) {
            let k = choose|k: int| 0 <= k < s.len() && s[k].0@ == x;
            assert(t[k].0@ == x);
        }
        if kv_has(t, x) {
            let k = choose|k: int| 0 <= k < t.len() && t[k].0@ == x;
            assert(s[k].0@ == x);
        }
    }
    assert(kv_get(t, x) == if t[0].0@ == x {
        Some(t[0].1)
    } else {
        kv_get(t.subrange(1, t.len() as int), x)
    });
    assert(kv_get(s, x) == if s[0].0@ == x {
        Some(s[0].1)
    } else {
        kv_get(s.subrange(1, s.len() as int), x)
    });
    if i == 0 {
        assert(t.subrange(1, t.len() as int) =~= s.subrange(1, s.len() as int));
    } else {
        let rest = s.subrange(1, s.len() as int);
        assert(forall|k: int| 0 <= k < rest.len() ==> rest[k] == s[k + 1]);
        lemma_kv_update_point(rest, i - 1, p, x);
        assert(t.subrange(1, t.len() as int) =~= rest.update(i - 1, p));
        assert(t[0] == s[0]);
    }
}

/// Appending an entry under a fresh key stores its value there and leaves
/// every other value alone.
pub proof fn lemma_kv_push_point<K: View, V>(s: Seq<(K, V)>, p: (K, V), x: K::V)
    requires
        !kv_has(s, p.0@),
    ensures
        kv_has(s.push(p), x) == (kv_has(s, x) || x == p.0@),
        kv_get(s.push(p), x) == if x == p.0@ {
            Some(p.1)
        } else {
            kv_get(s, x)
        },
    decreases s.len(),
{
    let t = s.push(p);
    assert(t.len() == s.len() + 1);
    assert(t[t.len() - 1] == p);
    assert(kv_has(t, x) == (kv_has(s, x) || x == p.0@)) by {
        if kv_has(s, x) {
            let k = choose|k: int| 0 <= k < s.len() && s[k].0@ == x;
            assert(t[k].0@ == x);
        }
        if kv_has(t, x) {
            let k = choose|k: int| 0 <= k < t.len() && t[k].0@ == x;
            if k < s.len() {
                assert(s[k].0@ == x);
            }
        }
    }
    assert(kv_get(t, x) == if t[0].0@ == x {
        Some(t[0].1)
    } else {
        kv_get(t.subrange(1, t.len() as int), x)
    });
    if s.len() == 0 {
        assert(t.subrange(1, t.len() as int) =~= Seq::<(K, V)>::empty());
        assert(t[0] == p);
    } else {
        let rest = s.subrange(1, s.len() as int);
        assert(forall|k: int| 0 <= k < rest.len() ==> rest[k] == s[k + 1]);
        assert(!kv_has(rest, p.0@)) by {
            if kv_has(rest, p.0@) {
                let k = choose|k: int| 0 <= k < rest.len() && rest[k].0@ == p.0@;
                assert(s[k + 1].0@ == p.0@);
            }
        }
        lemma_kv_push_point(rest, p, x);
        assert(t.subrange(1, t.len() as int) =~= rest.push(p));
        assert(t[0] == s[0]);
        assert(kv_get(s, x) == if s[0].0@ == x {
            Some(s[0].1)
        } else {
            kv_get(rest, x)
        });
    }
}

/// Appending an entry under a fresh key keeps the keys distinct.
pub proof fn lemma_kv_distinct_push<K: View, V>(s: Seq<(K, V)>, p: (K, V))
    requires
        kv_keys_distinct(s),
        !kv_has(s, p.0@),
    ensures
        kv_keys_distinct(s.push(p)),
{
    let t = s.push(p);
    assert(forall|k: int| 0 <= k < s.len() ==> t[k] == s[k]);
    assert(t[t.len() - 1] == p);
}

/// Finds the position of `k` in the table, if any.
pub fn kv_find<K: TableKey, V>(v: &Vec<(K, V)>, k: &K) -> (r: Option<usize>)
    ensures
        match r {
            Some(i) => i < v@.len() && v@[i as int].0@ == k@,
            None => !kv_has(v@, k@),
        },
{
    let n = v.len();
    let mut i: usize = 0;
    while i < n
        invariant
            i <= n,
            n == v@.len(),
            forall|j: int| 0 <= j < i ==> v@[j].0@ != k@,
        decreases n - i,
    {
        if v[i].0.key_eq(k) {
            return Some(i);
        }
        i = i + 1;
    }
    None
}

} // verus!
