//! An insertion-ordered map from string keys to values.
//!
//! The map is modelled as a sequence of (key, value) pairs with pairwise
//! distinct keys. Insertion order is observable: every operation states
//! exactly how it changes the sequence, so callers can reason about the
//! position of each entry. Replacing the value (or the key) of an existing
//! entry keeps the entry's position; only a genuinely new key is appended.

use vstd::prelude::*;

verus! {

/// The keys of a keyed sequence, in order.
pub open spec fn key_seq<T>(s: Seq<(Seq<char>, T)>) -> Seq<Seq<char>> {
    s.map_values(|p: (Seq<char>, T)| p.0)
}

/// Whether some entry of `s` has key `k`.
pub open spec fn has_key<T>(s: Seq<(Seq<char>, T)>, k: Seq<char>) -> bool {
    exists|i: int| 0 <= i < s.len() && s[i].0 == k
}

/// The index of the entry with key `k` (unique when keys are distinct).
pub open spec fn key_index<T>(s: Seq<(Seq<char>, T)>, k: Seq<char>) -> int {
    choose|i: int| 0 <= i < s.len() && s[i].0 == k
}

/// The value stored under key `k`.
pub open spec fn value_of<T>(s: Seq<(Seq<char>, T)>, k: Seq<char>) -> T {
    s[key_index(s, k)].1
}

/// All keys of `s` are pairwise distinct.
pub open spec fn distinct_keys<T>(s: Seq<(Seq<char>, T)>) -> bool {
    forall|i: int, j: int| 0 <= i < j < s.len() ==> s[i].0 != s[j].0
}

/// With distinct keys, `key_index` picks exactly the position an entry sits at.
pub proof fn lemma_key_index<T>(s: Seq<(Seq<char>, T)>, k: Seq<char>, i: int)
    requires
        distinct_keys(s),
        0 <= i < s.len(),
        s[i].0 == k,
    ensures
        key_index(s, k) == i,
{
    assert(has_key(s, k));
    let j = key_index(s, k);
    if j != i {
        assert(s[i].0 != s[j].0);
    }
}

/// Inserting under key `k`: an existing entry keeps its position and gets the
/// new value; a new key is appended at the end.
pub open spec fn spec_insert<T>(s: Seq<(Seq<char>, T)>, k: Seq<char>, v: T) -> Seq<(Seq<char>, T)> {
    if has_key(s, k) {
        s.update(key_index(s, k), (k, v))
    } else {
        s.push((k, v))
    }
}

/// Renaming the key of an entry. The entry keeps its position and its value;
/// only its key changes. When the new key collides with another existing
/// entry, that entry's slot receives the renamed value and the old entry's
/// slot disappears (the overwrite-on-collision semantics of ordered-map
/// insertion). Renaming a key to itself, or a key that is absent, is a no-op.
pub open spec fn spec_rename_key<T>(
    s: Seq<(Seq<char>, T)>,
    old_key: Seq<char>,
    new_key: Seq<char>,
) -> Seq<(Seq<char>, T)> {
    if !has_key(s, old_key) || old_key == new_key {
        s
    } else if has_key(s, new_key) {
        let v = value_of(s, old_key);
        let s1 = s.remove(key_index(s, old_key));
        s1.update(key_index(s1, new_key), (new_key, v))
    } else {
        s.update(key_index(s, old_key), (new_key, value_of(s, old_key)))
    }
}

/// Removing an entry keeps the keys distinct and removes exactly that key.
pub proof fn lemma_distinct_remove<T>(s: Seq<(Seq<char>, T)>, i: int)
    requires
        distinct_keys(s),
        0 <= i < s.len(),
    ensures
        distinct_keys(s.remove(i)),
        forall|k: Seq<char>| has_key(s.remove(i), k) <==> (has_key(s, k) && k != s[i].0),
{
    let t = s.remove(i);
    assert forall|a: int, b: int| 0 <= a < b < t.len() implies t[a].0 != t[b].0 by {
        let a0 = if a < i { a } else { a + 1 };
        let b0 = if b < i { b } else { b + 1 };
        assert(t[a] == s[a0]);
        assert(t[b] == s[b0]);
    }
    assert forall|k: Seq<char>| has_key(t, k) implies (has_key(s, k) && k != s[i].0) by {
        let a = choose|a: int| 0 <= a < t.len() && t[a].0 == k;
        let a0 = if a < i { a } else { a + 1 };
        assert(t[a] == s[a0]);
        assert(s[a0].0 == k);
        if k == s[i].0 {
            assert(s[a0].0 == s[i].0);
            assert(a0 != i);
        }
    }
    assert forall|k: Seq<char>| has_key(s, k) && k != s[i].0 implies has_key(t, k) by {
        let a0 = choose|a0: int| 0 <= a0 < s.len() && s[a0].0 == k;
        let a = if a0 < i { a0 } else { a0 - 1 };
        assert(a0 != i);
        assert(t[a] == s[a0]);
    }
}

/// How renaming a key changes the key set, and that it keeps keys distinct.
pub proof fn lemma_rename_key_keys<T>(
    s: Seq<(Seq<char>, T)>,
    old_key: Seq<char>,
    new_key: Seq<char>,
)
    requires
        distinct_keys(s),
        has_key(s, old_key),
    ensures
        distinct_keys(spec_rename_key(s, old_key, new_key)),
        forall|k: Seq<char>|
            has_key(spec_rename_key(s, old_key, new_key), k) <==> (k == new_key || (has_key(s, k)
                && k != old_key)),
{
    let r = spec_rename_key(s, old_key, new_key);
    if old_key == new_key {
        assert forall|k: Seq<char>| has_key(r, k) implies (k == new_key || (has_key(s, k) && k
            != old_key)) by {}
    } else if has_key(s, new_key) {
        let io = key_index(s, old_key);
        lemma_key_index(s, old_key, io);
        let s1 = s.remove(io);
        lemma_distinct_remove(s, io);
        let in1 = key_index(s1, new_key);
        assert(has_key(s1, new_key));
        assert(0 <= in1 < s1.len() && s1[in1].0 == new_key);
        assert forall|a: int, b: int| 0 <= a < b < r.len() implies r[a].0 != r[b].0 by {
            assert(s1[a].0 != s1[b].0);
        }
        assert forall|k: Seq<char>| has_key(r, k) implies (k == new_key || (has_key(s, k) && k
            != old_key)) by {
            let a = choose|a: int| 0 <= a < r.len() && r[a].0 == k;
            if a != in1 {
                assert(r[a] == s1[a]);
                assert(has_key(s1, k));
            }
        }
        assert forall|k: Seq<char>| k == new_key || (has_key(s, k) && k != old_key) implies
            has_key(r, k) by {
            if k == new_key {
                assert(r[in1].0 == new_key);
            } else {
                assert(has_key(s1, k));
                let a = choose|a: int| 0 <= a < s1.len() && s1[a].0 == k;
                if a != in1 {
                    assert(r[a] == s1[a]);
                } else {
                    lemma_key_index(s1, new_key, in1);
                }
            }
        }
    } else {
        let io = key_index(s, old_key);
        lemma_key_index(s, old_key, io);
        assert forall|a: int, b: int| 0 <= a < b < r.len() implies r[a].0 != r[b].0 by {
            if a == io {
                assert(r[b] == s[b]);
                assert(!has_key(s, new_key));
                if r[a].0 == r[b].0 {
                    assert(has_key(s, new_key));
                }
            } else if b == io {
                assert(r[a] == s[a]);
                if r[a].0 == r[b].0 {
                    assert(has_key(s, new_key));
                }
            } else {
                assert(r[a] == s[a]);
                assert(r[b] == s[b]);
            }
        }
        assert forall|k: Seq<char>| has_key(r, k) implies (k == new_key || (has_key(s, k) && k
            != old_key)) by {
            let a = choose|a: int| 0 <= a < r.len() && r[a].0 == k;
            if a != io {
                assert(r[a] == s[a]);
                if k == old_key {
                    lemma_key_index(s, old_key, a);
                }
            }
        }
        assert forall|k: Seq<char>| k == new_key || (has_key(s, k) && k != old_key) implies
            has_key(r, k) by {
            if k == new_key {
                assert(r[io].0 == new_key);
            } else {
                let a = choose|a: int| 0 <= a < s.len() && s[a].0 == k;
                assert(a != io);
                assert(r[a] == s[a]);
            }
        }
    }
}

/// Every value of a renamed sequence is a value of the original sequence.
pub proof fn lemma_rename_key_values<T>(
    s: Seq<(Seq<char>, T)>,
    old_key: Seq<char>,
    new_key: Seq<char>,
)
    requires
        distinct_keys(s),
        has_key(s, old_key),
    ensures
        forall|a: int|
            0 <= a < spec_rename_key(s, old_key, new_key).len() ==> exists|b: int|
                0 <= b < s.len() && (#[trigger] spec_rename_key(s, old_key, new_key)[a]).1
                    == s[b].1,
{
    let r = spec_rename_key(s, old_key, new_key);
    if !has_key(s, old_key) || old_key == new_key {
        assert forall|a: int| 0 <= a < r.len() implies exists|b: int| 0 <= b < s.len()
            && (#[trigger] r[a]).1 == s[b].1 by {
            assert(r[a].1 == s[a].1);
        }
    } else if has_key(s, new_key) {
        let io = key_index(s, old_key);
        lemma_key_index(s, old_key, io);
        let s1 = s.remove(io);
        lemma_distinct_remove(s, io);
        assert(has_key(s1, new_key));
        let in1 = key_index(s1, new_key);
        assert(0 <= in1 < s1.len() && s1[in1].0 == new_key);
        assert forall|a: int| 0 <= a < r.len() implies exists|b: int| 0 <= b < s.len()
            && (#[trigger] r[a]).1 == s[b].1 by {
            if a == in1 {
                assert(r[a].1 == s[io].1);
            } else {
                let b = if a < io { a } else { a + 1 };
                assert(s1[a] == s[b]);
                assert(r[a].1 == s[b].1);
            }
        }
    } else {
        let io = key_index(s, old_key);
        lemma_key_index(s, old_key, io);
        assert forall|a: int| 0 <= a < r.len() implies exists|b: int| 0 <= b < s.len()
            && (#[trigger] r[a]).1 == s[b].1 by {
            if a == io {
                assert(r[a].1 == s[io].1);
            } else {
                assert(r[a].1 == s[a].1);
            }
        }
    }
}

/// An insertion-ordered map with `String` keys, stored as a vector of
/// key–value pairs with pairwise distinct keys.
pub struct OrderedMap<V> {
    entries: Vec<(String, V)>,
}

impl<V: View> View for OrderedMap<V> {
    type V = Seq<(Seq<char>, <V as View>::V)>;

    closed spec fn view(&self) -> Seq<(Seq<char>, <V as View>::V)> {
        Seq::new(self.entries@.len(), |i: int| (self.entries@[i].0@, self.entries@[i].1@))
    }
}

impl<V: View> OrderedMap<V> {
    /// The map's keys are pairwise distinct.
    pub open spec fn wf(&self) -> bool {
        distinct_keys(self@)
    }

    /// An empty map.
    pub fn new() -> (r: Self)
        ensures
            r@ == Seq::<(Seq<char>, <V as View>::V)>::empty(),
            r.wf(),
    {
        let r = OrderedMap { entries: Vec::new() };
        proof {
            assert(r@ =~= Seq::<(Seq<char>, <V as View>::V)>::empty());
        }
        r
    }

    /// The number of entries.
    pub fn len(&self) -> (r: usize)
        ensures
            r == self@.len(),
    {
        self.entries.len()
    }

    /// The position of the entry with key `k`, if any.
    pub fn index_of(&self, k: &String) -> (r: Option<usize>)
        ensures
            match r {
                Some(i) => i < self@.len() && self@[i as int].0 == k@,
                None => !has_key(self@, k@),
            },
    {
        let n = self.entries.len();
        let mut i: usize = 0;
        while i < n
            invariant
                n == self.entries@.len(),
                i <= n,
                forall|j: int| 0 <= j < i ==> self@[j].0 != k@,
            decreases n - i,
        {
            if self.entries[i].0 == *k {
                return Some(i);
            }
            i += 1;
        }
        None
    }

    /// Whether the map holds an entry with key `k`.
    pub fn contains_key(&self, k: &String) -> (r: bool)
        ensures
            r == has_key(self@, k@),
    {
        match self.index_of(k) {
            Some(_) => true,
            None => false,
        }
    }

    /// The key of the entry at position `i`.
    pub fn key_at(&self, i: usize) -> (r: &String)
        requires
            i < self@.len(),
        ensures
            r@ == self@[i as int].0,
    {
        &self.entries[i].0
    }

    /// The value of the entry at position `i`.
    pub fn value_at(&self, i: usize) -> (r: &V)
        requires
            i < self@.len(),
        ensures
            r@ == self@[i as int].1,
    {
        &self.entries[i].1
    }

    /// The value stored under key `k`, if any.
    pub fn get(&self, k: &String) -> (r: Option<&V>)
        requires
            self.wf(),
        ensures
            match r {
                Some(v) => has_key(self@, k@) && v@ == value_of(self@, k@),
                None => !has_key(self@, k@),
            },
    {
        match self.index_of(k) {
            Some(i) => {
                proof {
                    lemma_key_index(self@, k@, i as int);
                }
                Some(&self.entries[i].1)
            },
            None => None,
        }
    }

    /// Inserts `v` under key `k`: an existing entry keeps its position and
    /// gets the new value; a new key is appended at the end.
    pub fn insert(&mut self, k: String, v: V)
        requires
            old(self).wf(),
        ensures
            final(self).wf(),
            final(self)@ == spec_insert(old(self)@, k@, v@),
    {
        let ghost s0 = self@;
        let ghost kv = k@;
        let ghost vv = v@;
        match self.index_of(&k) {
            Some(i) => {
                proof {
                    lemma_key_index(s0, kv, i as int);
                }
                let _ = self.entries.remove(i);
                self.entries.insert(i, (k, v));
                proof {
                    assert(self@ =~= s0.update(i as int, (kv, vv)));
                    assert(s0[i as int].0 == kv);
                    assert forall|a: int, b: int| 0 <= a < b < self@.len() implies self@[a].0
                        != self@[b].0 by {
                        assert(s0[a].0 != s0[b].0);
                    }
                }
            },
            None => {
                self.entries.push((k, v));
                proof {
                    assert(self@ =~= s0.push((kv, vv)));
                    assert forall|a: int, b: int| 0 <= a < b < self@.len() implies self@[a].0
                        != self@[b].0 by {
                        if b == s0.len() {
                            assert(self@[a] == s0[a]);
                            assert(has_key(s0, s0[a].0));
                        } else {
                            assert(self@[a] == s0[a]);
                            assert(self@[b] == s0[b]);
                        }
                    }
                }
            },
        }
    }

    /// Replaces the value of the entry at position `i`, returning the value
    /// it held before. Keys and positions are unchanged.
    pub fn set_value_at(&mut self, i: usize, v: V) -> (prev: V)
        requires
            old(self).wf(),
            i < old(self)@.len(),
        ensures
            final(self).wf(),
            final(self)@ == old(self)@.update(i as int, (old(self)@[i as int].0, v@)),
            prev@ == old(self)@[i as int].1,
    {
        let ghost s0 = self@;
        let ghost vv = v@;
        let pair = self.entries.remove(i);
        self.entries.insert(i, (pair.0, v));
        proof {
            assert(self@ =~= s0.update(i as int, (s0[i as int].0, vv)));
            assert forall|a: int, b: int| 0 <= a < b < self@.len() implies self@[a].0
                != self@[b].0 by {
                assert(s0[a].0 != s0[b].0);
            }
        }
        pair.1
    }

    /// Renames the entry under `old_key` to `new_key`, keeping its position
    /// and value. When `new_key` already names another entry, that entry's
    /// slot receives the renamed value and the `old_key` slot disappears.
    pub fn rename_key(&mut self, old_key: &String, new_key: String)
        requires
            old(self).wf(),
            has_key(old(self)@, old_key@),
        ensures
            final(self).wf(),
            final(self)@ == spec_rename_key(old(self)@, old_key@, new_key@),
    {
        let ghost s0 = self@;
        let ghost okv = old_key@;
        let ghost nkv = new_key@;
        proof {
            lemma_rename_key_keys(s0, okv, nkv);
        }
        if *old_key == new_key {
            return;
        }
        let i_old = match self.index_of(old_key) {
            Some(i) => i,
            None => {
                proof {
                    assert(false);
                }
                0
            },
        };
        proof {
            lemma_key_index(s0, okv, i_old as int);
        }
        match self.index_of(&new_key) {
            Some(_) => {
                let pair = self.entries.remove(i_old);
                let ghost s1 = self@;
                proof {
                    assert(s1 =~= s0.remove(i_old as int));
                    lemma_distinct_remove(s0, i_old as int);
                    assert(has_key(s1, nkv));
                }
                let i_new = match self.index_of(&new_key) {
                    Some(i) => i,
                    None => {
                        proof {
                            assert(false);
                        }
                        0
                    },
                };
                proof {
                    lemma_key_index(s1, nkv, i_new as int);
                }
                let pair2 = self.entries.remove(i_new);
                self.entries.insert(i_new, (new_key, pair.1));
                proof {
                    assert(self@ =~= s1.update(i_new as int, (nkv, s0[i_old as int].1)));
                    assert(value_of(s0, okv) == s0[i_old as int].1);
                    assert(self@ =~= spec_rename_key(s0, okv, nkv));
                }
            },
            None => {
                let pair = self.entries.remove(i_old);
                self.entries.insert(i_old, (new_key, pair.1));
                proof {
                    assert(self@ =~= s0.update(i_old as int, (nkv, s0[i_old as int].1)));
                    assert(value_of(s0, okv) == s0[i_old as int].1);
                    assert(self@ =~= spec_rename_key(s0, okv, nkv));
                }
            },
        }
    }
}

} // verus!
