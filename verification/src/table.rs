//! Small association tables keyed by 32-bit identifiers.
//!
//! The daemon's lookup structures (keysym to keycode, keycode to modifier
//! mask, keysym to spare slot) are tiny, so they are kept as plain vectors
//! of pairs with a uniqueness invariant, which lets every lookup and
//! update be specified exactly.

use vstd::prelude::*;

verus! {

/// An association list from `u32` keys to copyable values, unique keys.
#[derive(Debug, Clone)]
pub struct Table<V> {
    pub pairs: Vec<(u32, V)>,
}

/// First value bound to `k` in the pair sequence, if any.
pub open spec fn assoc_get<V>(s: Seq<(u32, V)>, k: u32) -> Option<V>
    decreases s.len(),
{
    if s.len() == 0 {
        None
    } else if s[0].0 == k {
        Some(s[0].1)
    } else {
        assoc_get(s.drop_first(), k)
    }
}

/// Searching from position `i` onward is the whole search when no earlier
/// pair carries the key.
pub proof fn lemma_assoc_get_skip<V>(s: Seq<(u32, V)>, k: u32, i: int)
    requires
        0 <= i <= s.len(),
        forall|j: int| 0 <= j < i ==> s[j].0 != k,
    ensures
        assoc_get(s, k) == assoc_get(s.skip(i), k),
    decreases i,
{
    if i > 0 {
        assert(s.skip(1) =~= s.drop_first());
        lemma_assoc_get_skip(s.drop_first(), k, i - 1);
        assert(s.drop_first().skip(i - 1) =~= s.skip(i));
    } else {
        assert(s.skip(0) =~= s);
    }
}

/// A key bound somewhere in the sequence is found.
pub proof fn lemma_assoc_get_present<V>(s: Seq<(u32, V)>, k: u32, i: int)
    requires
        0 <= i < s.len(),
        s[i].0 == k,
        forall|j: int| 0 <= j < i ==> s[j].0 != k,
    ensures
        assoc_get(s, k) == Some(s[i].1),
{
    lemma_assoc_get_skip(s, k, i);
    assert(s.skip(i)[0] == s[i]);
}

/// Appending a pair with a fresh key leaves other lookups alone and binds it.
pub proof fn lemma_assoc_get_push<V>(s: Seq<(u32, V)>, k: u32, v: V, q: u32)
    ensures
        assoc_get(s.push((k, v)), q) == if assoc_get(s, q) is Some {
            assoc_get(s, q)
        } else if q == k {
            Some(v)
        } else {
            None::<V>
        },
    decreases s.len(),
{
    if s.len() == 0 {
        assert(s.push((k, v)).drop_first() =~= Seq::<(u32, V)>::empty());
    } else {
        assert(s.push((k, v)).drop_first() =~= s.drop_first().push((k, v)));
        lemma_assoc_get_push(s.drop_first(), k, v, q);
    }
}

impl<V: Copy> Table<V> {
    /// Each key appears at most once.
    pub open spec fn wf(self) -> bool {
        forall|i: int, j: int|
            0 <= i < j < self.pairs@.len() ==> self.pairs@[i].0 != self.pairs@[j].0
    }

    pub fn new() -> (r: Self)
        ensures
            r.wf(),
            r.pairs@.len() == 0,
    {
        Table { pairs: Vec::new() }
    }

    /// Looks the key up.
    pub fn get(&self, k: u32) -> (r: Option<V>)
        ensures
            r == assoc_get(self.pairs@, k),
    {
        let n = self.pairs.len();
        let mut i: usize = 0;
        while i < n
            invariant
                i <= n,
                n == self.pairs@.len(),
                forall|j: int| 0 <= j < i ==> self.pairs@[j].0 != k,
            decreases n - i,
        {
            if self.pairs[i].0 == k {
                proof {
                    lemma_assoc_get_present(self.pairs@, k, i as int);
                }
                return Some(self.pairs[i].1);
            }
            i += 1;
        }
        proof {
            lemma_assoc_get_skip(self.pairs@, k, n as int);
        }
        None
    }

    /// Whether the key is bound.
    pub fn contains(&self, k: u32) -> (r: bool)
        ensures
            r == (assoc_get(self.pairs@, k) is Some),
    {
        self.get(k).is_some()
    }

    /// Binds `k` to `v` unless `k` is already bound; first binding wins.
    pub fn insert_if_absent(&mut self, k: u32, v: V)
        requires
            old(self).wf(),
        ensures
            final(self).wf(),
            forall|q: u32|
                assoc_get(#[trigger] final(self).pairs@, q) == if q == k && assoc_get(
                    old(self).pairs@,
                    k,
                ) is None {
                    Some(v)
                } else {
                    assoc_get(old(self).pairs@, q)
                },
    {
        if !self.contains(k) {
            let ghost s0 = self.pairs@;
            self.pairs.push((k, v));
            proof {
                assert forall|q: u32|
                    assoc_get(#[trigger] self.pairs@, q) == if q == k {
                        Some(v)
                    } else {
                        assoc_get(s0, q)
                    } by {
                    lemma_assoc_get_push(s0, k, v, q);
                };
                assert forall|i: int, j: int|
                    0 <= i < j < self.pairs@.len() implies self.pairs@[i].0 != self.pairs@[j].0 by {
                    if j == self.pairs@.len() - 1 {
                        if self.pairs@[i].0 == k {
                            lemma_assoc_get_present(s0, k, i);
                        }
                    }
                }
            }
        }
    }

    /// Binds `k` to `v`, replacing any earlier binding.
    pub fn insert(&mut self, k: u32, v: V)
        requires
            old(self).wf(),
        ensures
            final(self).wf(),
            forall|q: u32|
                assoc_get(#[trigger] final(self).pairs@, q) == if q == k {
                    Some(v)
                } else {
                    assoc_get(old(self).pairs@, q)
                },
    {
        let n = self.pairs.len();
        let mut i: usize = 0;
        while i < n
            invariant
                i <= n,
                n == self.pairs@.len(),
                old(self) == self,
                old(self).wf(),
                forall|j: int| 0 <= j < i ==> self.pairs@[j].0 != k,
            decreases n - i,
        {
            if self.pairs[i].0 == k {
                let ghost s0 = self.pairs@;
                self.pairs.set(i, (k, v));
                proof {
                    assert forall|q: u32|
                        assoc_get(#[trigger] self.pairs@, q) == if q == k {
                            Some(v)
                        } else {
                            assoc_get(s0, q)
                        } by {
                        lemma_assoc_update(s0, i as int, k, v, q);
                    }
                    assert forall|a: int, b: int|
                        0 <= a < b < self.pairs@.len() implies self.pairs@[a].0
                        != self.pairs@[b].0 by {
                        assert(old(self).pairs@[a].0 != old(self).pairs@[b].0);
                        assert(self.pairs@[a].0 == s0[a].0);
                        assert(self.pairs@[b].0 == s0[b].0);
                    }
                }
                return;
            }
            i += 1;
        }
        let ghost s0 = self.pairs@;
        self.pairs.push((k, v));
        proof {
            lemma_assoc_get_skip(s0, k, n as int);
            assert forall|q: u32|
                assoc_get(#[trigger] self.pairs@, q) == if q == k {
                    Some(v)
                } else {
                    assoc_get(s0, q)
                } by {
                lemma_assoc_get_push(s0, k, v, q);
            }
        }
    }
}

/// First value bound to name `q` in a name-keyed pair sequence.
pub open spec fn assoc_get_name(s: Seq<(Vec<char>, u32)>, q: Seq<char>) -> Option<u32>
    decreases s.len(),
{
    if s.len() == 0 {
        None
    } else if s[0].0@ == q {
        Some(s[0].1)
    } else {
        assoc_get_name(s.drop_first(), q)
    }
}

/// Searching from position `i` onward is the whole search when no earlier
/// pair carries the name.
pub proof fn lemma_assoc_name_skip(s: Seq<(Vec<char>, u32)>, q: Seq<char>, i: int)
    requires
        0 <= i <= s.len(),
        forall|j: int| 0 <= j < i ==> (#[trigger] s[j]).0@ != q,
    ensures
        assoc_get_name(s, q) == assoc_get_name(s.skip(i), q),
    decreases i,
{
    if i > 0 {
        lemma_assoc_name_skip(s.drop_first(), q, i - 1);
        assert(s.drop_first().skip(i - 1) =~= s.skip(i));
    } else {
        assert(s.skip(0) =~= s);
    }
}

/// A name bound somewhere in the sequence is found.
pub proof fn lemma_assoc_name_present(s: Seq<(Vec<char>, u32)>, q: Seq<char>, i: int)
    requires
        0 <= i < s.len(),
        s[i].0@ == q,
        forall|j: int| 0 <= j < i ==> (#[trigger] s[j]).0@ != q,
    ensures
        assoc_get_name(s, q) == Some(s[i].1),
{
    lemma_assoc_name_skip(s, q, i);
    assert(s.skip(i)[0] == s[i]);
}

/// Overwriting the value at the unique slot of key `k` changes only `k`'s
/// binding.
pub proof fn lemma_assoc_update<V>(s: Seq<(u32, V)>, i: int, k: u32, v: V, q: u32)
    requires
        0 <= i < s.len(),
        s[i].0 == k,
        forall|j: int| 0 <= j < i ==> s[j].0 != k,
    ensures
        assoc_get(s.update(i, (k, v)), q) == if q == k {
            Some(v)
        } else {
            assoc_get(s, q)
        },
    decreases i,
{
    if i == 0 {
        if q != k {
            assert(s.update(0, (k, v)).drop_first() =~= s.drop_first());
        }
    } else {
        assert(s.update(i, (k, v)).drop_first() =~= s.drop_first().update(i - 1, (k, v)));
        lemma_assoc_update(s.drop_first(), i - 1, k, v, q);
    }
}

} // verus!
