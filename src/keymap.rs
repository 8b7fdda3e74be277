//! An ordered map with 16-bit keys, kept as a vector of entries sorted by
//! key.
use vstd::prelude::*;

verus! {

/// Entries sorted by strictly increasing key.
#[derive(Debug)]
pub struct KeyMap<V> {
    pub entries: Vec<(u16, V)>,
}

pub open spec fn sorted_keys<V>(s: Seq<(u16, V)>) -> bool {
    forall|i: int, j: int| 0 <= i < j < s.len() ==> (#[trigger] s[i]).0 < (#[trigger] s[j]).0
}

/// The map that a sequence of entries describes.
pub open spec fn key_map<V>(s: Seq<(u16, V)>) -> Map<u16, V>
    decreases s.len(),
{
    if s.len() == 0 {
        Map::empty()
    } else {
        key_map(s.drop_last()).insert(s.last().0, s.last().1)
    }
}

/// Each key of the entries is in the map, with its value, and nothing else
/// is.
pub proof fn lemma_key_map<V>(s: Seq<(u16, V)>)
    requires
        sorted_keys(s),
    ensures
        forall|k: u16|
            #[trigger] key_map(s).contains_key(k) <==> exists|i: int|
                0 <= i < s.len() && (#[trigger] s[i]).0 == k,
        forall|i: int| 0 <= i < s.len() ==> #[trigger] key_map(s)[s[i].0] == s[i].1,
    decreases s.len(),
{
    if s.len() > 0 {
        let p = s.drop_last();
        assert(sorted_keys(p));
        lemma_key_map(p);
        assert(key_map(s) == key_map(p).insert(s.last().0, s.last().1));
        assert forall|k: u16| #[trigger] key_map(s).contains_key(k) <==> exists|i: int|
            0 <= i < s.len() && (#[trigger] s[i]).0 == k by {
            if key_map(s).contains_key(k) {
                if k == s.last().0 {
                    assert(s[s.len() - 1].0 == k);
                } else {
                    assert(key_map(p).contains_key(k));
                    let i = choose|i: int| 0 <= i < p.len() && (#[trigger] p[i]).0 == k;
                    assert(p[i] == s[i]);
                    assert(s[i].0 == k);
                }
            }
            if exists|i: int| 0 <= i < s.len() && (#[trigger] s[i]).0 == k {
                let i = choose|i: int| 0 <= i < s.len() && (#[trigger] s[i]).0 == k;
                if i < s.len() - 1 {
                    assert(p[i].0 == k);
                }
            }
        }
        assert forall|i: int| 0 <= i < s.len() implies #[trigger] key_map(s)[s[i].0] == s[i].1 by {
            if i < s.len() - 1 {
                assert(p[i] == s[i]);
                assert(s[i].0 != s.last().0);
            }
        }
    }
}

/// Two sorted entry sequences with the same keys and values describe the
/// same map.
proof fn lemma_key_map_ext<V>(s: Seq<(u16, V)>, m: Map<u16, V>)
    requires
        sorted_keys(s),
        forall|k: u16|
            #[trigger] m.contains_key(k) <==> exists|i: int| 0 <= i < s.len() && (#[trigger] s[i]).0 == k,
        forall|i: int| 0 <= i < s.len() ==> #[trigger] m[s[i].0] == s[i].1,
    ensures
        key_map(s) == m,
{
    lemma_key_map(s);
    assert forall|k: u16| #[trigger] m.contains_key(k) implies key_map(s)[k] == m[k] by {
        let i = choose|i: int| 0 <= i < s.len() && (#[trigger] s[i]).0 == k;
    }
    assert(key_map(s) =~= m);
}

/// Index of the last entry whose key is at most `f` among the first `n`,
/// or -1.
pub open spec fn last_at_or_before<V>(s: Seq<(u16, V)>, f: u16, n: int) -> int
    decreases n,
{
    if n <= 0 {
        -1
    } else if s[n - 1].0 <= f {
        n - 1
    } else {
        last_at_or_before(s, f, n - 1)
    }
}

proof fn lemma_last_at_or_before<V>(s: Seq<(u16, V)>, f: u16, n: int)
    requires
        sorted_keys(s),
        0 <= n <= s.len(),
    ensures
        -1 <= last_at_or_before(s, f, n) < n,
        last_at_or_before(s, f, n) >= 0 ==> s[last_at_or_before(s, f, n)].0 <= f,
        forall|j: int| last_at_or_before(s, f, n) < j < n ==> (#[trigger] s[j]).0 > f,
    decreases n,
{
    if n > 0 && s[n - 1].0 > f {
        lemma_last_at_or_before(s, f, n - 1);
    }
}

/// Between two neighbouring keys `f1 < f2`, the last entry at or before any
/// frame `f` with `f1 <= f < f2` is the one at `f1`; at or after the last
/// key, it is the last entry.
pub proof fn lemma_value_between_keys<V>(s: Seq<(u16, V)>, i: int, f: u16)
    requires
        sorted_keys(s),
        0 <= i < s.len(),
        s[i].0 <= f,
        i + 1 < s.len() ==> f < s[i + 1].0,
    ensures
        last_at_or_before(s, f, s.len() as int) == i,
    decreases s.len(),
{
    lemma_steps_down(s, i, f, s.len() as int);
}

proof fn lemma_steps_down<V>(s: Seq<(u16, V)>, i: int, f: u16, n: int)
    requires
        sorted_keys(s),
        0 <= i < n <= s.len(),
        s[i].0 <= f,
        i + 1 < s.len() ==> f < s[i + 1].0,
    ensures
        last_at_or_before(s, f, n) == i,
    decreases n,
{
    if n - 1 > i {
        assert(s[n - 1].0 >= s[i + 1].0);
        lemma_steps_down(s, i, f, n - 1);
    }
}

impl<V> KeyMap<V> {
    pub open spec fn wf(&self) -> bool {
        sorted_keys(self.entries@)
    }

    /// What the map holds.
    pub open spec fn contents(&self) -> Map<u16, V> {
        key_map(self.entries@)
    }

    pub fn new() -> (r: Self)
        ensures
            r.wf(),
            r.entries@ == Seq::<(u16, V)>::empty(),
            r.contents() == Map::<u16, V>::empty(),
    {
        KeyMap { entries: Vec::new() }
    }

    /// `Ok` with the index of key `k`, or `Err` with the index at which it
    /// would be inserted.
    pub fn find(&self, k: u16) -> (r: Result<usize, usize>)
        requires
            self.wf(),
        ensures
            r matches Ok(i) ==> i < self.entries@.len() && self.entries@[i as int].0 == k,
            r matches Err(i) ==> i <= self.entries@.len() && (forall|j: int|
                0 <= j < i ==> (#[trigger] self.entries@[j]).0 < k) && (forall|j: int|
                i <= j < self.entries@.len() ==> (#[trigger] self.entries@[j]).0 > k),
            r is Ok <==> self.contents().contains_key(k),
    {
        proof {
            lemma_key_map(self.entries@);
        }
        let mut i: usize = 0;
        while i < self.entries.len()
            invariant
                self.wf(),
                i <= self.entries@.len(),
                forall|j: int| 0 <= j < i ==> (#[trigger] self.entries@[j]).0 < k,
            decreases self.entries@.len() - i,
        {
            let key = self.entries[i].0;
            if key == k {
                proof {
                    lemma_key_map(self.entries@);
                    assert(self.entries@[i as int].0 == k);
                }
                return Ok(i);
            }
            if key > k {
                proof {
                    lemma_key_map(self.entries@);
                    assert forall|j: int| i <= j < self.entries@.len() implies (#[trigger] self.entries@[j]).0 > k by {
                        if j > i {
                            assert(self.entries@[i as int].0 < self.entries@[j].0);
                        }
                    }
                }
                return Err(i);
            }
            i += 1;
        }
        proof {
            lemma_key_map(self.entries@);
        }
        Err(i)
    }

    pub fn get(&self, k: u16) -> (r: Option<&V>)
        requires
            self.wf(),
        ensures
            r matches Some(v) ==> self.contents().contains_key(k) && *v == self.contents()[k],
            r is None <==> !self.contents().contains_key(k),
    {
        proof {
            lemma_key_map(self.entries@);
        }
        match self.find(k) {
            Ok(i) => Some(&self.entries[i].1),
            Err(_) => None,
        }
    }

    /// Removes key `k`, handing back its value.
    pub fn take(&mut self, k: u16) -> (r: Option<V>)
        requires
            old(self).wf(),
        ensures
            final(self).wf(),
            final(self).contents() == old(self).contents().remove(k),
            r is Some <==> old(self).contents().contains_key(k),
            r matches Some(v) ==> v == old(self).contents()[k],
            r is None ==> *final(self) == *old(self),
    {
        proof {
            lemma_key_map(self.entries@);
        }
        let ghost s = self.entries@;
        match self.find(k) {
            Ok(i) => {
                let (_, v) = self.entries.remove(i);
                proof {
                    let t = self.entries@;
                    assert(sorted_keys(t)) by {
                        assert forall|a: int, b: int| 0 <= a < b < t.len() implies (#[trigger] t[a]).0 < (#[trigger] t[b]).0 by {
                            if a < i && b >= i {
                                assert(t[a] == s[a] && t[b] == s[b + 1]);
                            } else if a >= i {
                                assert(t[a] == s[a + 1] && t[b] == s[b + 1]);
                            } else {
                                assert(t[a] == s[a] && t[b] == s[b]);
                            }
                        }
                    }
                    let m = key_map(s).remove(k);
                    assert forall|k2: u16| #[trigger] m.contains_key(k2) <==> exists|j: int|
                        0 <= j < t.len() && (#[trigger] t[j]).0 == k2 by {
                        if m.contains_key(k2) {
                            let j = choose|j: int| 0 <= j < s.len() && (#[trigger] s[j]).0 == k2;
                            if j < i {
                                assert(t[j].0 == k2);
                            } else {
                                assert(j != i);
                                assert(t[j - 1].0 == k2);
                            }
                        } else if exists|j: int| 0 <= j < t.len() && (#[trigger] t[j]).0 == k2 {
                            let j = choose|j: int| 0 <= j < t.len() && (#[trigger] t[j]).0 == k2;
                            if j < i {
                                assert(s[j].0 == k2);
                                assert(s[j].0 < s[i as int].0);
                            } else {
                                assert(s[j + 1].0 == k2);
                                assert(s[j + 1].0 > s[i as int].0);
                            }
                        }
                    }
                    assert forall|j: int| 0 <= j < t.len() implies #[trigger] m[t[j].0] == t[j].1 by {
                        if j < i {
                            assert(t[j] == s[j]);
                            assert(key_map(s)[s[j].0] == s[j].1);
                            assert(s[j].0 < s[i as int].0);
                        } else {
                            assert(t[j] == s[j + 1]);
                            assert(key_map(s)[s[j + 1].0] == s[j + 1].1);
                            assert(s[j + 1].0 > s[i as int].0);
                        }
                    }
                    lemma_key_map_ext(t, m);
                }
                Some(v)
            },
            Err(_) => {
                proof {
                    assert(key_map(s).remove(k) =~= key_map(s));
                }
                None
            },
        }
    }

    /// Index of the last entry whose key is at most `f`.
    pub fn last_at_or_before(&self, f: u16) -> (r: Option<usize>)
        requires
            self.wf(),
        ensures
            r matches Some(i) ==> i < self.entries@.len() && i as int == last_at_or_before(
                self.entries@,
                f,
                self.entries@.len() as int,
            ),
            r is None ==> last_at_or_before(self.entries@, f, self.entries@.len() as int) == -1,
    {
        let mut n = self.entries.len();
        while n > 0
            invariant
                n <= self.entries@.len(),
                last_at_or_before(self.entries@, f, self.entries@.len() as int) == last_at_or_before(self.entries@, f, n as int),
            decreases n,
        {
            if self.entries[n - 1].0 <= f {
                return Some(n - 1);
            }
            n -= 1;
        }
        None
    }

    /// Binds `k` to `v`, replacing any earlier value.
    pub fn insert(&mut self, k: u16, v: V)
        requires
            old(self).wf(),
        ensures
            final(self).wf(),
            final(self).contents() == old(self).contents().insert(k, v),
    {
        proof {
            lemma_key_map(self.entries@);
        }
        let ghost s = self.entries@;
        match self.find(k) {
            Ok(i) => {
                self.entries.set(i, (k, v));
                proof {
                    let t = self.entries@;
                    assert(sorted_keys(t)) by {
                        assert forall|a: int, b: int| 0 <= a < b < t.len() implies (#[trigger] t[a]).0 < (#[trigger] t[b]).0 by {
                            assert(s[a].0 == t[a].0 && s[b].0 == t[b].0);
                        }
                    }
                    let m = key_map(s).insert(k, v);
                    assert forall|k2: u16| #[trigger] m.contains_key(k2) <==> exists|j: int|
                        0 <= j < t.len() && (#[trigger] t[j]).0 == k2 by {
                        if k2 == k {
                            assert(t[i as int].0 == k);
                        } else if m.contains_key(k2) {
                            let j = choose|j: int| 0 <= j < s.len() && (#[trigger] s[j]).0 == k2;
                            assert(t[j].0 == k2);
                        } else if exists|j: int| 0 <= j < t.len() && (#[trigger] t[j]).0 == k2 {
                            let j = choose|j: int| 0 <= j < t.len() && (#[trigger] t[j]).0 == k2;
                            assert(s[j].0 == k2);
                        }
                    }
                    assert forall|j: int| 0 <= j < t.len() implies #[trigger] m[t[j].0] == t[j].1 by {
                        if j != i {
                            assert(t[j] == s[j]);
                            assert(key_map(s)[s[j].0] == s[j].1);
                        }
                    }
                    lemma_key_map_ext(t, m);
                }
            },
            Err(i) => {
                self.entries.insert(i, (k, v));
                proof {
                    let t = self.entries@;
                    assert(sorted_keys(t)) by {
                        assert forall|a: int, b: int| 0 <= a < b < t.len() implies (#[trigger] t[a]).0 < (#[trigger] t[b]).0 by {
                            if a < i && b > i {
                                assert(t[a] == s[a] && t[b] == s[b - 1]);
                            } else if a > i {
                                assert(t[a] == s[a - 1] && t[b] == s[b - 1]);
                            } else if b < i {
                                assert(t[a] == s[a] && t[b] == s[b]);
                            } else if a == i {
                                assert(t[b] == s[b - 1]);
                            } else {
                                assert(t[a] == s[a]);
                            }
                        }
                    }
                    let m = key_map(s).insert(k, v);
                    assert forall|k2: u16| #[trigger] m.contains_key(k2) <==> exists|j: int|
                        0 <= j < t.len() && (#[trigger] t[j]).0 == k2 by {
                        if k2 == k {
                            assert(t[i as int].0 == k);
                        } else if m.contains_key(k2) {
                            let j = choose|j: int| 0 <= j < s.len() && (#[trigger] s[j]).0 == k2;
                            if j < i {
                                assert(t[j].0 == k2);
                            } else {
                                assert(t[j + 1].0 == k2);
                            }
                        } else if exists|j: int| 0 <= j < t.len() && (#[trigger] t[j]).0 == k2 {
                            let j = choose|j: int| 0 <= j < t.len() && (#[trigger] t[j]).0 == k2;
                            if j < i {
                                assert(s[j].0 == k2);
                            } else {
                                assert(s[j - 1].0 == k2);
                            }
                        }
                    }
                    assert forall|j: int| 0 <= j < t.len() implies #[trigger] m[t[j].0] == t[j].1 by {
                        if j < i {
                            assert(t[j] == s[j]);
                            assert(key_map(s)[s[j].0] == s[j].1);
                        } else if j > i {
                            assert(t[j] == s[j - 1]);
                            assert(key_map(s)[s[j - 1].0] == s[j - 1].1);
                        }
                    }
                    lemma_key_map_ext(t, m);
                }
            },
        }
    }
}

} // verus!
