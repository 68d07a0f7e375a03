//! A map keyed by strings, kept as an association list with distinct keys; entries
//! stay in the order in which their keys were first inserted.
use vstd::prelude::*;
use crate::text::{chars_of, chars_eq};

verus! {

/// The map that an association list with distinct keys stands for.
pub open spec fn assoc_map<V>(s: Seq<(String, V)>) -> Map<Seq<char>, V> {
    Map::new(
        |k: Seq<char>| exists|i: int| 0 <= i < s.len() && #[trigger] s[i].0@ == k,
        |k: Seq<char>| s[choose|i: int| 0 <= i < s.len() && #[trigger] s[i].0@ == k].1,
    )
}

/// No key occurs twice.
pub open spec fn distinct_keys<V>(s: Seq<(String, V)>) -> bool {
    forall|i: int, j: int| 0 <= i < s.len() && 0 <= j < s.len() && i != j ==> #[trigger] s[i].0@
        != #[trigger] s[j].0@
}

/// The keys of an association list, in order.
pub open spec fn assoc_keys<V>(s: Seq<(String, V)>) -> Seq<Seq<char>> {
    Seq::new(s.len(), |i: int| s[i].0@)
}

/// In a list with distinct keys, the map sends the key at `i` to the value at `i`.
pub proof fn lemma_assoc_at<V>(s: Seq<(String, V)>, i: int)
    requires
        distinct_keys(s),
        0 <= i < s.len(),
    ensures
        assoc_map(s).contains_key(s[i].0@),
        assoc_map(s)[s[i].0@] == s[i].1,
{
    let k = s[i].0@;
    assert(exists|j: int| 0 <= j < s.len() && #[trigger] s[j].0@ == k);
    let c = choose|j: int| 0 <= j < s.len() && #[trigger] s[j].0@ == k;
    assert(c == i);
}

/// The value of the first entry from `i` on with key `k`.
pub open spec fn first_value<V>(s: Seq<(String, V)>, k: Seq<char>, i: nat) -> Option<V>
    decreases s.len() - i,
{
    if i >= s.len() {
        None
    } else if s[i as int].0@ == k {
        Some(s[i as int].1)
    } else {
        first_value(s, k, i + 1)
    }
}

/// A string-keyed map.
#[derive(Debug, Clone)]
pub struct StrMap<V> {
    entries: Vec<(String, V)>,
}

impl<V> StrMap<V> {
    /// The entries, in insertion order.
    pub closed spec fn entries_view(&self) -> Seq<(String, V)> {
        self.entries@
    }

    /// The map the entries stand for.
    pub open spec fn view(&self) -> Map<Seq<char>, V> {
        assoc_map(self.entries_view())
    }

    /// The keys, in insertion order.
    pub open spec fn keys_view(&self) -> Seq<Seq<char>> {
        assoc_keys(self.entries_view())
    }

    /// Keys are distinct.
    pub open spec fn wf(&self) -> bool {
        distinct_keys(self.entries_view())
    }

    /// An empty map.
    pub fn new() -> (m: Self)
        ensures
            m.wf(),
            m.view() == Map::<Seq<char>, V>::empty(),
            m.entries_view().len() == 0,
    {
        let m = StrMap { entries: Vec::new() };
        assert(m.view() =~= Map::<Seq<char>, V>::empty());
        m
    }

    /// Position of a key.
    fn position(&self, key: &str) -> (r: Option<usize>)
        requires
            self.wf(),
        ensures
            match r {
                Some(i) => i < self.entries_view().len() && self.entries_view()[i as int].0@ == key@,
                None => !self.view().contains_key(key@),
            },
    {
        let k = chars_of(key);
        let mut i: usize = 0;
        while i < self.entries.len()
            invariant
                i <= self.entries@.len(),
                k@ == key@,
                forall|j: int| 0 <= j < i ==> #[trigger] self.entries@[j].0@ != key@,
            decreases self.entries.len() - i,
        {
            let e = chars_of(self.entries[i].0.as_str());
            if chars_eq(&e, &k) {
                return Some(i);
            }
            i = i + 1;
        }
        None
    }

    /// The value of `key`, if any.
    pub fn get(&self, key: &str) -> (r: Option<&V>)
        requires
            self.wf(),
        ensures
            match r {
                Some(v) => self.view().contains_key(key@) && self.view()[key@] == *v,
                None => !self.view().contains_key(key@),
            },
    {
        match self.position(key) {
            Some(i) => {
                proof {
                    lemma_assoc_at(self.entries@, i as int);
                }
                Some(&self.entries[i].1)
            },
            None => None,
        }
    }

    /// The value of the first entry with key `key`, if any; for a map with distinct
    /// keys it is the value of `key`.
    pub fn get_first(&self, key: &str) -> (r: Option<&V>)
        ensures
            match first_value(self.entries_view(), key@, 0) {
                Some(v) => r matches Some(x) && *x == v,
                None => r is None,
            },
    {
        let k = chars_of(key);
        let mut i: usize = 0;
        while i < self.entries.len()
            invariant
                i <= self.entries@.len(),
                k@ == key@,
                first_value(self.entries@, key@, i as nat) == first_value(self.entries@, key@, 0),
            decreases self.entries.len() - i,
        {
            let e = chars_of(self.entries[i].0.as_str());
            if chars_eq(&e, &k) {
                return Some(&self.entries[i].1);
            }
            i = i + 1;
        }
        None
    }

    /// Whether `key` has a value.
    pub fn contains_key(&self, key: &str) -> (b: bool)
        requires
            self.wf(),
        ensures
            b == self.view().contains_key(key@),
    {
        match self.position(key) {
            Some(i) => {
                proof {
                    lemma_assoc_at(self.entries@, i as int);
                }
                true
            },
            None => false,
        }
    }

    /// Sets `key` to `value`; a new key goes after the existing ones.
    pub fn insert(&mut self, key: String, value: V)
        requires
            old(self).wf(),
        ensures
            final(self).wf(),
            final(self).view() == old(self).view().insert(key@, value),
            old(self).view().contains_key(key@) ==> final(self).keys_view() == old(self).keys_view(),
            !old(self).view().contains_key(key@) ==> final(self).keys_view() == old(self).keys_view().push(key@),
    {
        let ghost old_s = self.entries@;
        let ghost k = key@;
        match self.position(key.as_str()) {
            Some(i) => {
                self.entries.set(i, (key, value));
                proof {
                    let s = self.entries@;
                    assert(s == old_s.update(i as int, (s[i as int].0, value)));
                    assert(distinct_keys(s)) by {
                        assert forall|a: int, b: int| 0 <= a < s.len() && 0 <= b < s.len() && a != b
                            implies #[trigger] s[a].0@ != #[trigger] s[b].0@ by {
                            assert(old_s[a].0@ != old_s[b].0@);
                        }
                    }
                    lemma_assoc_at(s, i as int);
                    assert forall|kk: Seq<char>| #![auto] assoc_map(s).contains_key(kk)
                        == assoc_map(old_s).insert(k, value).contains_key(kk) by {
                        if kk != k {
                            if assoc_map(s).contains_key(kk) {
                                let j = choose|j: int| 0 <= j < s.len() && #[trigger] s[j].0@ == kk;
                                assert(old_s[j].0@ == kk);
                            }
                            if assoc_map(old_s).contains_key(kk) {
                                let j = choose|j: int| 0 <= j < old_s.len() && #[trigger] old_s[j].0@ == kk;
                                assert(s[j].0@ == kk);
                            }
                        }
                    }
                    assert forall|kk: Seq<char>| #[trigger] assoc_map(s).contains_key(kk) && kk != k
                        implies assoc_map(s)[kk] == assoc_map(old_s)[kk] by {
                        let j = choose|j: int| 0 <= j < s.len() && #[trigger] s[j].0@ == kk;
                        lemma_assoc_at(s, j);
                        assert(old_s[j] == s[j]);
                        lemma_assoc_at(old_s, j);
                    }
                    assert(assoc_map(s) =~= assoc_map(old_s).insert(k, value));
                    assert(assoc_keys(s) =~= assoc_keys(old_s));
                }
            },
            None => {
                self.entries.push((key, value));
                proof {
                    let s = self.entries@;
                    let n = old_s.len() as int;
                    assert(s == old_s.push((s[n].0, value)));
                    assert(distinct_keys(s)) by {
                        assert forall|a: int, b: int| 0 <= a < s.len() && 0 <= b < s.len() && a != b
                            implies #[trigger] s[a].0@ != #[trigger] s[b].0@ by {
                            if a < n && b < n {
                                assert(old_s[a].0@ != old_s[b].0@);
                            } else if a < n {
                                assert(!assoc_map(old_s).contains_key(k));
                                assert(s[a] == old_s[a]);
                            } else {
                                assert(!assoc_map(old_s).contains_key(k));
                                assert(s[b] == old_s[b]);
                            }
                        }
                    }
                    lemma_assoc_at(s, n);
                    assert forall|kk: Seq<char>| #![auto] assoc_map(s).contains_key(kk)
                        == assoc_map(old_s).insert(k, value).contains_key(kk) by {
                        if kk != k {
                            if assoc_map(s).contains_key(kk) {
                                let j = choose|j: int| 0 <= j < s.len() && #[trigger] s[j].0@ == kk;
                                assert(j < n);
                                assert(old_s[j].0@ == kk);
                            }
                            if assoc_map(old_s).contains_key(kk) {
                                let j = choose|j: int| 0 <= j < old_s.len() && #[trigger] old_s[j].0@ == kk;
                                assert(s[j].0@ == kk);
                            }
                        }
                    }
                    assert forall|kk: Seq<char>| #[trigger] assoc_map(s).contains_key(kk) && kk != k
                        implies assoc_map(s)[kk] == assoc_map(old_s)[kk] by {
                        let j = choose|j: int| 0 <= j < s.len() && #[trigger] s[j].0@ == kk;
                        lemma_assoc_at(s, j);
                        assert(j < n);
                        assert(old_s[j] == s[j]);
                        lemma_assoc_at(old_s, j);
                    }
                    assert(assoc_map(s) =~= assoc_map(old_s).insert(k, value));
                    assert(assoc_keys(s) =~= assoc_keys(old_s).push(k));
                }
            },
        }
    }

    /// Removes `key`, returning its value.
    pub fn remove(&mut self, key: &str) -> (r: Option<V>)
        requires
            old(self).wf(),
        ensures
            final(self).wf(),
            final(self).view() == old(self).view().remove(key@),
            match r {
                Some(v) => old(self).view().contains_key(key@) && old(self).view()[key@] == v,
                None => !old(self).view().contains_key(key@),
            },
    {
        let ghost old_s = self.entries@;
        let ghost k = key@;
        match self.position(key) {
            Some(i) => {
                proof {
                    lemma_assoc_at(old_s, i as int);
                }
                let (_, v) = self.entries.remove(i);
                proof {
                    let s = self.entries@;
                    assert(s == old_s.remove(i as int));
                    assert(distinct_keys(s)) by {
                        assert forall|a: int, b: int| 0 <= a < s.len() && 0 <= b < s.len() && a != b
                            implies #[trigger] s[a].0@ != #[trigger] s[b].0@ by {
                            let a2 = if a < i { a } else { a + 1 };
                            let b2 = if b < i { b } else { b + 1 };
                            assert(s[a] == old_s[a2]);
                            assert(s[b] == old_s[b2]);
                        }
                    }
                    assert forall|kk: Seq<char>| #![auto] assoc_map(s).contains_key(kk)
                        == assoc_map(old_s).remove(k).contains_key(kk) by {
                        if assoc_map(s).contains_key(kk) {
                            let j = choose|j: int| 0 <= j < s.len() && #[trigger] s[j].0@ == kk;
                            let j2 = if j < i { j } else { j + 1 };
                            assert(s[j] == old_s[j2]);
                            assert(old_s[j2].0@ == kk);
                            assert(j2 != i);
                        }
                        if assoc_map(old_s).contains_key(kk) && kk != k {
                            let j = choose|j: int| 0 <= j < old_s.len() && #[trigger] old_s[j].0@ == kk;
                            assert(j != i);
                            let j2 = if j < i { j } else { j - 1 };
                            assert(s[j2] == old_s[j]);
                        }
                    }
                    assert forall|kk: Seq<char>| #[trigger] assoc_map(s).contains_key(kk)
                        implies assoc_map(s)[kk] == assoc_map(old_s)[kk] by {
                        let j = choose|j: int| 0 <= j < s.len() && #[trigger] s[j].0@ == kk;
                        lemma_assoc_at(s, j);
                        let j2 = if j < i { j } else { j + 1 };
                        assert(s[j] == old_s[j2]);
                        lemma_assoc_at(old_s, j2);
                    }
                    assert(assoc_map(s) =~= assoc_map(old_s).remove(k));
                }
                Some(v)
            },
            None => {
                assert(assoc_map(old_s) =~= assoc_map(old_s).remove(k));
                None
            },
        }
    }

    /// Number of entries.
    pub fn len(&self) -> (n: usize)
        ensures
            n == self.entries_view().len(),
    {
        self.entries.len()
    }

    /// The entries, in insertion order.
    pub fn entries(&self) -> (r: &Vec<(String, V)>)
        ensures
            r@ == self.entries_view(),
    {
        &self.entries
    }

    /// The keys, in insertion order.
    pub fn keys(&self) -> (r: Vec<String>)
        ensures
            r@.len() == self.keys_view().len(),
            forall|i: int| 0 <= i < r@.len() ==> #[trigger] r@[i]@ == self.keys_view()[i],
    {
        let mut r: Vec<String> = Vec::new();
        let mut i: usize = 0;
        while i < self.entries.len()
            invariant
                i <= self.entries@.len(),
                r@.len() == i,
                forall|j: int| 0 <= j < i ==> #[trigger] r@[j]@ == self.entries@[j].0@,
            decreases self.entries.len() - i,
        {
            let k = self.entries[i].0.clone();
            r.push(k);
            i = i + 1;
        }
        r
    }
}

/// In a map with distinct keys, the number of entries is the size of the domain.
pub proof fn lemma_assoc_dom_len<V>(s: Seq<(String, V)>)
    requires
        distinct_keys(s),
    ensures
        assoc_map(s).dom().finite(),
        assoc_map(s).dom().len() == s.len(),
    decreases s.len(),
{
    if s.len() == 0 {
        assert(assoc_map(s).dom() =~= Set::<Seq<char>>::empty());
    } else {
        let t = s.drop_last();
        assert(distinct_keys(t)) by {
            assert forall|a: int, b: int| 0 <= a < t.len() && 0 <= b < t.len() && a != b
                implies #[trigger] t[a].0@ != #[trigger] t[b].0@ by {
                assert(s[a].0@ != s[b].0@);
            }
        }
        lemma_assoc_dom_len(t);
        let k = s.last().0@;
        assert(assoc_map(s).dom() =~= assoc_map(t).dom().insert(k)) by {
            assert forall|kk: Seq<char>| #[trigger] assoc_map(s).dom().contains(kk) implies assoc_map(t).dom().insert(k).contains(kk) by {
                let j = choose|j: int| 0 <= j < s.len() && #[trigger] s[j].0@ == kk;
                if j < t.len() {
                    assert(t[j].0@ == kk);
                }
            }
            assert forall|kk: Seq<char>| #[trigger] assoc_map(t).dom().contains(kk) implies assoc_map(s).dom().contains(kk) by {
                let j = choose|j: int| 0 <= j < t.len() && #[trigger] t[j].0@ == kk;
                assert(s[j].0@ == kk);
            }
            assert(s[s.len() - 1].0@ == k);
        }
        assert(!assoc_map(t).dom().contains(k)) by {
            if assoc_map(t).dom().contains(k) {
                let j = choose|j: int| 0 <= j < t.len() && #[trigger] t[j].0@ == k;
                assert(s[j].0@ != s[s.len() - 1].0@);
            }
        }
    }
}

} // verus!
