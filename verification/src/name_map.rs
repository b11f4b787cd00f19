//! A map from names to values, kept as a list of entries in insertion order.
use vstd::prelude::*;

verus! {

/// Index of the last entry of `s` whose name is `k`, or -1 when none is.
pub open spec fn last_index<V>(s: Seq<(String, V)>, k: Seq<char>) -> int
    decreases s.len(),
{
    if s.len() == 0 {
        -1
    } else if s.last().0@ == k {
        s.len() - 1
    } else {
        last_index(s.drop_last(), k)
    }
}

/// The map that a list of entries stands for: a name is bound to the value of its
/// last entry.
pub open spec fn map_of<V>(s: Seq<(String, V)>) -> Map<Seq<char>, V> {
    Map::new(|k: Seq<char>| last_index(s, k) >= 0, |k: Seq<char>| s[last_index(s, k)].1)
}

/// `last_index` points at an entry with the name, and no later entry has it.
pub proof fn lemma_last_index<V>(s: Seq<(String, V)>, k: Seq<char>)
    ensures
        -1 <= last_index(s, k) < s.len(),
        last_index(s, k) >= 0 ==> s[last_index(s, k)].0@ == k,
        forall|j: int| last_index(s, k) < j < s.len() ==> s[j].0@ != k,
    decreases s.len(),
{
    if s.len() > 0 && s.last().0@ != k {
        lemma_last_index(s.drop_last(), k);
        assert forall|j: int| last_index(s, k) < j < s.len() implies s[j].0@ != k by {
            if j < s.len() - 1 {
                assert(s[j] == s.drop_last()[j]);
            }
        }
    }
}

/// The last entry named `k` is the one at `j` when no later entry is named `k`.
pub proof fn lemma_last_index_at<V>(s: Seq<(String, V)>, k: Seq<char>, j: int)
    requires
        -1 <= j < s.len(),
        j >= 0 ==> s[j].0@ == k,
        forall|m: int| j < m < s.len() ==> s[m].0@ != k,
    ensures
        last_index(s, k) == j,
    decreases s.len(),
{
    if s.len() > 0 && j < s.len() - 1 {
        lemma_last_index_at(s.drop_last(), k, j);
    }
}

/// Entries with the same names at the same places have the same last indices.
pub proof fn lemma_same_names<V>(s: Seq<(String, V)>, t: Seq<(String, V)>)
    requires
        s.len() == t.len(),
        forall|j: int| 0 <= j < s.len() ==> s[j].0@ == t[j].0@,
    ensures
        forall|k: Seq<char>| last_index(s, k) == last_index(t, k),
{
    assert forall|k: Seq<char>| last_index(s, k) == last_index(t, k) by {
        lemma_last_index(s, k);
        lemma_last_index_at(t, k, last_index(s, k));
    }
}

/// In entries with distinct names, each entry is the last one with its name.
pub proof fn lemma_distinct_last_index<V>(s: Seq<(String, V)>)
    requires
        distinct_names(s),
    ensures
        forall|i: int| 0 <= i < s.len() ==> #[trigger] last_index(s, s[i].0@) == i,
{
    assert forall|i: int| 0 <= i < s.len() implies #[trigger] last_index(s, s[i].0@) == i by {
        lemma_last_index_at(s, s[i].0@, i);
    }
}

/// A map from names to values.
#[derive(Debug)]
pub struct NameMap<V> {
    entries: Vec<(String, V)>,
}

impl<V> View for NameMap<V> {
    type V = Map<Seq<char>, V>;

    open spec fn view(&self) -> Map<Seq<char>, V> {
        map_of(self.pairs())
    }
}

/// No two entries of `s` have the same name.
pub open spec fn distinct_names<V>(s: Seq<(String, V)>) -> bool {
    forall|i: int, j: int| 0 <= i < j < s.len() ==> s[i].0@ != s[j].0@
}

impl<V> NameMap<V> {
    /// The entries, in the order in which their names were first inserted.
    pub closed spec fn pairs(&self) -> Seq<(String, V)> {
        self.entries@
    }

    /// Each name has one entry.
    #[verifier::type_invariant]
    pub open spec fn names_distinct(&self) -> bool {
        distinct_names(self.pairs())
    }

    /// An empty map.
    pub fn new() -> (m: Self)
        ensures
            m.pairs() == Seq::<(String, V)>::empty(),
            m@ == Map::<Seq<char>, V>::empty(),
    {
        let m = NameMap { entries: Vec::new() };
        assert(m@ =~= Map::<Seq<char>, V>::empty());
        m
    }

    /// Number of entries.
    pub fn len(&self) -> (n: usize)
        ensures
            n == self.pairs().len(),
    {
        self.entries.len()
    }

    /// Name of the entry at `i`.
    pub fn key_at(&self, i: usize) -> (k: &String)
        requires
            i < self.pairs().len(),
        ensures
            *k == self.pairs()[i as int].0,
    {
        &self.entries[i].0
    }

    /// Value of the entry at `i`.
    pub fn value_at(&self, i: usize) -> (v: &V)
        requires
            i < self.pairs().len(),
        ensures
            *v == self.pairs()[i as int].1,
    {
        &self.entries[i].1
    }

    /// Position of the entry that binds `k`.
    pub fn find(&self, k: &str) -> (r: Option<usize>)
        ensures
            match r {
                Some(i) => i < self.pairs().len() && i == last_index(self.pairs(), k@)
                    && self.pairs()[i as int].0@ == k@ && self@.contains_key(k@)
                    && self@[k@] == self.pairs()[i as int].1,
                None => last_index(self.pairs(), k@) == -1 && !self@.contains_key(k@),
            },
    {
        let key = k.to_owned();
        let mut j = self.entries.len();
        while j > 0
            invariant
                j <= self.entries@.len(),
                key@ == k@,
                forall|m: int| j <= m < self.entries@.len() ==> self.entries@[m].0@ != k@,
            decreases j,
        {
            if self.entries[j - 1].0 == key {
                proof {
                    lemma_last_index_at(self.entries@, k@, j - 1);
                    lemma_last_index(self.entries@, k@);
                }
                return Some(j - 1);
            }
            j = j - 1;
        }
        proof {
            lemma_last_index(self.entries@, k@);
        }
        None
    }

    /// Whether `k` is bound.
    pub fn contains_key(&self, k: &str) -> (b: bool)
        ensures
            b == self@.contains_key(k@),
    {
        self.find(k).is_some()
    }

    /// The value bound to `k`.
    pub fn get(&self, k: &str) -> (r: Option<&V>)
        ensures
            match r {
                Some(v) => self@.contains_key(k@) && *v == self@[k@],
                None => !self@.contains_key(k@),
            },
    {
        match self.find(k) {
            Some(i) => Some(&self.entries[i].1),
            None => None,
        }
    }

    /// Puts `v` in place of the value of the entry at `i` and gives back the value
    /// that was there.
    pub fn replace_at(&mut self, i: usize, v: V) -> (old_v: V)
        requires
            i < old(self).pairs().len(),
        ensures
            old_v == old(self).pairs()[i as int].1,
            final(self).pairs() == old(self).pairs().update(
                i as int,
                (old(self).pairs()[i as int].0, v),
            ),
            forall|k: Seq<char>| last_index(final(self).pairs(), k) == last_index(old(self).pairs(), k),
            i == last_index(old(self).pairs(), old(self).pairs()[i as int].0@) ==> final(self)@
                == old(self)@.insert(old(self).pairs()[i as int].0@, v),
    {
        proof {
            use_type_invariant(&*self);
        }
        let ghost s = self.entries@;
        let mut entries: Vec<(String, V)> = Vec::new();
        std::mem::swap(&mut entries, &mut self.entries);
        let key = entries[i].0.clone();
        entries.push((key, v));
        let (_, old_v) = entries.swap_remove(i);
        proof {
            let t = entries@;
            assert(t =~= s.update(i as int, (s[i as int].0, v)));
            assert forall|a: int, b: int| 0 <= a < b < t.len() implies t[a].0@ != t[b].0@ by {
                assert(t[a].0@ == s[a].0@ && t[b].0@ == s[b].0@);
            }
        }
        self.entries = entries;
        proof {
            let t = self.entries@;
            let k = s[i as int].0@;
            assert(t =~= s.update(i as int, (s[i as int].0, v)));
            lemma_same_names(s, t);
            if i == last_index(s, k) {
                assert forall|x: Seq<char>| #[trigger] map_of(t).contains_key(x) && x != k
                    implies map_of(t)[x] == map_of(s)[x] by {
                    lemma_last_index(s, x);
                }
                assert(self@ =~= map_of(s).insert(k, v));
            }
        }
        old_v
    }

    /// Binds `k` to `v`, in place of any earlier binding of `k`.
    pub fn insert(&mut self, k: String, v: V)
        ensures
            final(self)@ == old(self)@.insert(k@, v),
    {
        match self.find(k.as_str()) {
            Some(i) => {
                proof {
                    lemma_last_index(self.entries@, k@);
                }
                let _ = self.replace_at(i, v);
            },
            None => {
                proof {
                    use_type_invariant(&*self);
                    lemma_last_index(self.entries@, k@);
                }
                let ghost s = self.entries@;
                let ghost kv = k@;
                let mut entries: Vec<(String, V)> = Vec::new();
                std::mem::swap(&mut entries, &mut self.entries);
                entries.push((k, v));
                proof {
                    let t = entries@;
                    assert forall|a: int, b: int| 0 <= a < b < t.len() implies t[a].0@ != t[b].0@ by {
                        if b == s.len() {
                            assert(s[a].0@ != kv);
                        } else {
                            assert(t[a] == s[a] && t[b] == s[b]);
                        }
                    }
                }
                self.entries = entries;
                proof {
                    let t = self.entries@;
                    assert(t.drop_last() =~= s);
                    assert forall|x: Seq<char>| x != kv implies last_index(t, x) == last_index(
                        s,
                        x,
                    ) && (last_index(s, x) >= 0 ==> t[last_index(s, x)] == s[last_index(s, x)]) by {
                        lemma_last_index(s, x);
                    }
                    assert(last_index(t, kv) == s.len());
                    assert(self@ =~= map_of(s).insert(kv, v));
                }
            },
        }
    }
}

} // verus!
