//! Name-keyed association maps with a mathematical `Map` view.
//!
//! Entries are kept in insertion order, which gives the serializer a
//! deterministic walk; the `Map` view is what most contracts speak of.
use vstd::prelude::*;

verus! {

/// The mathematical map denoted by a sequence of (key, value) entries;
/// a later entry wins over an earlier one with the same key.
pub open spec fn assoc_map<T>(s: Seq<(Seq<char>, T)>) -> Map<Seq<char>, T>
    decreases s.len(),
{
    if s.len() == 0 {
        Map::empty()
    } else {
        assoc_map(s.drop_last()).insert(s.last().0, s.last().1)
    }
}

/// Entry keys are pairwise distinct.
pub open spec fn distinct_keys<T>(s: Seq<(Seq<char>, T)>) -> bool {
    forall|i: int, j: int| 0 <= i < j < s.len() ==> s[i].0 != s[j].0
}

/// A key is in the map exactly when some entry carries it.
pub proof fn lemma_assoc_map_contains<T>(s: Seq<(Seq<char>, T)>, k: Seq<char>)
    ensures
        assoc_map(s).contains_key(k) <==> exists|i: int| 0 <= i < s.len() && s[i].0 == k,
    decreases s.len(),
{
    if s.len() > 0 {
        lemma_assoc_map_contains(s.drop_last(), k);
        if s.last().0 == k {
            assert(s[s.len() - 1].0 == k);
        } else {
            if assoc_map(s).contains_key(k) {
                let i = choose|i: int| 0 <= i < s.drop_last().len() && s.drop_last()[i].0 == k;
                assert(s[i].0 == k);
            }
            if exists|i: int| 0 <= i < s.len() && s[i].0 == k {
                let i = choose|i: int| 0 <= i < s.len() && s[i].0 == k;
                assert(s.drop_last()[i].0 == k);
            }
        }
    }
}

/// With distinct keys, each entry gives the value of its key.
pub proof fn lemma_assoc_map_index<T>(s: Seq<(Seq<char>, T)>, i: int)
    requires
        distinct_keys(s),
        0 <= i < s.len(),
    ensures
        assoc_map(s).contains_key(s[i].0),
        assoc_map(s)[s[i].0] == s[i].1,
    decreases s.len(),
{
    if i + 1 == s.len() {
    } else {
        assert(s.drop_last()[i] == s[i]);
        lemma_assoc_map_index(s.drop_last(), i);
        assert(s.last().0 != s[i].0);
    }
}

/// Appending a fresh entry inserts its pair into the map.
pub proof fn lemma_assoc_map_push<T>(s: Seq<(Seq<char>, T)>, k: Seq<char>, v: T)
    ensures
        assoc_map(s.push((k, v))) == assoc_map(s).insert(k, v),
{
    assert(s.push((k, v)).drop_last() =~= s);
}

/// Overwriting the entry that holds a key updates that key in the map.
pub proof fn lemma_assoc_map_update<T>(s: Seq<(Seq<char>, T)>, i: int, k: Seq<char>, v: T)
    requires
        distinct_keys(s),
        0 <= i < s.len(),
        s[i].0 == k,
    ensures
        assoc_map(s.update(i, (k, v))) =~= assoc_map(s).insert(k, v),
        distinct_keys(s.update(i, (k, v))),
    decreases s.len(),
{
    let t = s.update(i, (k, v));
    if i + 1 == s.len() {
        assert(t.drop_last() =~= s.drop_last());
    } else {
        assert(t.drop_last() =~= s.drop_last().update(i, (k, v)));
        lemma_assoc_map_update(s.drop_last(), i, k, v);
        assert(s.last().0 != k);
        assert(t.last() == s.last());
    }
}

/// Removing the entry that holds a key removes that key from the map.
pub proof fn lemma_assoc_map_remove<T>(s: Seq<(Seq<char>, T)>, i: int)
    requires
        distinct_keys(s),
        0 <= i < s.len(),
    ensures
        assoc_map(s.remove(i)) =~= assoc_map(s).remove(s[i].0),
        distinct_keys(s.remove(i)),
    decreases s.len(),
{
    let t = s.remove(i);
    if i + 1 == s.len() {
        assert(t =~= s.drop_last());
        lemma_assoc_map_contains(t, s[i].0);
        assert(assoc_map(t).remove(s[i].0) =~= assoc_map(t));
    } else {
        assert(t.drop_last() =~= s.drop_last().remove(i));
        lemma_assoc_map_remove(s.drop_last(), i);
        assert(t.last() == s.last());
        assert(s.last().0 != s[i].0);
    }
}

/// Whether a key occurs among the first `n` entries, one at a time.
pub open spec fn key_in_upto<T>(s: Seq<(Seq<char>, T)>, k: Seq<char>, n: int) -> bool
    decreases n,
{
    if n <= 0 {
        false
    } else {
        s[n - 1].0 == k || key_in_upto(s, k, n - 1)
    }
}

/// No key among the first `n` entries occurs twice, one at a time; a
/// fueled unfolding can evaluate this on a literal entry list.
pub open spec fn no_dup_upto<T>(s: Seq<(Seq<char>, T)>, n: int) -> bool
    decreases n,
{
    if n <= 1 {
        true
    } else {
        !key_in_upto(s, s[n - 1].0, n - 1) && no_dup_upto(s, n - 1)
    }
}

/// The one-at-a-time form means pairwise distinct keys.
pub proof fn lemma_no_dup_distinct<T>(s: Seq<(Seq<char>, T)>)
    requires
        no_dup_upto(s, s.len() as int),
    ensures
        distinct_keys(s),
{
    assert forall|i: int, j: int| 0 <= i < j < s.len() implies s[i].0 != s[j].0 by {
        lemma_no_dup_pair(s, i, j, s.len() as int);
    }
}

/// Any two positions below `n` carry different keys.
proof fn lemma_no_dup_pair<T>(s: Seq<(Seq<char>, T)>, i: int, j: int, n: int)
    requires
        0 <= i < j < n <= s.len(),
        no_dup_upto(s, n),
    ensures
        s[i].0 != s[j].0,
    decreases n,
{
    if j == n - 1 {
        lemma_key_in_upto(s, i, n - 1);
    } else {
        lemma_no_dup_pair(s, i, j, n - 1);
    }
}

/// A position's key occurs among the first `n` entries it sits below.
proof fn lemma_key_in_upto<T>(s: Seq<(Seq<char>, T)>, i: int, n: int)
    requires
        0 <= i < n <= s.len(),
    ensures
        key_in_upto(s, s[i].0, n),
    decreases n,
{
    if i < n - 1 {
        lemma_key_in_upto(s, i, n - 1);
    }
}

/// A clone whose result has the same view as the original.
pub trait ViewClone: View + Sized {
    fn view_clone(&self) -> (r: Self)
        ensures
            r@ == self@,
    ;
}

impl ViewClone for String {
    fn view_clone(&self) -> (r: Self)
        ensures
            r@ == self@,
    {
        self.clone()
    }
}

/// A map from names to values, kept as a list of entries with distinct keys.
pub struct NameMap<T> {
    entries: Vec<(String, T)>,
}

impl<T: View> View for NameMap<T> {
    type V = Seq<(Seq<char>, T::V)>;

    closed spec fn view(&self) -> Seq<(Seq<char>, T::V)> {
        self.entries@.map_values(|p: (String, T)| (p.0@, p.1@))
    }
}

impl<T: View> NameMap<T> {
    /// The mathematical map this value denotes.
    pub open spec fn as_map(&self) -> Map<Seq<char>, T::V> {
        assoc_map(self@)
    }

    /// Well-formed: no key occurs twice.
    pub open spec fn wf(&self) -> bool {
        distinct_keys(self@)
    }

    pub fn new() -> (r: Self)
        ensures
            r@ =~= Seq::<(Seq<char>, T::V)>::empty(),
            r.as_map() =~= Map::<Seq<char>, T::V>::empty(),
            r.wf(),
    {
        let r = NameMap { entries: Vec::new() };
        proof {
            assert(r@ =~= Seq::<(Seq<char>, T::V)>::empty());
        }
        r
    }

    /// Wraps a ready entry list; the caller answers for distinct keys.
    pub fn from_entries(entries: Vec<(String, T)>) -> (r: Self)
        ensures
            r@ == entries@.map_values(|p: (String, T)| (p.0@, p.1@)),
    {
        NameMap { entries }
    }

    pub fn len(&self) -> (n: usize)
        ensures
            n == self@.len(),
    {
        self.entries.len()
    }

    pub fn key_at(&self, i: usize) -> (k: &String)
        requires
            i < self@.len(),
        ensures
            k@ == self@[i as int].0,
    {
        &self.entries[i].0
    }

    pub fn val_at(&self, i: usize) -> (v: &T)
        requires
            i < self@.len(),
        ensures
            v@ == self@[i as int].1,
    {
        &self.entries[i].1
    }

    /// Index of the first entry with the given key.
    fn find(&self, name: &String) -> (r: Option<usize>)
        ensures
            match r {
                Some(i) => i < self@.len() && self@[i as int].0 == name@ && (forall|j: int|
                    0 <= j < i ==> self@[j].0 != name@),
                None => forall|j: int| 0 <= j < self@.len() ==> self@[j].0 != name@,
            },
    {
        let n = self.entries.len();
        let mut i: usize = 0;
        while i < n
            invariant
                n == self@.len(),
                i <= n,
                forall|j: int| 0 <= j < i ==> self@[j].0 != name@,
            decreases n - i,
        {
            if self.entries[i].0.eq(name) {
                return Some(i);
            }
            i = i + 1;
        }
        None
    }

    pub fn contains_key(&self, name: &String) -> (r: bool)
        ensures
            r == self.as_map().contains_key(name@),
    {
        let f = self.find(name);
        proof {
            lemma_assoc_map_contains(self@, name@);
        }
        f.is_some()
    }

    pub fn get(&self, name: &String) -> (r: Option<&T>)
        requires
            self.wf(),
        ensures
            match r {
                Some(v) => self.as_map().contains_key(name@) && v@ == self.as_map()[name@],
                None => !self.as_map().contains_key(name@),
            },
    {
        proof {
            lemma_assoc_map_contains(self@, name@);
        }
        match self.find(name) {
            Some(i) => {
                proof {
                    lemma_assoc_map_index(self@, i as int);
                }
                Some(self.val_at(i))
            },
            None => None,
        }
    }

    /// Inserts the pair, overwriting the entry of an existing key in place
    /// and appending a new key at the end.
    pub fn insert(&mut self, name: String, v: T)
        requires
            old(self).wf(),
        ensures
            final(self).wf(),
            final(self).as_map() =~= old(self).as_map().insert(name@, v@),
            old(self).as_map().contains_key(name@) ==> final(self)@.len() == old(self)@.len(),
            !old(self).as_map().contains_key(name@) ==> final(self)@ =~= old(self)@.push(
                (name@, v@),
            ),
    {
        proof {
            lemma_assoc_map_contains(self@, name@);
        }
        match self.find(&name) {
            Some(i) => {
                proof {
                    lemma_assoc_map_update(self@, i as int, name@, v@);
                }
                let ghost nv = name@;
                let ghost vv = v@;
                self.entries[i] = (name, v);
                proof {
                    assert(self@ =~= old(self)@.update(i as int, (nv, vv)));
                }
            },
            None => {
                proof {
                    lemma_assoc_map_push(self@, name@, v@);
                }
                let ghost nv = name@;
                let ghost vv = v@;
                self.entries.push((name, v));
                proof {
                    assert(self@ =~= old(self)@.push((nv, vv)));
                }
            },
        }
    }

    /// Removes the entry of the key, if any.
    pub fn remove(&mut self, name: &String)
        requires
            old(self).wf(),
        ensures
            final(self).wf(),
            final(self).as_map() =~= old(self).as_map().remove(name@),
            !old(self).as_map().contains_key(name@) ==> final(self)@ == old(self)@,
    {
        proof {
            lemma_assoc_map_contains(self@, name@);
        }
        match self.find(name) {
            Some(i) => {
                proof {
                    lemma_assoc_map_remove(self@, i as int);
                }
                self.entries.remove(i);
                proof {
                    assert(self@ =~= old(self)@.remove(i as int));
                }
            },
            None => {
                proof {
                    assert(!self.as_map().contains_key(name@));
                    assert(self.as_map().remove(name@) =~= self.as_map());
                }
            },
        }
    }
}

impl<T: ViewClone> NameMap<T> {
    /// A copy with the same entries, in the same order.
    pub fn duplicate(&self) -> (r: Self)
        ensures
            r@ == self@,
    {
        let n = self.entries.len();
        let mut entries: Vec<(String, T)> = Vec::new();
        let mut i: usize = 0;
        while i < n
            invariant
                n == self.entries@.len(),
                i <= n,
                entries@.len() == i,
                forall|j: int|
                    0 <= j < i ==> entries@[j].0@ == self.entries@[j].0@ && entries@[j].1@
                        == self.entries@[j].1@,
            decreases n - i,
        {
            let k = self.entries[i].0.clone();
            let v = self.entries[i].1.view_clone();
            entries.push((k, v));
            i = i + 1;
        }
        let r = NameMap { entries };
        proof {
            assert forall|j: int| 0 <= j < r@.len() implies r@[j] == self@[j] by {
                assert(r@[j] == (r.entries@[j].0@, r.entries@[j].1@));
                assert(self@[j] == (self.entries@[j].0@, self.entries@[j].1@));
            }
            assert(r@ =~= self@);
        }
        r
    }
}

} // verus!
