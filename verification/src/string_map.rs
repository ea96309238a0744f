//! A map keyed by strings, kept as a list of entries with distinct keys.
use vstd::prelude::*;

verus! {

broadcast use vstd::string::group_string_axioms;

/// The map that a list of entries denotes: a later entry for a key overrides
/// an earlier one.
pub open spec fn entries_map<V>(p: Seq<(String, V)>) -> Map<Seq<char>, V>
    decreases p.len(),
{
    if p.len() == 0 {
        Map::empty()
    } else {
        entries_map(p.drop_last()).insert(p.last().0@, p.last().1)
    }
}

/// No key occurs twice in the list.
pub open spec fn distinct_keys<V>(p: Seq<(String, V)>) -> bool {
    forall|i: int, j: int| 0 <= i < j < p.len() ==> p[i].0@ != p[j].0@
}

pub proof fn lemma_entries_map_dom<V>(p: Seq<(String, V)>)
    ensures
        forall|k: Seq<char>|
            entries_map(p).contains_key(k) <==> exists|i: int| 0 <= i < p.len() && #[trigger] p[i].0@ == k,
        entries_map(p).dom().finite(),
        distinct_keys(p) ==> entries_map(p).dom().len() == p.len(),
    decreases p.len(),
{
    if p.len() > 0 {
        let q = p.drop_last();
        lemma_entries_map_dom(q);
        assert forall|k: Seq<char>|
            entries_map(p).contains_key(k) <==> exists|i: int| 0 <= i < p.len() && #[trigger] p[i].0@ == k by {
            if entries_map(p).contains_key(k) && k != p.last().0@ {
                let i = choose|i: int| 0 <= i < q.len() && #[trigger] q[i].0@ == k;
                assert(p[i].0@ == k);
            }
            if exists|i: int| 0 <= i < p.len() && #[trigger] p[i].0@ == k {
                let i = choose|i: int| 0 <= i < p.len() && #[trigger] p[i].0@ == k;
                if i < p.len() - 1 {
                    assert(q[i].0@ == k);
                }
            }
        }
        if distinct_keys(p) {
            assert(!entries_map(q).contains_key(p.last().0@)) by {
                if entries_map(q).contains_key(p.last().0@) {
                    let i = choose|i: int| 0 <= i < q.len() && #[trigger] q[i].0@ == p.last().0@;
                    assert(p[i].0@ == p[p.len() - 1].0@);
                }
            }
        }
    }
}

pub proof fn lemma_entries_map_value<V>(p: Seq<(String, V)>, i: int)
    requires
        distinct_keys(p),
        0 <= i < p.len(),
    ensures
        entries_map(p).contains_key(p[i].0@),
        entries_map(p)[p[i].0@] == p[i].1,
    decreases p.len(),
{
    if i < p.len() - 1 {
        let q = p.drop_last();
        assert(q[i] == p[i]);
        lemma_entries_map_value(q, i);
    }
}

proof fn lemma_entries_map_update<V>(p: Seq<(String, V)>, i: int, k: String, v: V)
    requires
        distinct_keys(p),
        0 <= i < p.len(),
        p[i].0@ == k@,
    ensures
        entries_map(p.update(i, (k, v))) =~= entries_map(p).insert(k@, v),
        distinct_keys(p.update(i, (k, v))),
    decreases p.len(),
{
    let q = p.drop_last();
    let u = p.update(i, (k, v));
    if i == p.len() - 1 {
        assert(u.drop_last() =~= q);
    } else {
        assert(u.drop_last() =~= q.update(i, (k, v)));
        lemma_entries_map_update(q, i, k, v);
        assert(p.last().0@ != k@);
    }
}

/// What a map gives back for a key after a value was given to it: that value
/// for that key, and for every other key what it gave before.
pub proof fn lemma_read_after_write<V>(before: Map<Seq<char>, V>, key: Seq<char>, value: V, other: Seq<char>)
    requires
        other != key,
    ensures
        before.insert(key, value).contains_key(key),
        before.insert(key, value)[key] == value,
        before.insert(key, value).contains_key(other) == before.contains_key(other),
        before.contains_key(other) ==> before.insert(key, value)[other] == before[other],
{
}

/// A map from strings to values of type `V`.
pub struct StringMap<V> {
    entries: Vec<(String, V)>,
}

impl<V> View for StringMap<V> {
    type V = Map<Seq<char>, V>;

    closed spec fn view(&self) -> Map<Seq<char>, V> {
        entries_map(self.entries@)
    }
}

impl<V> StringMap<V> {
    #[verifier::type_invariant]
    closed spec fn keys_are_distinct(self) -> bool {
        distinct_keys(self.entries@)
    }

    /// The contents of a map are a finite set of entries.
    pub proof fn lemma_finite(&self)
        ensures
            self@.dom().finite(),
    {
        lemma_entries_map_dom(self.entries@);
    }

    /// An empty map.
    pub fn new() -> (m: Self)
        ensures
            m@ == Map::<Seq<char>, V>::empty(),
    {
        StringMap { entries: Vec::new() }
    }

    /// The number of keys.
    pub fn len(&self) -> (n: usize)
        ensures
            self@.dom().finite(),
            n == self@.dom().len(),
    {
        proof {
            use_type_invariant(self);
            lemma_entries_map_dom(self.entries@);
        }
        self.entries.len()
    }

    /// Index of the entry for `key`, if any.
    fn find(&self, key: &str) -> (r: Option<usize>)
        ensures
            match r {
                Some(i) => i < self.entries@.len() && self.entries@[i as int].0@ == key@,
                None => forall|i: int| 0 <= i < self.entries@.len() ==> self.entries@[i].0@ != key@,
            },
    {
        let wanted = key.to_string();
        let mut i: usize = 0;
        while i < self.entries.len()
            invariant
                wanted@ == key@,
                i <= self.entries@.len(),
                forall|j: int| 0 <= j < i ==> self.entries@[j].0@ != key@,
            decreases self.entries@.len() - i,
        {
            if self.entries[i].0 == wanted {
                return Some(i);
            }
            i = i + 1;
        }
        None
    }

    /// Whether `key` has a value.
    pub fn contains_key(&self, key: &str) -> (r: bool)
        ensures
            r == self@.contains_key(key@),
    {
        proof {
            lemma_entries_map_dom(self.entries@);
        }
        match self.find(key) {
            Some(i) => {
                assert(self.entries@[i as int].0@ == key@);
                true
            },
            None => false,
        }
    }

    /// The value of `key`, if it has one.
    pub fn get(&self, key: &str) -> (r: Option<&V>)
        ensures
            match r {
                Some(v) => self@.contains_key(key@) && *v == self@[key@],
                None => !self@.contains_key(key@),
            },
    {
        proof {
            use_type_invariant(self);
            lemma_entries_map_dom(self.entries@);
        }
        match self.find(key) {
            Some(i) => {
                proof {
                    lemma_entries_map_value(self.entries@, i as int);
                }
                Some(&self.entries[i].1)
            },
            None => None,
        }
    }

    /// Gives `key` the value `value`, replacing any value it had.
    pub fn insert(&mut self, key: String, value: V)
        ensures
            final(self)@ == old(self)@.insert(key@, value),
    {
        proof {
            use_type_invariant(&*self);
        }
        let found = self.find(key.as_str());
        let mut entries: Vec<(String, V)> = Vec::new();
        std::mem::swap(&mut entries, &mut self.entries);
        match found {
            Some(i) => {
                proof {
                    lemma_entries_map_update(entries@, i as int, key, value);
                }
                entries.set(i, (key, value));
            },
            None => {
                let ghost old_entries = entries@;
                entries.push((key, value));
                assert(entries@.drop_last() =~= old_entries);
            },
        }
        self.entries = entries;
    }

    /// The entries of the map, each key once.
    pub fn into_entries(self) -> (r: Vec<(String, V)>)
        ensures
            entries_map(r@) == self@,
            distinct_keys(r@),
    {
        proof {
            use_type_invariant(&self);
        }
        self.entries
    }
}

impl StringMap<u32> {
    /// Whether every value is below `bound`.
    pub fn all_values_below(&self, bound: u32) -> (r: bool)
        ensures
            r == (forall|k: Seq<char>| self@.contains_key(k) ==> self@[k] < bound),
    {
        proof {
            use_type_invariant(self);
            lemma_entries_map_dom(self.entries@);
        }
        let mut i: usize = 0;
        while i < self.entries.len()
            invariant
                distinct_keys(self.entries@),
                i <= self.entries@.len(),
                forall|j: int| 0 <= j < i ==> self.entries@[j].1 < bound,
            decreases self.entries@.len() - i,
        {
            if self.entries[i].1 >= bound {
                proof {
                    lemma_entries_map_value(self.entries@, i as int);
                    let k = self.entries@[i as int].0@;
                    assert(self@.contains_key(k) && !(self@[k] < bound));
                }
                return false;
            }
            i = i + 1;
        }
        assert forall|k: Seq<char>| self@.contains_key(k) implies self@[k] < bound by {
            let j = choose|j: int| 0 <= j < self.entries@.len() && #[trigger] self.entries@[j].0@ == k;
            lemma_entries_map_value(self.entries@, j);
        }
        true
    }
}

} // verus!
