//! A map from strings to strings, kept as a list of entries with distinct keys.

use vstd::prelude::*;

verus! {

/// The keys of the entries, in order.
pub open spec fn keys_of(s: Seq<(String, String)>) -> Seq<Seq<char>> {
    s.map_values(|p: (String, String)| p.0@)
}

/// The map that a list of entries with distinct keys stands for.
pub open spec fn entries_map(s: Seq<(String, String)>) -> Map<Seq<char>, Seq<char>> {
    Map::new(
        |k: Seq<char>| keys_of(s).contains(k),
        |k: Seq<char>| s[keys_of(s).index_of(k)].1@,
    )
}

/// A map from strings to strings.
#[derive(Debug)]
pub struct StringMap {
    entries: Vec<(String, String)>,
}

impl View for StringMap {
    type V = Map<Seq<char>, Seq<char>>;

    closed spec fn view(&self) -> Map<Seq<char>, Seq<char>> {
        entries_map(self.entries@)
    }
}

proof fn lemma_index_of_unique(s: Seq<(String, String)>, i: int)
    requires
        keys_of(s).no_duplicates(),
        0 <= i < s.len(),
    ensures
        keys_of(s).contains(s[i].0@),
        keys_of(s).index_of(s[i].0@) == i,
{
    let ks = keys_of(s);
    assert(ks[i] == s[i].0@);
    let j = ks.index_of(s[i].0@);
    assert(ks[j] == ks[i]);
}

/// The map holds the entry's key with the entry's value.
pub open spec fn holds_entry(m: Map<Seq<char>, Seq<char>>, e: (String, String)) -> bool {
    m.contains_key(e.0@) && m[e.0@] == e.1@
}

/// The keys of the data are finitely many, one per entry.
proof fn lemma_dom_is_key_set(d: &StringMap)
    requires
        keys_of(d.entries@).no_duplicates(),
    ensures
        d@.dom() == keys_of(d.entries@).to_set(),
        d@.dom().finite(),
        d@.dom().len() == d.entries@.len(),
{
    keys_of(d.entries@).unique_seq_to_set();
    assert(d@.dom() =~= keys_of(d.entries@).to_set());
}

/// `m` with the pairs inserted in order, later pairs replacing earlier values.
pub open spec fn insert_all(m: Map<Seq<char>, Seq<char>>, pairs: Seq<(String, String)>) -> Map<Seq<char>, Seq<char>>
    decreases pairs.len(),
{
    if pairs.len() == 0 {
        m
    } else {
        insert_all(m, pairs.drop_last()).insert(pairs.last().0@, pairs.last().1@)
    }
}

impl StringMap {
    #[verifier::type_invariant]
    spec fn inv(self) -> bool {
        keys_of(self.entries@).no_duplicates()
    }

    /// No data.
    pub fn new() -> (r: StringMap)
        ensures
            r@ == Map::<Seq<char>, Seq<char>>::empty(),
    {
        let r = StringMap { entries: Vec::new() };
        assert(r@ =~= Map::<Seq<char>, Seq<char>>::empty());
        r
    }

    /// The number of keys.
    pub fn len(&self) -> (r: usize)
        ensures
            r == self@.dom().len(),
    {
        proof {
            use_type_invariant(self);
            lemma_dom_is_key_set(self);
        }
        self.entries.len()
    }

    /// Whether there is no key.
    pub fn is_empty(&self) -> (r: bool)
        ensures
            r == (self@.dom().len() == 0),
    {
        self.len() == 0
    }

    fn find(&self, key: &str) -> (r: Option<usize>)
        ensures
            match r {
                Some(i) => (i as int) < self.entries@.len() && self.entries@[i as int].0@ == key@,
                None => !keys_of(self.entries@).contains(key@),
            },
    {
        let ghost ks = keys_of(self.entries@);
        let mut i: usize = 0;
        while i < self.entries.len()
            invariant
                i <= self.entries.len(),
                ks == keys_of(self.entries@),
                forall|j: int| 0 <= j < i ==> ks[j] != key@,
            decreases self.entries.len() - i,
        {
            if crate::text::str_eq(self.entries[i].0.as_str(), key) {
                return Some(i);
            }
            i = i + 1;
        }
        None
    }

    /// The value stored under `key`.
    pub fn get(&self, key: &str) -> (r: Option<&String>)
        ensures
            match r {
                Some(v) => self@.contains_key(key@) && v@ == self@[key@],
                None => !self@.contains_key(key@),
            },
    {
        proof {
            use_type_invariant(self);
        }
        match self.find(key) {
            Some(i) => {
                proof {
                    lemma_index_of_unique(self.entries@, i as int);
                }
                Some(&self.entries[i].1)
            },
            None => None,
        }
    }

    /// Stores `value` under `key`, replacing any earlier value.
    pub fn insert(&mut self, key: String, value: String)
        ensures
            final(self)@ == old(self)@.insert(key@, value@),
    {
        proof {
            use_type_invariant(&*self);
        }
        let ghost old_entries = self.entries@;
        let ghost old_keys = keys_of(old_entries);
        let found = self.find(key.as_str());
        let mut entries: Vec<(String, String)> = Vec::new();
        std::mem::swap(&mut entries, &mut self.entries);
        match found {
            Some(i) => {
                let ghost k = key@;
                let ghost v = value@;
                entries.set(i, (key, value));
                proof {
                    let s = entries@;
                    assert(keys_of(s) =~= old_keys);
                    lemma_index_of_unique(s, i as int);
                    assert forall|kk: Seq<char>| #[trigger] entries_map(s).contains_key(kk) && kk != k
                        implies entries_map(s)[kk] == entries_map(old_entries)[kk] by {
                        let j = keys_of(s).index_of(kk);
                        assert(keys_of(s)[j] == kk);
                        lemma_index_of_unique(s, j);
                        lemma_index_of_unique(old_entries, j);
                    }
                    assert(entries_map(s) =~= entries_map(old_entries).insert(k, v));
                }
            },
            None => {
                let ghost k = key@;
                let ghost v = value@;
                entries.push((key, value));
                proof {
                    let s = entries@;
                    assert(keys_of(s) =~= old_keys.push(k));
                    assert forall|a: int, b: int| 0 <= a < keys_of(s).len() && 0 <= b < keys_of(s).len() && a != b
                        implies keys_of(s)[a] != keys_of(s)[b] by {
                        if a < old_keys.len() && b < old_keys.len() {
                        } else if a < old_keys.len() {
                            assert(old_keys[a] == keys_of(s)[a]);
                        } else {
                            assert(old_keys[b] == keys_of(s)[b]);
                        }
                    }
                    lemma_index_of_unique(s, old_entries.len() as int);
                    assert forall|kk: Seq<char>| #[trigger] entries_map(s).contains_key(kk) && kk != k
                        implies entries_map(old_entries).contains_key(kk) && entries_map(s)[kk] == entries_map(old_entries)[kk] by {
                        let j = keys_of(s).index_of(kk);
                        assert(keys_of(s)[j] == kk);
                        assert(j < old_entries.len());
                        assert(old_keys[j] == kk);
                        lemma_index_of_unique(s, j);
                        lemma_index_of_unique(old_entries, j);
                    }
                    assert forall|kk: Seq<char>| #[trigger] entries_map(old_entries).contains_key(kk)
                        implies entries_map(s).contains_key(kk) by {
                        let j = old_keys.index_of(kk);
                        assert(keys_of(s)[j] == kk);
                    }
                    assert(entries_map(s) =~= entries_map(old_entries).insert(k, v));
                }
            },
        }
        self.entries = entries;
    }

    /// Stores each pair in turn.
    pub fn insert_pairs(&mut self, pairs: Vec<(String, String)>)
        ensures
            final(self)@ == insert_all(old(self)@, pairs@),
    {
        let ghost start = self@;
        let mut i: usize = 0;
        while i < pairs.len()
            invariant
                i <= pairs.len(),
                self@ == insert_all(start, pairs@.take(i as int)),
            decreases pairs.len() - i,
        {
            assert(pairs@.take(i + 1).drop_last() =~= pairs@.take(i as int));
            let key = pairs[i].0.clone();
            let value = pairs[i].1.clone();
            self.insert(key, value);
            i = i + 1;
        }
        assert(pairs@.take(pairs.len() as int) =~= pairs@);
    }

    /// The entries, one pair per key.
    pub fn to_pairs(&self) -> (r: Vec<(String, String)>)
        ensures
            entries_map(r@) == self@,
            keys_of(r@).no_duplicates(),
    {
        proof {
            use_type_invariant(self);
        }
        let mut r: Vec<(String, String)> = Vec::new();
        let mut i: usize = 0;
        while i < self.entries.len()
            invariant
                i <= self.entries.len(),
                r@.len() == i,
                forall|j: int| 0 <= j < i ==> #[trigger] r@[j].0@ == self.entries@[j].0@
                    && r@[j].1@ == self.entries@[j].1@,
            decreases self.entries.len() - i,
        {
            let k = self.entries[i].0.clone();
            let v = self.entries[i].1.clone();
            r.push((k, v));
            i = i + 1;
        }
        proof {
            assert(keys_of(r@) =~= keys_of(self.entries@));
            assert forall|kk: Seq<char>| #[trigger] entries_map(r@).contains_key(kk)
                implies entries_map(r@)[kk] == entries_map(self.entries@)[kk] by {
                let j = keys_of(r@).index_of(kk);
                assert(keys_of(r@)[j] == kk);
                assert(r@[j].1@ == self.entries@[j].1@);
            }
            assert(entries_map(r@) =~= entries_map(self.entries@));
        }
        r
    }

    /// A copy with the same data.
    pub fn copy(&self) -> (r: StringMap)
        ensures
            r@ == self@,
    {
        proof {
            use_type_invariant(self);
        }
        let pairs = self.to_pairs();
        StringMap { entries: pairs }
    }

    /// Whether both hold the same keys with the same values.
    pub fn same_data(&self, other: &StringMap) -> (r: bool)
        ensures
            r == (self@ == other@),
    {
        proof {
            use_type_invariant(self);
            use_type_invariant(other);
        }
        if self.len() != other.len() {
            return false;
        }
        let mut i: usize = 0;
        while i < self.entries.len()
            invariant
                i <= self.entries.len(),
                self@.dom().len() == other@.dom().len(),
                keys_of(self.entries@).no_duplicates(),
                forall|j: int| 0 <= j < i ==> #[trigger] holds_entry(other@, self.entries@[j]),
            decreases self.entries.len() - i,
        {
            match other.get(self.entries[i].0.as_str()) {
                Some(v) => {
                    if !(*v == self.entries[i].1) {
                        proof {
                            lemma_index_of_unique(self.entries@, i as int);
                        }
                        return false;
                    }
                },
                None => {
                    proof {
                        lemma_index_of_unique(self.entries@, i as int);
                    }
                    return false;
                },
            }
            assert(holds_entry(other@, self.entries@[i as int]));
            i = i + 1;
        }
        proof {
            assert forall|kk: Seq<char>| #[trigger] self@.contains_key(kk)
                implies other@.contains_key(kk) && other@[kk] == self@[kk] by {
                let j = keys_of(self.entries@).index_of(kk);
                assert(keys_of(self.entries@)[j] == kk);
                lemma_index_of_unique(self.entries@, j);
                assert(holds_entry(other@, self.entries@[j]));
            }
            lemma_dom_is_key_set(self);
            lemma_dom_is_key_set(other);
            assert(self@.dom().subset_of(other@.dom()));
            vstd::set_lib::lemma_subset_equality(self@.dom(), other@.dom());
            assert(self@ =~= other@);
        }
        true
    }
}

impl Clone for StringMap {
    fn clone(&self) -> (r: StringMap)
        ensures
            r@ == self@,
    {
        self.copy()
    }
}

impl PartialEq for StringMap {
    fn eq(&self, other: &StringMap) -> (r: bool) {
        self.same_data(other)
    }
}

impl vstd::std_specs::cmp::PartialEqSpecImpl for StringMap {
    open spec fn obeys_eq_spec() -> bool {
        true
    }

    open spec fn eq_spec(&self, other: &StringMap) -> bool {
        self@ == other@
    }
}

} // verus!
