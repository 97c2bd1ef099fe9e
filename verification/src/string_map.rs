//! A map from strings to strings that keeps the order of insertion.
use vstd::prelude::*;

verus! {

/// The position of `key` among `entries`, if it is there.
pub open spec fn holds_at(entries: Seq<(String, String)>, key: Seq<char>, i: int) -> bool {
    0 <= i < entries.len() && entries[i].0@ == key
}

/// The map that a sequence of entries with distinct keys stands for.
pub open spec fn entries_map(entries: Seq<(String, String)>) -> Map<Seq<char>, Seq<char>> {
    Map::new(
        |key: Seq<char>| exists|i: int| holds_at(entries, key, i),
        |key: Seq<char>| entries[choose|i: int| holds_at(entries, key, i)].1@,
    )
}

/// No key occurs twice.
pub open spec fn distinct_keys(entries: Seq<(String, String)>) -> bool {
    forall|i: int, j: int|
        0 <= i < j < entries.len() ==> (#[trigger] entries[i]).0@ != (#[trigger] entries[j]).0@
}

/// A map from strings to strings.
///
/// Lookup is by exact match of the whole key. Walking the entries gives them
/// in the order in which their keys were first inserted.
#[derive(Debug)]
pub struct StringMap {
    entries: Vec<(String, String)>,
}

impl View for StringMap {
    type V = Map<Seq<char>, Seq<char>>;

    closed spec fn view(&self) -> Map<Seq<char>, Seq<char>> {
        entries_map(self.entries@)
    }
}

pub(crate) proof fn lemma_entry(entries: Seq<(String, String)>, i: int)
    requires
        distinct_keys(entries),
        0 <= i < entries.len(),
    ensures
        entries_map(entries).contains_key(entries[i].0@),
        entries_map(entries)[entries[i].0@] == entries[i].1@,
{
    let key = entries[i].0@;
    assert(holds_at(entries, key, i));
    let j = choose|j: int| holds_at(entries, key, j);
    if j < i {
        assert(entries[j].0@ != entries[i].0@);
    } else if i < j {
        assert(entries[i].0@ != entries[j].0@);
    }
}

proof fn lemma_absent(entries: Seq<(String, String)>, key: Seq<char>)
    requires
        forall|i: int| 0 <= i < entries.len() ==> (#[trigger] entries[i]).0@ != key,
    ensures
        !entries_map(entries).contains_key(key),
{
}

proof fn lemma_pushed(entries: Seq<(String, String)>, key: String, value: String)
    requires
        distinct_keys(entries),
        forall|i: int| 0 <= i < entries.len() ==> (#[trigger] entries[i]).0@ != key@,
    ensures
        distinct_keys(entries.push((key, value))),
        entries_map(entries.push((key, value))) == entries_map(entries).insert(key@, value@),
{
    let after = entries.push((key, value));
    let expected = entries_map(entries).insert(key@, value@);
    assert forall|k: Seq<char>| entries_map(after).contains_key(k) <==> #[trigger]
        expected.contains_key(k) by {
        if entries_map(after).contains_key(k) {
            let i = choose|i: int| holds_at(after, k, i);
            if i < entries.len() {
                assert(holds_at(entries, k, i));
            }
        }
        if entries_map(entries).contains_key(k) {
            let i = choose|i: int| holds_at(entries, k, i);
            assert(holds_at(after, k, i));
        }
        assert(holds_at(after, key@, entries.len() as int));
    }
    assert forall|k: Seq<char>| #[trigger] expected.contains_key(k) implies entries_map(after)[k]
        == expected[k] by {
        if k == key@ {
            lemma_entry(after, entries.len() as int);
        } else {
            let i = choose|i: int| holds_at(entries, k, i);
            lemma_entry(entries, i);
            lemma_entry(after, i);
        }
    }
    assert(entries_map(after) =~= expected);
}

proof fn lemma_replaced(entries: Seq<(String, String)>, i: int, key: String, value: String)
    requires
        distinct_keys(entries),
        0 <= i < entries.len(),
        entries[i].0@ == key@,
    ensures
        distinct_keys(entries.update(i, (key, value))),
        entries_map(entries.update(i, (key, value))) == entries_map(entries).insert(key@, value@),
{
    let after = entries.update(i, (key, value));
    let expected = entries_map(entries).insert(key@, value@);
    assert forall|k: Seq<char>| entries_map(after).contains_key(k) <==> #[trigger]
        expected.contains_key(k) by {
        if entries_map(after).contains_key(k) {
            let j = choose|j: int| holds_at(after, k, j);
            assert(holds_at(entries, k, j));
        }
        if entries_map(entries).contains_key(k) {
            let j = choose|j: int| holds_at(entries, k, j);
            assert(holds_at(after, k, j));
        }
        assert(holds_at(after, key@, i));
    }
    assert forall|k: Seq<char>| #[trigger] expected.contains_key(k) implies entries_map(after)[k]
        == expected[k] by {
        if k == key@ {
            lemma_entry(after, i);
        } else {
            let j = choose|j: int| holds_at(entries, k, j);
            lemma_entry(entries, j);
            lemma_entry(after, j);
        }
    }
    assert(entries_map(after) =~= expected);
}

proof fn lemma_size(entries: Seq<(String, String)>)
    requires
        distinct_keys(entries),
    ensures
        entries_map(entries).dom().finite(),
        entries_map(entries).len() == entries.len(),
    decreases entries.len(),
{
    if entries.len() == 0 {
        assert(entries_map(entries) =~= Map::empty());
    } else {
        let front = entries.drop_last();
        let (key, value) = entries.last();
        lemma_size(front);
        assert forall|i: int| 0 <= i < front.len() implies (#[trigger] front[i]).0@ != key@ by {
            assert(entries[i].0@ != entries[entries.len() - 1].0@);
        }
        lemma_pushed(front, key, value);
        assert(front.push((key, value)) =~= entries);
        lemma_absent(front, key@);
    }
}

impl StringMap {
    #[verifier::type_invariant]
    spec fn well_formed(self) -> bool {
        distinct_keys(self.entries@)
    }

    /// The empty map.
    pub fn new() -> (map: StringMap)
        ensures
            map@ == Map::<Seq<char>, Seq<char>>::empty(),
    {
        let map = StringMap { entries: Vec::new() };
        assert(map@ =~= Map::<Seq<char>, Seq<char>>::empty());
        map
    }

    fn position(&self, key: &str) -> (r: Option<usize>)
        ensures
            match r {
                Some(i) => i < self.entries@.len() && self.entries@[i as int].0@ == key@,
                None => forall|i: int|
                    0 <= i < self.entries@.len() ==> (#[trigger] self.entries@[i]).0@ != key@,
            },
    {
        let wanted = key.to_owned();
        let mut i: usize = 0;
        while i < self.entries.len()
            invariant
                i <= self.entries@.len(),
                wanted@ == key@,
                forall|j: int| 0 <= j < i ==> (#[trigger] self.entries@[j]).0@ != key@,
            decreases self.entries.len() - i,
        {
            if self.entries[i].0 == wanted {
                return Some(i);
            }
            i += 1;
        }
        None
    }

    /// The number of keys.
    pub fn len(&self) -> (n: usize)
        ensures
            n == self@.len(),
            self@.dom().finite(),
    {
        proof {
            use_type_invariant(self);
            lemma_size(self.entries@);
        }
        self.entries.len()
    }

    /// Whether there is no key.
    pub fn is_empty(&self) -> (empty: bool)
        ensures
            empty == (self@ == Map::<Seq<char>, Seq<char>>::empty()),
    {
        proof {
            use_type_invariant(self);
            lemma_size(self.entries@);
            if self.entries@.len() == 0 {
                assert(self@ =~= Map::<Seq<char>, Seq<char>>::empty());
            }
        }
        self.entries.len() == 0
    }

    /// The value of `key`.
    pub fn get(&self, key: &str) -> (value: Option<&String>)
        ensures
            match value {
                Some(v) => self@.contains_key(key@) && v@ == self@[key@],
                None => !self@.contains_key(key@),
            },
    {
        proof {
            use_type_invariant(self);
        }
        match self.position(key) {
            Some(i) => {
                proof {
                    lemma_entry(self.entries@, i as int);
                }
                Some(&self.entries[i].1)
            },
            None => {
                proof {
                    lemma_absent(self.entries@, key@);
                }
                None
            },
        }
    }

    /// Whether `key` has a value.
    pub fn contains_key(&self, key: &str) -> (yes: bool)
        ensures
            yes == self@.contains_key(key@),
    {
        self.get(key).is_some()
    }

    /// Gives `key` the value `value`, in place of the one that it had.
    pub fn insert(&mut self, key: String, value: String)
        ensures
            final(self)@ == old(self)@.insert(key@, value@),
    {
        proof {
            use_type_invariant(&*self);
        }
        let found = self.position(key.as_str());
        let mut entries: Vec<(String, String)> = Vec::new();
        std::mem::swap(&mut entries, &mut self.entries);
        match found {
            Some(i) => {
                proof {
                    lemma_replaced(entries@, i as int, key, value);
                }
                entries.set(i, (key, value));
            },
            None => {
                proof {
                    lemma_pushed(entries@, key, value);
                }
                entries.push((key, value));
            },
        }
        self.entries = entries;
    }

    /// The entries, in the order in which their keys were first inserted.
    pub fn entries(&self) -> (r: &Vec<(String, String)>)
        ensures
            distinct_keys(r@),
            entries_map(r@) == self@,
    {
        proof {
            use_type_invariant(self);
        }
        &self.entries
    }

    /// Takes over every entry of `other`, whose values win.
    pub fn extend(&mut self, other: &StringMap)
        ensures
            final(self)@ == old(self)@.union_prefer_right(other@),
    {
        let entries = other.entries();
        let ghost start = self@;
        let mut i: usize = 0;
        assert(start =~= start.union_prefer_right(entries_map(entries@.take(0))));
        while i < entries.len()
            invariant
                i <= entries@.len(),
                distinct_keys(entries@),
                self@ == start.union_prefer_right(entries_map(entries@.take(i as int))),
            decreases entries.len() - i,
        {
            let ghost before = self@;
            proof {
                lemma_prefix(entries@, i as int);
            }
            self.insert(entries[i].0.clone(), entries[i].1.clone());
            assert(self@ =~= start.union_prefer_right(entries_map(entries@.take(i + 1))));
            i += 1;
        }
        assert(entries@.take(i as int) =~= entries@);
    }

    /// Takes over those entries of `other` whose keys have no value yet.
    pub fn extend_missing(&mut self, other: &StringMap)
        ensures
            final(self)@ == other@.union_prefer_right(old(self)@),
    {
        let entries = other.entries();
        let ghost start = self@;
        let mut i: usize = 0;
        assert(start =~= entries_map(entries@.take(0)).union_prefer_right(start));
        while i < entries.len()
            invariant
                i <= entries@.len(),
                distinct_keys(entries@),
                self@ == entries_map(entries@.take(i as int)).union_prefer_right(start),
            decreases entries.len() - i,
        {
            proof {
                lemma_prefix(entries@, i as int);
            }
            if !self.contains_key(entries[i].0.as_str()) {
                self.insert(entries[i].0.clone(), entries[i].1.clone());
            }
            assert(self@ =~= entries_map(entries@.take(i + 1)).union_prefer_right(start));
            i += 1;
        }
        assert(entries@.take(i as int) =~= entries@);
    }
}

proof fn lemma_prefix(entries: Seq<(String, String)>, n: int)
    requires
        distinct_keys(entries),
        0 <= n < entries.len(),
    ensures
        entries_map(entries.take(n + 1)) == entries_map(entries.take(n)).insert(
            entries[n].0@,
            entries[n].1@,
        ),
        !entries_map(entries.take(n)).contains_key(entries[n].0@),
{
    let front = entries.take(n);
    let (key, value) = entries[n];
    assert forall|i: int| 0 <= i < front.len() implies (#[trigger] front[i]).0@ != key@ by {
        assert(entries[i].0@ != entries[n].0@);
    }
    assert(distinct_keys(front)) by {
        assert forall|i: int, j: int| 0 <= i < j < front.len() implies (#[trigger] front[i]).0@ != (
        #[trigger] front[j]).0@ by {
            assert(entries[i].0@ != entries[j].0@);
        }
    }
    lemma_pushed(front, key, value);
    lemma_absent(front, key@);
    assert(front.push((key, value)) =~= entries.take(n + 1));
}

impl Clone for StringMap {
    fn clone(&self) -> (r: StringMap)
        ensures
            r@ == self@,
    {
        let mut r = StringMap::new();
        r.extend(self);
        assert(Map::<Seq<char>, Seq<char>>::empty().union_prefer_right(self@) =~= self@);
        r
    }
}

} // verus!
