//! The set of replacements that interpolation has made.
use vstd::prelude::*;

use crate::text::pair_views;

verus! {

/// A set of pairs of a value and the name that it was substituted for.
///
/// Walking the set gives the pairs in the order in which they were added.
#[derive(Debug)]
pub struct Replacers {
    pairs: Vec<(String, String)>,
}

impl View for Replacers {
    type V = Set<(Seq<char>, Seq<char>)>;

    open spec fn view(&self) -> Set<(Seq<char>, Seq<char>)> {
        self.in_order().to_set()
    }
}

impl Replacers {
    /// The pairs in the order in which they were added.
    pub closed spec fn in_order(&self) -> Seq<(Seq<char>, Seq<char>)> {
        pair_views(self.pairs@)
    }

    #[verifier::type_invariant]
    spec fn well_formed(self) -> bool {
        pair_views(self.pairs@).no_duplicates()
    }

    /// The empty set.
    pub fn new() -> (r: Replacers)
        ensures
            r@ == Set::<(Seq<char>, Seq<char>)>::empty(),
            r.in_order().len() == 0,
    {
        let r = Replacers { pairs: Vec::new() };
        assert(r@ =~= Set::<(Seq<char>, Seq<char>)>::empty());
        r
    }

    /// Whether there is no pair.
    pub fn is_empty(&self) -> (empty: bool)
        ensures
            empty == (self@ == Set::<(Seq<char>, Seq<char>)>::empty()),
            empty == (self.in_order().len() == 0),
    {
        proof {
            if self.pairs@.len() == 0 {
                assert(self@ =~= Set::<(Seq<char>, Seq<char>)>::empty());
            } else {
                assert(self@.contains(self.in_order()[0]));
            }
        }
        self.pairs.len() == 0
    }

    /// The pairs in the order in which they were added, none of them twice.
    pub fn pairs(&self) -> (r: &Vec<(String, String)>)
        ensures
            pair_views(r@) == self.in_order(),
            self.in_order().no_duplicates(),
    {
        proof {
            use_type_invariant(self);
        }
        &self.pairs
    }

    /// Whether the pair of `value` and `name` is in the set.
    pub fn contains(&self, value: &str, name: &str) -> (yes: bool)
        ensures
            yes == self@.contains((value@, name@)),
    {
        let wanted_value = value.to_owned();
        let wanted_name = name.to_owned();
        let mut i: usize = 0;
        while i < self.pairs.len()
            invariant
                i <= self.pairs@.len(),
                wanted_value@ == value@,
                wanted_name@ == name@,
                forall|j: int| 0 <= j < i ==> #[trigger] self.in_order()[j] != (value@, name@),
            decreases self.pairs.len() - i,
        {
            assert(self.in_order()[i as int] == (self.pairs@[i as int].0@, self.pairs@[i as int].1@));
            if self.pairs[i].0 == wanted_value && self.pairs[i].1 == wanted_name {
                return true;
            }
            i += 1;
        }
        false
    }

    /// Adds the pair of `value` and `name`.
    pub fn insert(&mut self, value: String, name: String)
        ensures
            final(self)@ == old(self)@.insert((value@, name@)),
            old(self).in_order().is_prefix_of(final(self).in_order()),
    {
        proof {
            use_type_invariant(&*self);
        }
        let ghost before = self.in_order();
        let ghost pair = (value@, name@);
        if self.contains(value.as_str(), name.as_str()) {
            assert(self@ =~= self@.insert(pair));
            assert(before.is_prefix_of(before));
            return ;
        }
        let mut pairs: Vec<(String, String)> = Vec::new();
        std::mem::swap(&mut pairs, &mut self.pairs);
        pairs.push((value, name));
        proof {
            let after = pair_views(pairs@);
            assert(after =~= before.push(pair));
            assert forall|i: int, j: int| 0 <= i < after.len() && 0 <= j < after.len() && i
                != j implies after[i] != after[j] by {
                if i == before.len() {
                    assert(before.contains(after[j]));
                } else if j == before.len() {
                    assert(before.contains(after[i]));
                }
            }
            assert forall|p: (Seq<char>, Seq<char>)| after.to_set().contains(p) <==> #[trigger]
                before.to_set().insert(pair).contains(p) by {
                if before.contains(p) {
                    let k = choose|k: int| 0 <= k < before.len() && before[k] == p;
                    assert(after[k] == p);
                }
                assert(after[before.len() as int] == pair);
            }
            assert(after.to_set() =~= before.to_set().insert(pair));
        }
        self.pairs = pairs;
    }

    /// Adds every one of `pairs`.
    pub fn extend(&mut self, pairs: Vec<(String, String)>)
        ensures
            final(self)@ == old(self)@.union(pair_views(pairs@).to_set()),
            old(self).in_order().is_prefix_of(final(self).in_order()),
    {
        let ghost start = self@;
        let ghost first = self.in_order();
        let ghost all = pair_views(pairs@);
        let mut i: usize = 0;
        assert(all.take(0).to_set() =~= Set::empty());
        assert(start =~= start.union(all.take(0).to_set()));
        assert(first.is_prefix_of(first));
        while i < pairs.len()
            invariant
                i <= pairs@.len(),
                all == pair_views(pairs@),
                self@ == start.union(all.take(i as int).to_set()),
                first.is_prefix_of(self.in_order()),
            decreases pairs.len() - i,
        {
            let ghost middle = self.in_order();
            self.insert(pairs[i].0.clone(), pairs[i].1.clone());
            proof {
                let front = all.take(i as int);
                let longer = all.take(i + 1);
                assert(longer =~= front.push(all[i as int]));
                assert forall|p: (Seq<char>, Seq<char>)| longer.to_set().contains(p) <==> #[trigger]
                    front.to_set().insert(all[i as int]).contains(p) by {
                    if front.contains(p) {
                        let k = choose|k: int| 0 <= k < front.len() && front[k] == p;
                        assert(longer[k] == p);
                    }
                    assert(longer[i as int] == all[i as int]);
                }
                assert(longer.to_set() =~= front.to_set().insert(all[i as int]));
                assert(self@ =~= start.union(longer.to_set()));
                let last = self.in_order();
                assert(first =~= last.take(first.len() as int));
            }
            i += 1;
        }
        assert(all.take(i as int) =~= all);
    }
}

} // verus!
