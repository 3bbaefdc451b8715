//! A string-keyed association map with unique keys.
//!
//! Argument values, parser states and placeholder modifiers are all keyed by
//! argument or modifier names, so the crate uses one small map type for them:
//! a vector of key/value pairs whose keys are pairwise distinct. Its view is
//! a `Map` from the key's character sequence to the value's deep view.

use vstd::prelude::*;

use crate::str_eq;

verus! {

/// A map from strings to values, backed by a vector of pairs.
#[derive(Debug, PartialEq)]
pub struct StrMap<V> {
    pairs: Vec<(String, V)>,
}

/// The map denoted by a pair list, later entries winning.
pub open spec fn map_of_pairs<V: DeepView>(s: Seq<(String, V)>) -> Map<Seq<char>, V::V>
    decreases s.len(),
{
    if s.len() == 0 {
        Map::empty()
    } else {
        map_of_pairs(s.drop_last()).insert(s.last().0@, s.last().1.deep_view())
    }
}

/// Whether some pair of the list carries the key.
pub open spec fn pairs_have_key<V>(s: Seq<(String, V)>, k: Seq<char>) -> bool {
    exists|i: int| 0 <= i < s.len() && #[trigger] s[i].0@ == k
}

impl<V: DeepView> View for StrMap<V> {
    type V = Map<Seq<char>, V::V>;

    closed spec fn view(&self) -> Map<Seq<char>, V::V> {
        map_of_pairs(self.pairs@)
    }
}

impl<V: DeepView> DeepView for StrMap<V> {
    type V = Map<Seq<char>, V::V>;

    open spec fn deep_view(&self) -> Map<Seq<char>, V::V> {
        self@
    }
}

proof fn lemma_map_of_pairs_dom<V: DeepView>(s: Seq<(String, V)>, k: Seq<char>)
    ensures
        map_of_pairs(s).contains_key(k) <==> pairs_have_key(s, k),
    decreases s.len(),
{
    if s.len() > 0 {
        lemma_map_of_pairs_dom(s.drop_last(), k);
        if map_of_pairs(s).contains_key(k) {
            if k == s.last().0@ {
                assert(s[s.len() - 1].0@ == k);
            } else {
                let i = choose|i: int|
                    0 <= i < s.drop_last().len() && #[trigger] s.drop_last()[i].0@ == k;
                assert(s[i].0@ == k);
            }
        }
        if pairs_have_key(s, k) {
            let i = choose|i: int| 0 <= i < s.len() && #[trigger] s[i].0@ == k;
            if i < s.len() - 1 {
                assert(s.drop_last()[i].0@ == k);
            }
        }
    }
}

impl<V: DeepView> StrMap<V> {
    /// Keys are pairwise distinct, so each key denotes one value.
    pub closed spec fn wf(&self) -> bool {
        forall|i: int, j: int|
            0 <= i < j < self.pairs@.len() ==> self.pairs@[i].0@ != self.pairs@[j].0@
    }

    /// Creates an empty map.
    pub fn new() -> (r: Self)
        ensures
            r.wf(),
            r@ == Map::<Seq<char>, V::V>::empty(),
    {
        StrMap { pairs: Vec::new() }
    }

    /// The number of entries.
    pub fn len(&self) -> (r: usize)
        requires
            self.wf(),
        ensures
            r == self@.dom().len(),
    {
        proof {
            lemma_wf_len(self.pairs@);
        }
        self.pairs.len()
    }

    /// Looks a key up, returning a reference to its value.
    pub fn get(&self, key: &str) -> (r: Option<&V>)
        requires
            self.wf(),
        ensures
            match r {
                Some(v) => self@.contains_key(key@) && v.deep_view() == self@[key@],
                None => !self@.contains_key(key@),
            },
    {
        let n = self.pairs.len();
        let mut i: usize = 0;
        while i < n
            invariant
                self.wf(),
                n == self.pairs@.len(),
                i <= n,
                forall|j: int| 0 <= j < i ==> #[trigger] self.pairs@[j].0@ != key@,
            decreases n - i,
        {
            if str_eq(self.pairs[i].0.as_str(), key) {
                proof {
                    lemma_wf_get(self.pairs@, i as int);
                }
                return Some(&self.pairs[i].1);
            }
            i = i + 1;
        }
        proof {
            lemma_map_of_pairs_dom(self.pairs@, key@);
        }
        None
    }

    /// Whether the map holds the key.
    pub fn contains_key(&self, key: &str) -> (r: bool)
        requires
            self.wf(),
        ensures
            r == self@.contains_key(key@),
    {
        self.get(key).is_some()
    }

    /// The position of a key's pair, if the key is present.
    fn index_of(&self, key: &str) -> (r: Option<usize>)
        ensures
            match r {
                Some(i) => i < self.pairs@.len() && self.pairs@[i as int].0@ == key@,
                None => forall|j: int|
                    0 <= j < self.pairs@.len() ==> #[trigger] self.pairs@[j].0@ != key@,
            },
    {
        let n = self.pairs.len();
        let mut i: usize = 0;
        while i < n
            invariant
                n == self.pairs@.len(),
                i <= n,
                forall|j: int| 0 <= j < i ==> #[trigger] self.pairs@[j].0@ != key@,
            decreases n - i,
        {
            if str_eq(self.pairs[i].0.as_str(), key) {
                return Some(i);
            }
            i = i + 1;
        }
        None
    }

    /// Checks that the keys are pairwise distinct. Maps built through
    /// `new` and `insert` always are; this lets an unverified caller
    /// establish the fact for a map of unknown history.
    pub fn check_wf(&self) -> (r: bool)
        ensures
            r == self.wf(),
    {
        let n = self.pairs.len();
        let mut i: usize = 0;
        while i < n
            invariant
                i <= n,
                n == self.pairs@.len(),
                forall|a: int, b: int|
                    0 <= a < b < self.pairs@.len() && a < i ==> self.pairs@[a].0@
                        != self.pairs@[b].0@,
            decreases n - i,
        {
            let mut j: usize = i + 1;
            while j < n
                invariant
                    i < j <= n,
                    n == self.pairs@.len(),
                    forall|b: int| i < b < j ==> self.pairs@[i as int].0@ != self.pairs@[b].0@,
                decreases n - j,
            {
                if str_eq(self.pairs[i].0.as_str(), self.pairs[j].0.as_str()) {
                    return false;
                }
                j = j + 1;
            }
            i = i + 1;
        }
        true
    }

    /// Inserts a value under a key, replacing any previous value.
    pub fn insert(&mut self, key: String, value: V)
        requires
            old(self).wf(),
        ensures
            final(self).wf(),
            final(self)@ == old(self)@.insert(key@, value.deep_view()),
    {
        let found = self.index_of(key.as_str());
        let ghost old_pairs = self.pairs@;
        let p = (key, value);
        let ghost gp = p;
        match found {
            Some(i) => {
                self.pairs.set(i, p);
                proof {
                    lemma_wf_update(old_pairs, i as int, gp);
                }
            }
            None => {
                self.pairs.push(p);
                proof {
                    assert forall|a: int, b: int|
                        0 <= a < b < self.pairs@.len() implies self.pairs@[a].0@
                        != self.pairs@[b].0@ by {
                        if b == self.pairs@.len() - 1 {
                            assert(self.pairs@[a] == old_pairs[a]);
                            assert(old_pairs[a].0@ != gp.0@);
                        } else {
                            assert(self.pairs@[a] == old_pairs[a]);
                            assert(self.pairs@[b] == old_pairs[b]);
                        }
                    }
                    assert(self.pairs@.drop_last() =~= old_pairs);
                    assert(self.pairs@.last() == gp);
                }
            }
        }
    }
}

/// Under distinct keys, the entry at an index is the map's value for its key.
proof fn lemma_wf_get<V: DeepView>(s: Seq<(String, V)>, i: int)
    requires
        0 <= i < s.len(),
        forall|a: int, b: int| 0 <= a < b < s.len() ==> s[a].0@ != s[b].0@,
    ensures
        map_of_pairs(s).contains_key(s[i].0@),
        map_of_pairs(s)[s[i].0@] == s[i].1.deep_view(),
    decreases s.len(),
{
    if i == s.len() - 1 {
    } else {
        lemma_wf_get(s.drop_last(), i);
        assert(s.drop_last()[i] == s[i]);
        assert(s[i].0@ != s[s.len() - 1].0@);
    }
}

/// Replacing the entry at an index keeps distinctness and denotes the map
/// with that key re-bound, provided the new key equals the old one in view.
proof fn lemma_wf_update<V: DeepView>(s: Seq<(String, V)>, i: int, p: (String, V))
    requires
        0 <= i < s.len(),
        forall|a: int, b: int| 0 <= a < b < s.len() ==> s[a].0@ != s[b].0@,
        p.0@ == s[i].0@,
    ensures
        forall|a: int, b: int|
            0 <= a < b < s.update(i, p).len() ==> s.update(i, p)[a].0@ != s.update(i, p)[b].0@,
        map_of_pairs(s.update(i, p)) == map_of_pairs(s).insert(p.0@, p.1.deep_view()),
    decreases s.len(),
{
    let t = s.update(i, p);
    if i == s.len() - 1 {
        assert(t.drop_last() =~= s.drop_last());
        assert(t.last() == p);
        assert(map_of_pairs(t) =~= map_of_pairs(s).insert(p.0@, p.1.deep_view()));
    } else {
        lemma_wf_update(s.drop_last(), i, p);
        assert(t.drop_last() =~= s.drop_last().update(i, p));
        assert(t.last() == s.last());
        assert(map_of_pairs(t) == map_of_pairs(s.drop_last().update(i, p)).insert(
            s.last().0@,
            s.last().1.deep_view(),
        ));
        assert(p.0@ != s.last().0@);
        assert(map_of_pairs(t) =~= map_of_pairs(s).insert(p.0@, p.1.deep_view()));
    }
}

/// Under distinct keys, the map has as many entries as the pair list.
proof fn lemma_wf_len<V: DeepView>(s: Seq<(String, V)>)
    requires
        forall|a: int, b: int| 0 <= a < b < s.len() ==> s[a].0@ != s[b].0@,
    ensures
        map_of_pairs(s).dom().len() == s.len(),
        map_of_pairs(s).dom().finite(),
    decreases s.len(),
{
    if s.len() > 0 {
        lemma_wf_len(s.drop_last());
        lemma_map_of_pairs_dom(s.drop_last(), s.last().0@);
        if pairs_have_key(s.drop_last(), s.last().0@) {
            let j = choose|j: int|
                0 <= j < s.drop_last().len() && #[trigger] s.drop_last()[j].0@ == s.last().0@;
            assert(s[j].0@ == s[s.len() - 1].0@);
        }
        assert(!map_of_pairs(s.drop_last()).dom().contains(s.last().0@));
    }
}

} // verus!

