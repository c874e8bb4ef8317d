//! The generic `KEY=VALUE` environment of a uevent.
//!
//! An [`EnvMap`] is an associative container from key text to value text.
//! Insertion order is not significant; inserting a key that is already
//! present overwrites its value, so of duplicate inserts the last one
//! wins.  Its mathematical view is a `Map<Seq<char>, Seq<char>>`.

use vstd::prelude::*;

use crate::text::str_eq;

verus! {

/// A sequence of key/value pairs folded into a map, later pairs winning
/// over earlier ones with the same key.
pub open spec fn pairs_to_map(s: Seq<(Seq<char>, Seq<char>)>) -> Map<Seq<char>, Seq<char>>
    decreases s.len(),
{
    if s.len() == 0 {
        Map::empty()
    } else {
        pairs_to_map(s.drop_last()).insert(s.last().0, s.last().1)
    }
}

/// No two pairs of `s` share a key.
pub open spec fn distinct_keys(s: Seq<(Seq<char>, Seq<char>)>) -> bool {
    forall|i: int, j: int| 0 <= i < j < s.len() ==> (#[trigger] s[i]).0 != (#[trigger] s[j]).0
}

proof fn lemma_pairs_to_map_contains(s: Seq<(Seq<char>, Seq<char>)>, k: Seq<char>)
    ensures
        pairs_to_map(s).contains_key(k) <==> exists|i: int| 0 <= i < s.len() && (#[trigger] s[i]).0
            == k,
        pairs_to_map(s).dom().finite(),
    decreases s.len(),
{
    if s.len() > 0 {
        lemma_pairs_to_map_contains(s.drop_last(), k);
        if s.last().0 == k {
            assert(s[s.len() - 1].0 == k);
        } else if pairs_to_map(s).contains_key(k) {
            let i = choose|i: int| 0 <= i < s.drop_last().len() && (#[trigger] s.drop_last()[i]).0
                == k;
            assert(s[i].0 == k);
        } else {
            if exists|i: int| 0 <= i < s.len() && (#[trigger] s[i]).0 == k {
                let i = choose|i: int| 0 <= i < s.len() && (#[trigger] s[i]).0 == k;
                assert(s.drop_last()[i].0 == k);
            }
        }
    }
}

proof fn lemma_pairs_to_map_at(s: Seq<(Seq<char>, Seq<char>)>, i: int)
    requires
        distinct_keys(s),
        0 <= i < s.len(),
    ensures
        pairs_to_map(s).contains_key(s[i].0),
        pairs_to_map(s)[s[i].0] == s[i].1,
    decreases s.len(),
{
    if i == s.len() - 1 {
        assert(s.last() == s[i]);
    } else {
        assert(distinct_keys(s.drop_last())) by {
            assert(forall|x: int, y: int|
                0 <= x < y < s.drop_last().len() ==> (#[trigger] s.drop_last()[x]).0 != (
                #[trigger] s.drop_last()[y]).0);
        }
        assert(s.drop_last()[i] == s[i]);
        lemma_pairs_to_map_at(s.drop_last(), i);
        assert(s[i].0 != s.last().0);
    }
}

/// Removing the one pair that holds key `k` removes exactly `k` from the
/// folded map.
proof fn lemma_pairs_to_map_remove(s: Seq<(Seq<char>, Seq<char>)>, i: int)
    requires
        distinct_keys(s),
        0 <= i < s.len(),
    ensures
        pairs_to_map(s.remove(i)) == pairs_to_map(s).remove(s[i].0),
    decreases s.len(),
{
    let k = s[i].0;
    assert(distinct_keys(s.drop_last())) by {
        assert(forall|x: int, y: int|
            0 <= x < y < s.drop_last().len() ==> (#[trigger] s.drop_last()[x]).0 != (
            #[trigger] s.drop_last()[y]).0);
    }
    if i == s.len() - 1 {
        assert(s.remove(i) =~= s.drop_last());
        lemma_pairs_to_map_contains(s.drop_last(), k);
        assert(forall|x: int|
            0 <= x < s.drop_last().len() ==> (#[trigger] s[x]) == s.drop_last()[x]);
        assert(!pairs_to_map(s.drop_last()).contains_key(k));
        assert(pairs_to_map(s).remove(k) =~= pairs_to_map(s.drop_last()));
    } else {
        assert(s.remove(i).drop_last() =~= s.drop_last().remove(i));
        assert(s.remove(i).last() == s.last());
        assert(s.drop_last()[i] == s[i]);
        lemma_pairs_to_map_remove(s.drop_last(), i);
        assert(s[i].0 != s.last().0);
        assert(pairs_to_map(s.remove(i)) == pairs_to_map(s.drop_last()).remove(k).insert(
            s.last().0,
            s.last().1,
        ));
        assert(pairs_to_map(s.drop_last()).remove(k).insert(s.last().0, s.last().1)
            =~= pairs_to_map(s.drop_last()).insert(s.last().0, s.last().1).remove(k));
    }
}

proof fn lemma_pairs_to_map_len(s: Seq<(Seq<char>, Seq<char>)>)
    requires
        distinct_keys(s),
    ensures
        pairs_to_map(s).dom().finite(),
        pairs_to_map(s).dom().len() == s.len(),
    decreases s.len(),
{
    lemma_pairs_to_map_contains(s, Seq::empty());
    if s.len() > 0 {
        assert(distinct_keys(s.drop_last())) by {
            assert(forall|x: int, y: int|
                0 <= x < y < s.drop_last().len() ==> (#[trigger] s.drop_last()[x]).0 != (
                #[trigger] s.drop_last()[y]).0);
        }
        lemma_pairs_to_map_len(s.drop_last());
        lemma_pairs_to_map_contains(s.drop_last(), s.last().0);
        assert(forall|x: int|
            0 <= x < s.drop_last().len() ==> (#[trigger] s[x]) == s.drop_last()[x]);
        assert(!pairs_to_map(s.drop_last()).contains_key(s.last().0));
        assert(pairs_to_map(s).dom() =~= pairs_to_map(s.drop_last()).dom().insert(s.last().0));
    }
}

/// An owned mapping from key text to value text, duplicates resolved
/// last-write-wins.
#[derive(Debug, Clone, PartialEq, Eq)]
pub struct EnvMap {
    pairs: Vec<(String, String)>,
}

impl View for EnvMap {
    type V = Map<Seq<char>, Seq<char>>;

    closed spec fn view(&self) -> Map<Seq<char>, Seq<char>> {
        pairs_to_map(self.pairs.deep_view())
    }
}

impl EnvMap {
    /// Each key is stored at most once.
    pub closed spec fn wf(&self) -> bool {
        distinct_keys(self.pairs.deep_view())
    }

    /// An empty environment.
    pub fn new() -> (r: EnvMap)
        ensures
            r.wf(),
            r@ == Map::<Seq<char>, Seq<char>>::empty(),
    {
        let r = EnvMap { pairs: Vec::new() };
        proof {
            assert(r.pairs.deep_view() =~= Seq::<(Seq<char>, Seq<char>)>::empty());
        }
        r
    }

    /// Index of the pair holding `key`, when one does.
    fn position_of(&self, key: &str) -> (r: Option<usize>)
        ensures
            match r {
                Some(i) => i < self.pairs.len() && self.pairs.deep_view()[i as int].0 == key@,
                None => forall|i: int|
                    0 <= i < self.pairs.len() ==> (#[trigger] self.pairs.deep_view()[i]).0
                        != key@,
            },
    {
        let mut i: usize = 0;
        while i < self.pairs.len()
            invariant
                0 <= i <= self.pairs.len(),
                forall|j: int| 0 <= j < i ==> (#[trigger] self.pairs.deep_view()[j]).0 != key@,
            decreases self.pairs.len() - i,
        {
            if str_eq(self.pairs[i].0.as_str(), key) {
                return Some(i);
            }
            i = i + 1;
        }
        None
    }

    /// Insert `value` under `key`, overwriting any value the key held.
    pub fn insert(&mut self, key: String, value: String)
        requires
            old(self).wf(),
        ensures
            final(self).wf(),
            final(self)@ == old(self)@.insert(key@, value@),
    {
        let ghost before = self.pairs.deep_view();
        match self.position_of(key.as_str()) {
            Some(i) => {
                self.pairs.remove(i);
                proof {
                    lemma_pairs_to_map_remove(before, i as int);
                    assert(self.pairs.deep_view() =~= before.remove(i as int));
                }
            },
            None => {
            },
        }
        let ghost mid = self.pairs.deep_view();
        proof {
            lemma_pairs_to_map_contains(mid, key@);
            assert(forall|i: int| 0 <= i < mid.len() ==> (#[trigger] mid[i]).0 != key@);
        }
        self.pairs.push((key, value));
        proof {
            let now = self.pairs.deep_view();
            assert(now =~= mid.push((key@, value@)));
            assert(now.drop_last() =~= mid);
            assert(pairs_to_map(now) == pairs_to_map(mid).insert(key@, value@));
            assert(pairs_to_map(mid).insert(key@, value@) =~= pairs_to_map(before).insert(
                key@,
                value@,
            ));
            assert forall|x: int, y: int| 0 <= x < y < now.len() implies (#[trigger] now[x]).0 != (
            #[trigger] now[y]).0 by {
                if y == now.len() - 1 {
                    assert(now[x].0 == mid[x].0);
                }
            }
        }
    }

    /// The value stored under `key`, when the key is present.
    pub fn get(&self, key: &str) -> (r: Option<&String>)
        requires
            self.wf(),
        ensures
            match r {
                Some(v) => self@.contains_key(key@) && v@ == self@[key@],
                None => !self@.contains_key(key@),
            },
    {
        let ghost s = self.pairs.deep_view();
        match self.position_of(key) {
            Some(i) => {
                proof {
                    lemma_pairs_to_map_at(s, i as int);
                }
                Some(&self.pairs[i].1)
            },
            None => {
                proof {
                    lemma_pairs_to_map_contains(s, key@);
                }
                None
            },
        }
    }

    /// True when `key` is present.
    pub fn contains_key(&self, key: &str) -> (r: bool)
        requires
            self.wf(),
        ensures
            r == self@.contains_key(key@),
    {
        self.get(key).is_some()
    }

    /// The number of keys held.
    pub fn len(&self) -> (n: usize)
        requires
            self.wf(),
        ensures
            n == self@.dom().len(),
    {
        proof {
            lemma_pairs_to_map_len(self.pairs.deep_view());
        }
        self.pairs.len()
    }
}

} // verus!
