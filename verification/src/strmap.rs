//! A map from strings to strings, kept as a list of pairs with distinct keys
//! in the order they were first set: request headers and upload metadata.
use vstd::prelude::*;
use crate::text::{chars_of, chars_eq};
use crate::range::pairs_view;

verus! {

broadcast use vstd::string::group_string_axioms;

/// The map that a list of pairs denotes (a later pair overrides an earlier one).
pub open spec fn map_of(s: Seq<(Seq<char>, Seq<char>)>) -> Map<Seq<char>, Seq<char>>
    decreases s.len(),
{
    if s.len() == 0 {
        Map::empty()
    } else {
        map_of(s.drop_last()).insert(s.last().0, s.last().1)
    }
}

/// No key occurs twice.
pub open spec fn distinct_keys(s: Seq<(Seq<char>, Seq<char>)>) -> bool {
    forall|i: int, j: int| 0 <= i < j < s.len() ==> (#[trigger] s[i]).0 != (#[trigger] s[j]).0
}

/// A map from strings to strings that keeps its keys in the order they were
/// first set.
pub struct StrMap {
    pairs: Vec<(String, String)>,
}

impl View for StrMap {
    type V = Map<Seq<char>, Seq<char>>;

    closed spec fn view(&self) -> Map<Seq<char>, Seq<char>> {
        map_of(pairs_view(self.pairs@))
    }
}

proof fn lemma_map_of_lookup(s: Seq<(Seq<char>, Seq<char>)>, k: Seq<char>)
    requires
        distinct_keys(s),
    ensures
        (exists|i: int| 0 <= i < s.len() && s[i].0 == k) ==> map_of(s).dom().contains(k),
        forall|i: int| 0 <= i < s.len() && (#[trigger] s[i]).0 == k ==> map_of(s)[k] == s[i].1,
        !(exists|i: int| 0 <= i < s.len() && s[i].0 == k) ==> !map_of(s).dom().contains(k),
    decreases s.len(),
{
    if s.len() > 0 {
        let init = s.drop_last();
        assert(distinct_keys(init)) by {
            assert forall|i: int, j: int| 0 <= i < j < init.len() implies (#[trigger] init[i]).0
                != (#[trigger] init[j]).0 by {
                assert(init[i] == s[i] && init[j] == s[j]);
            }
        }
        lemma_map_of_lookup(init, k);
        if exists|i: int| 0 <= i < s.len() && s[i].0 == k {
            let i = choose|i: int| 0 <= i < s.len() && s[i].0 == k;
            if i < init.len() {
                assert(init[i] == s[i]);
            }
        }
        assert forall|i: int| 0 <= i < s.len() && (#[trigger] s[i]).0 == k implies map_of(s)[k]
            == s[i].1 by {
            if i < s.len() - 1 {
                assert(init[i] == s[i]);
                assert(s[i].0 != s[s.len() - 1].0);
            }
        }
        if !(exists|i: int| 0 <= i < s.len() && s[i].0 == k) {
            assert(s.last().0 != k);
            assert(!(exists|i: int| 0 <= i < init.len() && init[i].0 == k)) by {
                if exists|i: int| 0 <= i < init.len() && init[i].0 == k {
                    let i = choose|i: int| 0 <= i < init.len() && init[i].0 == k;
                    assert(s[i] == init[i]);
                }
            }
        }
    }
}

proof fn lemma_map_of_update(s: Seq<(Seq<char>, Seq<char>)>, i: int, v: Seq<char>)
    requires
        distinct_keys(s),
        0 <= i < s.len(),
    ensures
        map_of(s.update(i, (s[i].0, v))) == map_of(s).insert(s[i].0, v),
        distinct_keys(s.update(i, (s[i].0, v))),
    decreases s.len(),
{
    let t = s.update(i, (s[i].0, v));
    assert(distinct_keys(t)) by {
        assert forall|a: int, b: int| 0 <= a < b < t.len() implies (#[trigger] t[a]).0 != (
        #[trigger] t[b]).0 by {
            assert(t[a].0 == s[a].0 && t[b].0 == s[b].0);
        }
    }
    let init = s.drop_last();
    assert(distinct_keys(init)) by {
        assert forall|a: int, b: int| 0 <= a < b < init.len() implies (#[trigger] init[a]).0
            != (#[trigger] init[b]).0 by {
            assert(init[a] == s[a] && init[b] == s[b]);
        }
    }
    if i == s.len() - 1 {
        assert(t.drop_last() =~= init);
        assert(map_of(t) =~= map_of(s).insert(s[i].0, v));
    } else {
        lemma_map_of_update(init, i, v);
        assert(t.drop_last() =~= init.update(i, (s[i].0, v)));
        assert(s.last().0 != s[i].0);
        assert(map_of(t) =~= map_of(s).insert(s[i].0, v));
    }
}

impl StrMap {
    /// No key is held twice.
    #[verifier::type_invariant]
    spec fn keys_distinct(self) -> bool {
        distinct_keys(pairs_view(self.pairs@))
    }

    /// The empty map.
    pub fn new() -> (m: StrMap)
        ensures
            m@ == Map::<Seq<char>, Seq<char>>::empty(),
    {
        let m = StrMap { pairs: Vec::new() };
        assert(pairs_view(m.pairs@) =~= Seq::<(Seq<char>, Seq<char>)>::empty());
        m
    }

    /// Sets the value of `key`, replacing the old one in place.
    pub fn insert(&mut self, key: &str, value: &str)
        ensures
            final(self)@ == old(self)@.insert(key@, value@),
    {
        proof {
            use_type_invariant(&*self);
        }
        let k = chars_of(key);
        let ghost s = pairs_view(self.pairs@);
        let mut i: usize = 0;
        while i < self.pairs.len()
            invariant
                i <= self.pairs.len(),
                s == pairs_view(self.pairs@),
                s == pairs_view(old(self).pairs@),
                distinct_keys(s),
                k@ == key@,
                forall|j: int| 0 <= j < i ==> s[j].0 != key@,
            decreases self.pairs.len() - i,
        {
            let pk = chars_of(self.pairs[i].0.as_str());
            if chars_eq(&pk, &k) {
                assert(s[i as int].0 == key@);
                proof {
                    lemma_map_of_update(s, i as int, value@);
                }
                let mut pairs: Vec<(String, String)> = Vec::new();
                std::mem::swap(&mut pairs, &mut self.pairs);
                let entry = (key.to_owned(), value.to_owned());
                pairs.set(i, entry);
                assert(pairs_view(pairs@) =~= s.update(i as int, (s[i as int].0, value@)));
                self.pairs = pairs;
                return;
            }
            i += 1;
        }
        let mut pairs: Vec<(String, String)> = Vec::new();
        std::mem::swap(&mut pairs, &mut self.pairs);
        let entry = (key.to_owned(), value.to_owned());
        pairs.push(entry);
        assert(pairs_view(pairs@) =~= s.push((key@, value@)));
        assert(pairs_view(pairs@).drop_last() =~= s);
        self.pairs = pairs;
    }

    /// The value of `key`, if it is set.
    pub fn get(&self, key: &str) -> (r: Option<String>)
        ensures
            r matches Some(v) ==> self@.dom().contains(key@) && v@ == self@[key@],
            r is None ==> !self@.dom().contains(key@),
    {
        proof {
            use_type_invariant(self);
        }
        let ghost s = pairs_view(self.pairs@);
        proof {
            lemma_map_of_lookup(s, key@);
        }
        let k = chars_of(key);
        assert(distinct_keys(s));
        let mut i: usize = 0;
        while i < self.pairs.len()
            invariant
                i <= self.pairs.len(),
                s == pairs_view(self.pairs@),
                distinct_keys(s),
                k@ == key@,
                forall|j: int| 0 <= j < i ==> s[j].0 != key@,
            decreases self.pairs.len() - i,
        {
            let pk = chars_of(self.pairs[i].0.as_str());
            if chars_eq(&pk, &k) {
                assert(s[i as int].0 == key@);
                proof {
                    lemma_map_of_lookup(s, key@);
                }
                let v = self.pairs[i].1.clone();
                assert(v@ == s[i as int].1);
                assert(map_of(s)[key@] == s[i as int].1);
                assert(map_of(s).dom().contains(key@));
                return Some(v);
            }
            i += 1;
        }
        None
    }

    /// The pairs, each key once, in the order the keys were first set.
    pub fn pairs(&self) -> (r: Vec<(String, String)>)
        ensures
            map_of(pairs_view(r@)) == self@,
            distinct_keys(pairs_view(r@)),
    {
        proof {
            use_type_invariant(self);
        }
        let mut r: Vec<(String, String)> = Vec::new();
        let mut i: usize = 0;
        while i < self.pairs.len()
            invariant
                i <= self.pairs.len(),
                pairs_view(r@) == pairs_view(self.pairs@).take(i as int),
            decreases self.pairs.len() - i,
        {
            let ghost before = pairs_view(r@);
            let item = (self.pairs[i].0.clone(), self.pairs[i].1.clone());
            r.push(item);
            assert(pairs_view(r@) =~= before.push((item.0@, item.1@)));
            i += 1;
            assert(pairs_view(r@) =~= pairs_view(self.pairs@).take(i as int));
        }
        assert(pairs_view(self.pairs@).take(self.pairs.len() as int) =~= pairs_view(self.pairs@));
        r
    }
}

/// After `insert(key, value)`, `get(key)` gives `value`, and every other key
/// keeps its value (or stays unset).
pub proof fn law_get_after_insert(
    m: Map<Seq<char>, Seq<char>>,
    key: Seq<char>,
    value: Seq<char>,
    other: Seq<char>,
)
    ensures
        m.insert(key, value).dom().contains(key),
        m.insert(key, value)[key] == value,
        other != key ==> (m.insert(key, value).dom().contains(other) <==> m.dom().contains(other)),
        other != key && m.dom().contains(other) ==> m.insert(key, value)[other] == m[other],
{
}

} // verus!
