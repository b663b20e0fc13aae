//! A map keyed by strings, held as a list of pairs with distinct keys.
use vstd::prelude::*;

verus! {

/// The map that a list of (key, value) pairs gives, a later pair overriding an earlier one.
pub open spec fn pairs_map<V: View>(v: Seq<(String, V)>) -> Map<Seq<char>, V::V>
    decreases v.len(),
{
    if v.len() == 0 {
        Map::empty()
    } else {
        pairs_map(v.drop_last()).insert(v.last().0@, v.last().1@)
    }
}

/// No key occurs twice.
pub open spec fn distinct_keys<V>(v: Seq<(String, V)>) -> bool {
    forall|i: int, j: int| 0 <= i < v.len() && 0 <= j < v.len() && v[i].0@ == v[j].0@ ==> i == j
}

proof fn lemma_distinct_prefix<V>(v: Seq<(String, V)>)
    requires
        distinct_keys(v),
        v.len() > 0,
    ensures
        distinct_keys(v.drop_last()),
{
    let w = v.drop_last();
    assert forall|i: int, j: int|
        0 <= i < w.len() && 0 <= j < w.len() && w[i].0@ == w[j].0@ implies i == j by {
        assert(w[i] == v[i] && w[j] == v[j]);
    }
}

/// With distinct keys, the map holds exactly the keys of the list, each with its value.
pub proof fn lemma_pairs_map<V: View>(v: Seq<(String, V)>)
    requires
        distinct_keys(v),
    ensures
        forall|i: int|
            #![trigger v[i]]
            0 <= i < v.len() ==> pairs_map(v).contains_key(v[i].0@) && pairs_map(v)[v[i].0@] == v[i].1@,
        forall|p: Seq<char>|
            #[trigger] pairs_map(v).contains_key(p) ==> exists|i: int| #![trigger v[i]] 0 <= i < v.len() && v[i].0@ == p,
        pairs_map(v).dom().finite(),
        pairs_map(v).dom().len() == v.len(),
    decreases v.len(),
{
    if v.len() > 0 {
        let w = v.drop_last();
        lemma_distinct_prefix(v);
        lemma_pairs_map(w);
        assert(pairs_map(v) == pairs_map(w).insert(v.last().0@, v.last().1@));
        assert forall|i: int| #![trigger v[i]] 0 <= i < v.len() implies pairs_map(v).contains_key(v[i].0@)
            && pairs_map(v)[v[i].0@] == v[i].1@ by {
            if i < v.len() - 1 {
                assert(w[i] == v[i]);
                assert(v[i].0@ != v.last().0@);
                assert(pairs_map(w).contains_key(w[i].0@));
            }
        }
        assert forall|p: Seq<char>| #[trigger] pairs_map(v).contains_key(p) implies exists|i: int|
            #![trigger v[i]] 0 <= i < v.len() && v[i].0@ == p by {
            if p != v.last().0@ {
                assert(pairs_map(w).contains_key(p));
                let i = choose|i: int| #![trigger w[i]] 0 <= i < w.len() && w[i].0@ == p;
                assert(w[i] == v[i]);
            } else {
                assert(v[v.len() - 1].0@ == p);
            }
        }
        if pairs_map(w).contains_key(v.last().0@) {
            let i = choose|i: int| #![trigger w[i]] 0 <= i < w.len() && w[i].0@ == v.last().0@;
            assert(w[i] == v[i]);
        }
    }
}

/// Two pair lists with the same keys and value views, position by position, give the same map.
pub proof fn lemma_pairs_map_views<V: View>(x: Seq<(String, V)>, y: Seq<(String, V)>)
    requires
        x.len() == y.len(),
        forall|i: int| 0 <= i < x.len() ==> #[trigger] x[i].0@ == y[i].0@ && x[i].1@ == y[i].1@,
    ensures
        pairs_map(x) == pairs_map(y),
    decreases x.len(),
{
    if x.len() > 0 {
        lemma_pairs_map_views(x.drop_last(), y.drop_last());
        assert(x.last().0@ == y.last().0@ && x.last().1@ == y.last().1@);
    }
}

/// A map from strings to values.
pub struct StrMap<V> {
    pairs: Vec<(String, V)>,
}

impl<V: View> View for StrMap<V> {
    type V = Map<Seq<char>, V::V>;

    closed spec fn view(&self) -> Map<Seq<char>, V::V> {
        pairs_map(self.pairs@)
    }
}

impl<V: View> StrMap<V> {
    /// Each key is held once.
    pub closed spec fn wf(&self) -> bool {
        distinct_keys(self.pairs@)
    }

    /// The key/value pairs, in the order they are held.
    pub closed spec fn pair_seq(&self) -> Seq<(String, V)> {
        self.pairs@
    }

    /// The pairs hold exactly the entries of the map.
    pub proof fn lemma_pairs(&self)
        requires
            self.wf(),
        ensures
            self@ == pairs_map(self.pair_seq()),
            self.pair_seq().len() == self@.dom().len(),
            self@.dom().finite(),
            forall|i: int|
                #![trigger self.pair_seq()[i]]
                0 <= i < self.pair_seq().len() ==> self@.contains_key(self.pair_seq()[i].0@)
                    && self@[self.pair_seq()[i].0@] == self.pair_seq()[i].1@,
            forall|i: int, j: int|
                0 <= i < self.pair_seq().len() && 0 <= j < self.pair_seq().len() && i != j
                    ==> self.pair_seq()[i].0@ != self.pair_seq()[j].0@,
            forall|p: Seq<char>|
                #[trigger] self@.contains_key(p) ==> exists|i: int|
                    #![trigger self.pair_seq()[i]]
                    0 <= i < self.pair_seq().len() && self.pair_seq()[i].0@ == p,
    {
        lemma_pairs_map(self.pairs@);
    }

    /// An empty map.
    pub fn new() -> (r: StrMap<V>)
        ensures
            r.wf(),
            r@ == Map::<Seq<char>, V::V>::empty(),
            r.pair_seq().len() == 0,
    {
        StrMap { pairs: Vec::new() }
    }

    /// Position of `key` among the pairs.
    fn find(&self, key: &str) -> (r: Option<usize>)
        requires
            self.wf(),
        ensures
            match r {
                Some(i) => i < self.pairs@.len() && self.pairs@[i as int].0@ == key@,
                None => !self@.contains_key(key@),
            },
    {
        let mut i: usize = 0;
        while i < self.pairs.len()
            invariant
                i <= self.pairs@.len(),
                distinct_keys(self.pairs@),
                forall|j: int| 0 <= j < i ==> self.pairs@[j].0@ != key@,
            decreases self.pairs@.len() - i,
        {
            if crate::text::str_eq(self.pairs[i].0.as_str(), key) {
                return Some(i);
            }
            i = i + 1;
        }
        proof {
            lemma_pairs_map(self.pairs@);
        }
        None
    }

    /// The value at `key`.
    pub fn get(&self, key: &str) -> (r: Option<&V>)
        requires
            self.wf(),
        ensures
            match r {
                Some(v) => self@.contains_key(key@) && self@[key@] == v@ && exists|i: int|
                    0 <= i < self.pair_seq().len() && self.pair_seq()[i].1 == *v,
                None => !self@.contains_key(key@),
            },
    {
        proof {
            lemma_pairs_map(self.pairs@);
        }
        match self.find(key) {
            Some(i) => {
                assert(self.pair_seq()[i as int].1 == self.pairs@[i as int].1);
                Some(&self.pairs[i].1)
            },
            None => None,
        }
    }

    /// The number of keys.
    pub fn len(&self) -> (r: usize)
        requires
            self.wf(),
        ensures
            r == self@.dom().len(),
    {
        proof {
            lemma_pairs_map(self.pairs@);
        }
        self.pairs.len()
    }

    /// The pair at position `i`.
    pub fn pair(&self, i: usize) -> (r: &(String, V))
        requires
            i < self.pair_seq().len(),
        ensures
            *r == self.pair_seq()[i as int],
    {
        &self.pairs[i]
    }

    /// Removes `key`, giving back its value.
    pub fn remove(&mut self, key: &str) -> (r: Option<V>)
        requires
            old(self).wf(),
        ensures
            final(self).wf(),
            final(self)@ == old(self)@.remove(key@),
            match r {
                Some(v) => old(self)@.contains_key(key@) && old(self)@[key@] == v@ && exists|i: int|
                    0 <= i < old(self).pair_seq().len() && old(self).pair_seq()[i].1 == v,
                None => !old(self)@.contains_key(key@),
            },
            forall|x: (String, V)| #[trigger] final(self).pair_seq().contains(x) ==> old(self).pair_seq().contains(x),
    {
        proof {
            lemma_pairs_map(self.pairs@);
        }
        match self.find(key) {
            Some(i) => {
                let ghost before = self.pairs@;
                let (_, v) = self.pairs.remove(i);
                assert(before[i as int].1 == v);
                proof {
                    let after = self.pairs@;
                    assert(after =~= before.remove(i as int));
                    assert forall|x: (String, V)| #[trigger] after.contains(x) implies before.contains(x) by {
                        let j = choose|j: int| 0 <= j < after.len() && after[j] == x;
                        let j0 = if j < i { j } else { j + 1 };
                        assert(before[j0] == x);
                    }
                    assert(distinct_keys(after)) by {
                        assert forall|a: int, b: int|
                            0 <= a < after.len() && 0 <= b < after.len() && after[a].0@ == after[b].0@ implies a
                            == b by {
                            let a0 = if a < i { a } else { a + 1 };
                            let b0 = if b < i { b } else { b + 1 };
                            assert(after[a] == before[a0]);
                            assert(after[b] == before[b0]);
                        }
                    }
                    lemma_pairs_map(after);
                    assert forall|p: Seq<char>| #[trigger] pairs_map(after).contains_key(p) <==> pairs_map(
                        before,
                    ).remove(key@).contains_key(p) by {
                        if pairs_map(after).contains_key(p) {
                            let j = choose|j: int| #![trigger after[j]] 0 <= j < after.len() && after[j].0@ == p;
                            let j0 = if j < i { j } else { j + 1 };
                            assert(after[j] == before[j0]);
                        }
                        if pairs_map(before).contains_key(p) && p != key@ {
                            let j = choose|j: int| #![trigger before[j]] 0 <= j < before.len() && before[j].0@ == p;
                            assert(j != i);
                            let j1 = if j < i { j } else { j - 1 };
                            assert(after[j1] == before[j]);
                        }
                    }
                    assert forall|p: Seq<char>| #[trigger] pairs_map(after).contains_key(p) implies pairs_map(
                        after,
                    )[p] == pairs_map(before).remove(key@)[p] by {
                        let j = choose|j: int| #![trigger after[j]] 0 <= j < after.len() && after[j].0@ == p;
                        let j0 = if j < i { j } else { j + 1 };
                        assert(after[j] == before[j0]);
                    }
                    assert(pairs_map(after) =~= pairs_map(before).remove(key@));
                    lemma_pairs_map(before);
                    assert(before[i as int].0@ == key@);
                    assert(old(self).pair_seq()[i as int].1 == v);
                    assert(pairs_map(before)[key@] == before[i as int].1@);
                }
                Some(v)
            },
            None => {
                assert(self@ =~= self@.remove(key@));
                None
            },
        }
    }

    /// Builds a map by setting each pair of `v` in turn.
    pub fn from_pairs(v: Vec<(String, V)>) -> (r: StrMap<V>)
        ensures
            r.wf(),
            r@ == pairs_map(v@),
            forall|x: (String, V)| #[trigger] r.pair_seq().contains(x) ==> v@.contains(x),
    {
        let ghost vs = v@;
        let mut m = StrMap::new();
        let mut rest = v;
        assert(rest@ =~= vs.subrange(0, vs.len() as int));
        assert(vs.take(0) =~= Seq::<(String, V)>::empty());
        while rest.len() > 0
            invariant
                m.wf(),
                rest@.len() <= vs.len(),
                rest@ == vs.subrange(vs.len() - rest@.len(), vs.len() as int),
                m@ == pairs_map(vs.take(vs.len() - rest@.len())),
                forall|x: (String, V)| #[trigger] m.pair_seq().contains(x) ==> vs.contains(x),
            decreases rest@.len(),
        {
            let ghost t = vs.len() - rest@.len();
            let (k, val) = rest.remove(0);
            let ghost kv = (k, val);
            m.insert(k, val);
            proof {
                assert(kv == vs[t]);
                assert(vs.contains(kv));
                assert(vs.take(t + 1).drop_last() =~= vs.take(t));
                assert(rest@ =~= vs.subrange(t + 1, vs.len() as int));
            }
        }
        assert(vs.take(vs.len() as int) =~= vs);
        m
    }

    /// Sets the value at `key`, replacing what was there.
    pub fn insert(&mut self, key: String, value: V)
        requires
            old(self).wf(),
        ensures
            final(self).wf(),
            final(self)@ == old(self)@.insert(key@, value@),
            forall|x: (String, V)| #[trigger] final(self).pair_seq().contains(x) ==> old(self).pair_seq().contains(x)
                || x == (key, value),
    {
        let ghost kv = (key, value);
        let ghost k = key@;
        let ghost val = value@;
        let _ = self.remove(key.as_str());
        let ghost before = self.pairs@;
        assert forall|x: (String, V)| #[trigger] before.contains(x) implies old(self).pair_seq().contains(x) by {
            assert(self.pair_seq().contains(x));
        }
        self.pairs.push((key, value));
        proof {
            let after = self.pairs@;
            assert forall|x: (String, V)| #[trigger] after.contains(x) implies before.contains(x) || x == kv by {
                let j = choose|j: int| 0 <= j < after.len() && after[j] == x;
                if j < before.len() {
                    assert(before[j] == x);
                }
            }
            assert(after.drop_last() =~= before);
            lemma_pairs_map(before);
            assert forall|a: int, b: int|
                0 <= a < after.len() && 0 <= b < after.len() && after[a].0@ == after[b].0@ implies a == b by {
                if a < before.len() {
                    assert(after[a] == before[a]);
                }
                if b < before.len() {
                    assert(after[b] == before[b]);
                }
            }
            assert(pairs_map(after) =~= pairs_map(before).insert(k, val));
            assert(old(self)@.remove(k).insert(k, val) =~= old(self)@.insert(k, val));
        }
    }
}

impl StrMap<String> {
    /// The key/value pairs, in the order they are held.
    pub fn to_pairs(&self) -> (r: Vec<(String, String)>)
        requires
            self.wf(),
        ensures
            pairs_map(r@) == self@,
            distinct_keys(r@),
    {
        let mut out: Vec<(String, String)> = Vec::new();
        let mut i: usize = 0;
        while i < self.pairs.len()
            invariant
                i <= self.pairs@.len(),
                out@.len() == i,
                forall|j: int| 0 <= j < i ==> #[trigger] out@[j].0@ == self.pairs@[j].0@ && out@[j].1@ == self.pairs@[j].1@,
            decreases self.pairs@.len() - i,
        {
            let (k, v) = &self.pairs[i];
            out.push((k.clone(), v.clone()));
            i = i + 1;
        }
        proof {
            lemma_pairs_map_views(out@, self.pairs@);
            assert forall|a: int, b: int|
                0 <= a < out@.len() && 0 <= b < out@.len() && out@[a].0@ == out@[b].0@ implies a == b by {
                assert(out@[a].0@ == self.pairs@[a].0@);
                assert(out@[b].0@ == self.pairs@[b].0@);
            }
        }
        out
    }
}

} // verus!
