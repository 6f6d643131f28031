//! A string-keyed table: a hash index over a slot list, so that look-ups,
//! insertions and removals take expected constant time and the contents can
//! be listed.
use vstd::hash_map::StringHashMap;
use vstd::prelude::*;

verus! {

/// A map from strings to values of `V`.
pub struct StrTable<V> {
    index: StringHashMap<usize>,
    slots: Vec<Option<(String, V)>>,
}

/// `es` lists the pairs of `m`: every key once, each with its value.
pub open spec fn enumerates<V>(es: Seq<(Seq<char>, V)>, m: Map<Seq<char>, V>) -> bool {
    &&& forall|i: int, j: int| 0 <= i < j < es.len() ==> es[i].0 != es[j].0
    &&& forall|i: int| 0 <= i < es.len() ==> #[trigger] m.contains_key(es[i].0) && m[es[i].0] == es[i].1
    &&& forall|k: Seq<char>| #[trigger] m.contains_key(k) ==> exists|i: int| 0 <= i < es.len() && es[i].0 == k
}

/// The key/value view of a list of owned pairs.
pub open spec fn pairs_view<V>(es: Seq<(String, V)>) -> Seq<(Seq<char>, V)> {
    es.map_values(|p: (String, V)| (p.0@, p.1))
}

/// A listing of a map has one element per key.
pub proof fn lemma_enumerates_len<V>(es: Seq<(Seq<char>, V)>, m: Map<Seq<char>, V>)
    requires
        enumerates(es, m),
    ensures
        es.len() == m.dom().len(),
        m.dom().finite(),
{
    let keys = es.map_values(|p: (Seq<char>, V)| p.0);
    assert(keys.no_duplicates()) by {
        assert forall|i: int, j: int| 0 <= i < keys.len() && 0 <= j < keys.len() && i != j implies keys[i] != keys[j] by {
            if i < j {
                assert(es[i].0 != es[j].0);
            } else {
                assert(es[j].0 != es[i].0);
            }
        }
    }
    assert(keys.to_set() =~= m.dom()) by {
        assert forall|k: Seq<char>| keys.to_set().contains(k) implies m.dom().contains(k) by {
            let i = choose|i: int| 0 <= i < keys.len() && keys[i] == k;
            assert(m.contains_key(es[i].0));
        }
        assert forall|k: Seq<char>| m.dom().contains(k) implies keys.to_set().contains(k) by {
            assert(m.contains_key(k));
            let i = choose|i: int| 0 <= i < es.len() && es[i].0 == k;
            assert(keys[i] == k);
        }
    }
    keys.unique_seq_to_set();
    vstd::seq_lib::seq_to_set_is_finite(keys);
}

impl<V: Copy> StrTable<V> {
    /// The table is consistent: the index and the slots agree.
    pub closed spec fn wf(&self) -> bool {
        &&& forall|k: Seq<char>| #[trigger] self.index@.contains_key(k) ==> {
            let i = self.index@[k] as int;
            &&& 0 <= i < self.slots@.len()
            &&& self.slots@[i] is Some
            &&& self.slots@[i]->Some_0.0@ == k
        }
        &&& forall|i: int| 0 <= i < self.slots@.len() && (#[trigger] self.slots@[i]) is Some ==> {
            &&& self.index@.contains_key(self.slots@[i]->Some_0.0@)
            &&& self.index@[self.slots@[i]->Some_0.0@] == i
        }
    }

    /// The contents of the table.
    pub closed spec fn view(&self) -> Map<Seq<char>, V> {
        Map::new(
            |k: Seq<char>| self.index@.contains_key(k),
            |k: Seq<char>| self.slots@[self.index@[k] as int]->Some_0.1,
        )
    }

    /// An empty table.
    pub fn new() -> (t: Self)
        ensures
            t.wf(),
            t.view() == Map::<Seq<char>, V>::empty(),
    {
        let t = StrTable { index: StringHashMap::new(), slots: Vec::new() };
        assert(t.view() =~= Map::<Seq<char>, V>::empty());
        t
    }

    /// Whether `k` is a key of the table.
    pub fn contains(&self, k: &str) -> (r: bool)
        requires
            self.wf(),
        ensures
            r == self.view().contains_key(k@),
    {
        self.index.contains_key(k)
    }

    /// The value stored under `k`.
    pub fn get(&self, k: &str) -> (r: Option<V>)
        requires
            self.wf(),
        ensures
            match r {
                Some(v) => self.view().contains_key(k@) && self.view()[k@] == v,
                None => !self.view().contains_key(k@),
            },
    {
        match self.index.get(k) {
            Some(i) => {
                let i = *i;
                match &self.slots[i] {
                    Some(p) => Some(p.1),
                    None => None,
                }
            },
            None => None,
        }
    }

    /// Stores `v` under `k`, replacing any earlier value.
    pub fn insert(&mut self, k: String, v: V)
        requires
            old(self).wf(),
        ensures
            final(self).wf(),
            final(self).view() == old(self).view().insert(k@, v),
    {
        let ghost old_view = self.view();
        match self.index.get(k.as_str()) {
            Some(i) => {
                let i = *i;
                self.slots.set(i, Some((k, v)));
            },
            None => {
                let i = self.slots.len();
                let k2 = k.clone();
                self.slots.push(Some((k, v)));
                self.index.insert(k2, i);
            },
        }
        assert(self.view() =~= old_view.insert(k@, v));
    }

    /// Removes `k` and its value, if present.
    pub fn remove(&mut self, k: &str)
        requires
            old(self).wf(),
        ensures
            final(self).wf(),
            final(self).view() == old(self).view().remove(k@),
    {
        let ghost old_view = self.view();
        match self.index.get(k) {
            Some(i) => {
                let i = *i;
                self.slots.set(i, None);
                self.index.remove(k);
            },
            None => {},
        }
        assert(self.view() =~= old_view.remove(k@));
    }

    /// The pairs of the table, each key once.
    pub fn entries(&self) -> (es: Vec<(String, V)>)
        requires
            self.wf(),
        ensures
            enumerates(pairs_view(es@), self.view()),
    {
        let mut es: Vec<(String, V)> = Vec::new();
        let ghost idx: Seq<int> = Seq::empty();
        let mut i: usize = 0;
        while i < self.slots.len()
            invariant
                self.wf(),
                i <= self.slots@.len(),
                idx.len() == es@.len(),
                forall|a: int, b: int| 0 <= a < b < idx.len() ==> idx[a] < idx[b],
                forall|a: int| 0 <= a < idx.len() ==> 0 <= #[trigger] idx[a] < i && self.slots@[idx[a]] is Some
                    && self.slots@[idx[a]]->Some_0.0@ == es@[a].0@ && self.slots@[idx[a]]->Some_0.1 == es@[a].1,
                forall|j: int| 0 <= j < i && (#[trigger] self.slots@[j]) is Some ==> exists|a: int| 0 <= a < idx.len() && idx[a] == j,
            decreases self.slots@.len() - i,
        {
            let ghost old_idx = idx;
            match &self.slots[i] {
                Some(p) => {
                    es.push((p.0.clone(), p.1));
                    proof {
                        idx = idx.push(i as int);
                    }
                },
                None => {},
            }
            proof {
                assert forall|j: int| 0 <= j < i + 1 && (#[trigger] self.slots@[j]) is Some implies exists|a: int|
                    0 <= a < idx.len() && idx[a] == j by {
                    if j == i {
                        assert(idx[idx.len() - 1] == j);
                    } else {
                        let a = choose|a: int| 0 <= a < old_idx.len() && old_idx[a] == j;
                        assert(idx[a] == j);
                    }
                }
            }
            i += 1;
        }
        let ghost pv = pairs_view(es@);
        assert forall|a: int, b: int| 0 <= a < b < pv.len() implies pv[a].0 != pv[b].0 by {
            assert(idx[a] < idx[b]);
        }
        assert forall|a: int| 0 <= a < pv.len() implies #[trigger] self.view().contains_key(pv[a].0)
            && self.view()[pv[a].0] == pv[a].1 by {
            let j = idx[a];
            assert(self.slots@[j] is Some);
        }
        assert forall|k: Seq<char>| #[trigger] self.view().contains_key(k) implies exists|a: int|
            0 <= a < pv.len() && pv[a].0 == k by {
            let j = self.index@[k] as int;
            assert(self.slots@[j] is Some);
            let a = choose|a: int| 0 <= a < idx.len() && idx[a] == j;
            assert(pv[a].0 == k);
        }
        es
    }
}

} // verus!
