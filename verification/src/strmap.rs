//! A map keyed by strings, kept as a list of insertions: a later insertion
//! of a key hides the earlier ones.
use vstd::prelude::*;

verus! {

pub struct StrMap<V> {
    entries: Vec<(String, V)>,
}

/// The map that the insertions in `s` build, in order.
pub open spec fn map_of<V>(s: Seq<(String, V)>) -> Map<Seq<char>, V>
    decreases s.len(),
{
    if s.len() == 0 {
        Map::empty()
    } else {
        map_of(s.drop_last()).insert(s.last().0@, s.last().1)
    }
}

impl<V> View for StrMap<V> {
    type V = Map<Seq<char>, V>;

    closed spec fn view(&self) -> Map<Seq<char>, V> {
        map_of(self.entries@)
    }
}

impl<V> StrMap<V> {
    pub fn new() -> (r: Self)
        ensures
            r.view() == Map::<Seq<char>, V>::empty(),
    {
        StrMap { entries: Vec::new() }
    }

    /// The value of `k`.
    pub fn get(&self, k: &String) -> (r: Option<&V>)
        ensures
            self.view().contains_key(k@) ==> (r matches Some(v) && *v == self.view()[k@]),
            !self.view().contains_key(k@) ==> r is None,
    {
        let mut i = self.entries.len();
        proof {
            assert(self.entries@.take(i as int) =~= self.entries@);
        }
        while i > 0
            invariant
                i <= self.entries@.len(),
                forall|j: int|
                    i <= j < self.entries@.len() ==> self.entries@[j].0@ != k@,
                map_of(self.entries@).contains_key(k@) == map_of(
                    self.entries@.take(i as int),
                ).contains_key(k@),
                map_of(self.entries@).contains_key(k@) ==> map_of(self.entries@)[k@] == map_of(
                    self.entries@.take(i as int),
                )[k@],
            decreases i,
        {
            let ghost pre = self.entries@.take(i as int);
            proof {
                assert(pre.drop_last() =~= self.entries@.take(i - 1));
            }
            if self.entries[i - 1].0.eq(k) {
                return Some(&self.entries[i - 1].1);
            }
            i = i - 1;
        }
        None
    }

    /// Whether `k` has a value.
    pub fn contains_key(&self, k: &String) -> (r: bool)
        ensures
            r == self.view().contains_key(k@),
    {
        self.get(k).is_some()
    }

    /// Gives `k` the value `v`.
    pub fn insert(&mut self, k: String, v: V)
        ensures
            final(self).view() == old(self).view().insert(k@, v),
    {
        let ghost prev = self.entries@;
        self.entries.push((k, v));
        proof {
            assert(self.entries@.drop_last() =~= prev);
        }
    }
}

impl<V: Copy> StrMap<V> {
    /// A copy of the map.
    pub fn duplicate(&self) -> (r: Self)
        ensures
            r.view() == self.view(),
    {
        let mut entries: Vec<(String, V)> = Vec::new();
        let mut i: usize = 0;
        while i < self.entries.len()
            invariant
                i <= self.entries@.len(),
                entries@.len() == i,
                forall|j: int|
                    0 <= j < i ==> entries@[j].0@ == self.entries@[j].0@ && entries@[j].1
                        == self.entries@[j].1,
                map_of(entries@) == map_of(self.entries@.take(i as int)),
            decreases self.entries@.len() - i,
        {
            let ghost prev = entries@;
            entries.push((self.entries[i].0.clone(), self.entries[i].1));
            proof {
                assert(entries@.drop_last() =~= prev);
                assert(self.entries@.take(i + 1).drop_last() =~= self.entries@.take(i as int));
            }
            i = i + 1;
        }
        proof {
            assert(self.entries@.take(i as int) =~= self.entries@);
        }
        StrMap { entries }
    }
}

} // verus!
