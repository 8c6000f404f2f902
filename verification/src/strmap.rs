//! A name-to-value table with a `Map` view, used for variable environments
//! and for the function registry.

use vstd::prelude::*;

verus! {

/// A table of named entries. A later entry for a name overrides an earlier
/// one; the view is the mathematical map this induces.
pub struct StrMap<V> {
    pub entries: Vec<(String, V)>,
}

/// The map induced by a sequence of entries: each entry binds its name,
/// later entries winning.
pub open spec fn map_of<V: DeepView>(es: Seq<(String, V)>) -> Map<Seq<char>, V::V>
    decreases es,
{
    if es.len() == 0 {
        Map::empty()
    } else {
        map_of(es.drop_last()).insert(es.last().0@, es.last().1.deep_view())
    }
}

impl<V: DeepView> View for StrMap<V> {
    type V = Map<Seq<char>, V::V>;

    open spec fn view(&self) -> Map<Seq<char>, V::V> {
        map_of(self.entries@)
    }
}

impl<V: DeepView> StrMap<V> {
    /// An empty table.
    pub fn new() -> (r: Self)
        ensures
            r@ == Map::<Seq<char>, V::V>::empty(),
    {
        let r = StrMap { entries: Vec::new() };
        proof {
            assert(r@ =~= Map::<Seq<char>, V::V>::empty());
        }
        r
    }

    /// Binds `k` to `v`, overriding any earlier binding of `k`.
    pub fn insert(&mut self, k: String, v: V)
        ensures
            final(self)@ == old(self)@.insert(k@, v.deep_view()),
    {
        let ghost es0 = self.entries@;
        self.entries.push((k, v));
        proof {
            assert(self.entries@.drop_last() =~= es0);
        }
    }

    fn get_from(&self, k: &String, i: usize) -> (r: Option<&V>)
        requires
            i <= self.entries@.len(),
        ensures
            match r {
                Some(v) => map_of(self.entries@.take(i as int)).contains_key(k@)
                    && v.deep_view() == map_of(self.entries@.take(i as int))[k@],
                None => !map_of(self.entries@.take(i as int)).contains_key(k@),
            },
        decreases i,
    {
        if i == 0 {
            None
        } else {
            let e = &self.entries[i - 1];
            proof {
                assert(self.entries@.take(i as int).drop_last() =~= self.entries@.take(
                    i - 1,
                ));
                assert(self.entries@.take(i as int).last() == self.entries@[i - 1]);
            }
            if string_eq(&e.0, k) {
                Some(&e.1)
            } else {
                self.get_from(k, i - 1)
            }
        }
    }

    /// The value bound to `k`, if any.
    pub fn get(&self, k: &String) -> (r: Option<&V>)
        ensures
            match r {
                Some(v) => self@.contains_key(k@) && v.deep_view() == self@[k@],
                None => !self@.contains_key(k@),
            },
    {
        proof {
            assert(self.entries@.take(self.entries@.len() as int) =~= self.entries@);
        }
        self.get_from(k, self.entries.len())
    }

    /// Whether `k` is bound.
    pub fn contains(&self, k: &String) -> (r: bool)
        ensures
            r == self@.contains_key(k@),
    {
        self.get(k).is_some()
    }
}

/// Two entry sequences with the same names and the same entry values, in
/// the same order, induce the same map.
pub proof fn lemma_map_of_pointwise<V: DeepView>(a: Seq<(String, V)>, b: Seq<(String, V)>)
    requires
        a.len() == b.len(),
        forall|j: int|
            0 <= j < a.len() ==> (#[trigger] a[j]).0@ == b[j].0@ && a[j].1.deep_view()
                == b[j].1.deep_view(),
    ensures
        map_of(a) == map_of(b),
    decreases a,
{
    if a.len() > 0 {
        lemma_map_of_pointwise(a.drop_last(), b.drop_last());
    }
}

/// Whether two strings hold the same text.
pub fn string_eq(a: &String, b: &String) -> (r: bool)
    ensures
        r == (a@ == b@),
{
    a.eq(b)
}

} // verus!
