//! A table of values by name: the values stand in a row, a hash map finds their places.

use crate::text::copy_text;
use dashmap::DashMap;
use vstd::prelude::*;

verus! {

/// What an index holds: each name with its place.
pub uninterp spec fn places_in(index: DashMap<String, usize>) -> Map<Seq<char>, usize>;

/// An index without names.
pub open spec fn no_places() -> Map<Seq<char>, usize> {
    Map::empty()
}

/// Calls `DashMap::new`, which makes a map without entries.
#[verifier::external_body]
fn new_index() -> (index: DashMap<String, usize>)
    ensures
        places_in(index) == no_places(),
{
    DashMap::new()
}

/// Calls `DashMap::insert`, which sets the key's value whether or not the key was there.
#[verifier::external_body]
fn index_insert(index: &mut DashMap<String, usize>, name: String, place: usize)
    ensures
        places_in(*final(index)) == places_in(*old(index)).insert(name@, place),
{
    index.insert(name, place);
}

/// Calls `DashMap::get`, which finds the key's value.
#[verifier::external_body]
fn index_get(index: &DashMap<String, usize>, name: &str) -> (place: Option<usize>)
    ensures
        match place {
            Some(p) => places_in(*index).contains_key(name@) && places_in(*index)[name@] == p,
            None => !places_in(*index).contains_key(name@),
        },
{
    index.get(name).map(|entry| *entry.value())
}

/// Calls `DashMap::remove`, which takes the key's entry out if there is one.
#[verifier::external_body]
fn index_remove(index: &mut DashMap<String, usize>, name: &str)
    ensures
        places_in(*final(index)) == places_in(*old(index)).remove(name@),
{
    index.remove(name);
}

/// Values by name.
pub struct Table<V> {
    index: DashMap<String, usize>,
    rows: Vec<(String, V)>,
}

impl<V> View for Table<V> {
    type V = Map<Seq<char>, V>;

    closed spec fn view(&self) -> Map<Seq<char>, V> {
        Map::new(
            |name: Seq<char>| places_in(self.index).contains_key(name),
            |name: Seq<char>| self.rows@[places_in(self.index)[name] as int].1,
        )
    }
}

impl<V> Table<V> {
    /// The index and the rows agree.
    pub closed spec fn wf(self) -> bool {
        &&& forall|i: int|
            #![trigger self.rows@[i]]
            0 <= i < self.rows@.len() ==> places_in(self.index).contains_key(self.rows@[i].0@)
                && places_in(self.index)[self.rows@[i].0@] == i
        &&& forall|name: Seq<char>| #[trigger]
            places_in(self.index).contains_key(name) ==> places_in(self.index)[name]
                < self.rows@.len() && self.rows@[places_in(self.index)[name] as int].0@ == name
    }

    /// The names in the order of their rows.
    pub closed spec fn names(self) -> Seq<Seq<char>> {
        self.rows@.map_values(|row: (String, V)| row.0@)
    }

    /// A table without values.
    pub fn new() -> (t: Table<V>)
        ensures
            t.wf(),
            t@ == Map::<Seq<char>, V>::empty(),
            t.names() == Seq::<Seq<char>>::empty(),
    {
        let t = Table { index: new_index(), rows: Vec::new() };
        assert(t@ =~= Map::<Seq<char>, V>::empty());
        assert(t.names() =~= Seq::<Seq<char>>::empty());
        t
    }

    /// How many values there are.
    pub fn len(&self) -> (n: usize)
        ensures
            n == self.names().len(),
    {
        self.rows.len()
    }

    /// The value of that name.
    pub fn get(&self, name: &str) -> (r: Option<&V>)
        requires
            self.wf(),
        ensures
            match r {
                Some(v) => self@.contains_key(name@) && self@[name@] == *v,
                None => !self@.contains_key(name@),
            },
    {
        match index_get(&self.index, name) {
            Some(place) => Some(&self.rows[place].1),
            None => None,
        }
    }

    /// Whether there is a value of that name.
    pub fn contains(&self, name: &str) -> (r: bool)
        requires
            self.wf(),
        ensures
            r == self@.contains_key(name@),
    {
        index_get(&self.index, name).is_some()
    }

    /// The name and the value of row `i`.
    pub fn row(&self, i: usize) -> (r: (&str, &V))
        requires
            self.wf(),
            i < self.names().len(),
        ensures
            r.0@ == self.names()[i as int],
            self@.contains_key(r.0@),
            *r.1 == self@[r.0@],
    {
        let row = &self.rows[i];
        (row.0.as_str(), &row.1)
    }

    /// Sets the value of a name.
    pub fn insert(&mut self, name: &str, value: V)
        requires
            old(self).wf(),
        ensures
            final(self).wf(),
            final(self)@ == old(self)@.insert(name@, value),
            final(self).names() == if old(self)@.contains_key(name@) {
                old(self).names()
            } else {
                old(self).names().push(name@)
            },
    {
        match index_get(&self.index, name) {
            Some(place) => {
                self.rows.set(place, (copy_text(name), value));
                assert(self.names() =~= old(self).names());
            },
            None => {
                let place: usize = self.rows.len();
                self.rows.push((copy_text(name), value));
                index_insert(&mut self.index, copy_text(name), place);
                assert(self.names() =~= old(self).names().push(name@));
            },
        }
        assert(self@ =~= old(self)@.insert(name@, value));
    }

    /// Takes the value of a name out. The last row fills the gap.
    pub fn remove(&mut self, name: &str) -> (r: Option<V>)
        requires
            old(self).wf(),
        ensures
            final(self).wf(),
            final(self)@ == old(self)@.remove(name@),
            match r {
                Some(v) => old(self)@.contains_key(name@) && old(self)@[name@] == v,
                None => !old(self)@.contains_key(name@),
            },
    {
        match index_get(&self.index, name) {
            None => {
                assert(old(self)@.remove(name@) =~= old(self)@);
                None
            },
            Some(place) => {
                let ghost places = places_in(self.index);
                let ghost rows = self.rows@;
                let last: usize = self.rows.len() - 1;
                assert(rows[last as int].0@ == rows.last().0@);
                let (_, value) = self.rows.swap_remove(place);
                index_remove(&mut self.index, name);
                if place != last {
                    let moved = copy_text(self.rows[place].0.as_str());
                    assert(moved@ == rows[last as int].0@);
                    index_insert(&mut self.index, moved, place);
                }
                proof {
                    assert forall|i: int|
                        #![trigger self.rows@[i]]
                        0 <= i < self.rows@.len() implies places_in(self.index).contains_key(
                        self.rows@[i].0@,
                    ) && places_in(self.index)[self.rows@[i].0@] == i by {
                        assert(rows[i].0@ == rows[i].0@);
                        assert(places[rows[i].0@] == i);
                        assert(places[rows[last as int].0@] == last);
                        assert(places[rows[place as int].0@] == place);
                    }
                    assert forall|n: Seq<char>| #[trigger]
                        places_in(self.index).contains_key(n) implies places_in(self.index)[n]
                        < self.rows@.len() && self.rows@[places_in(self.index)[n] as int].0@
                        == n by {
                        assert(places.contains_key(rows[last as int].0@));
                        if n != rows[last as int].0@ {
                            assert(places.contains_key(n));
                            assert(places[n] != last);
                        }
                    }
                    assert(self@ =~= old(self)@.remove(name@)) by {
                        assert forall|n: Seq<char>| #[trigger]
                            self@.contains_key(n) implies self@[n] == old(self)@[n] by {
                            if n != rows[last as int].0@ {
                                assert(places[n] != last);
                            }
                        }
                        assert forall|n: Seq<char>|
                            old(self)@.contains_key(n) && n != name@ implies #[trigger] self@.contains_key(
                            n,
                        ) by {
                            assert(places.contains_key(n));
                        }
                    }
                }
                Some(value)
            },
        }
    }
}

/// The rows name each value once, and every value that there is.
pub proof fn lemma_names<V>(t: Table<V>)
    requires
        t.wf(),
    ensures
        t.names().no_duplicates(),
        forall|name: Seq<char>| #[trigger] t@.contains_key(name) <==> t.names().contains(name),
{
    assert forall|i: int, j: int|
        0 <= i < t.names().len() && 0 <= j < t.names().len() && i != j implies t.names()[i]
        != t.names()[j] by {
        assert(t.rows@[i].0@ == t.names()[i]);
        assert(t.rows@[j].0@ == t.names()[j]);
    }
    assert forall|name: Seq<char>| #[trigger] t@.contains_key(name) <==> t.names().contains(
        name,
    ) by {
        if t@.contains_key(name) {
            let i = places_in(t.index)[name] as int;
            assert(t.names()[i] == name);
        }
        if t.names().contains(name) {
            let i = choose|i: int| 0 <= i < t.names().len() && t.names()[i] == name;
            assert(t.rows@[i].0@ == name);
        }
    }
}

/// The values of the values of a table.
pub open spec fn views<V: View>(m: Map<Seq<char>, V>) -> Map<Seq<char>, V::V> {
    m.map_values(|v: V| v@)
}

/// Setting a value sets its value.
pub proof fn lemma_views_insert<V: View>(m: Map<Seq<char>, V>, name: Seq<char>, v: V)
    ensures
        views(m.insert(name, v)) == views(m).insert(name, v@),
{
    assert(views(m.insert(name, v)) =~= views(m).insert(name, v@));
}

/// Taking a value out takes its value out.
pub proof fn lemma_views_remove<V: View>(m: Map<Seq<char>, V>, name: Seq<char>)
    ensures
        views(m.remove(name)) == views(m).remove(name),
{
    assert(views(m.remove(name)) =~= views(m).remove(name));
}

/// Taking a value out and setting another is setting the other.
pub proof fn lemma_views_replace<V: View>(m: Map<Seq<char>, V>, name: Seq<char>, v: V)
    ensures
        views(m.remove(name).insert(name, v)) == views(m).insert(name, v@),
{
    assert(views(m.remove(name).insert(name, v)) =~= views(m).insert(name, v@));
}

} // verus!
