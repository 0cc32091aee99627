//! A map from names to values, kept in ascending order of the names.

use crate::text::{text_order, TextOrder};
#[allow(unused_imports)]
use crate::text::{lemma_text_before_irreflexive, lemma_text_before_transitive, text_before};
use vstd::prelude::*;

verus! {

/// Whether entries stand in strictly ascending order of their names.
pub open spec fn ascending<T>(entries: Seq<(Seq<char>, T)>) -> bool {
    forall|i: int, j: int|
        0 <= i < j < entries.len() ==> text_before(#[trigger] entries[i].0, #[trigger] entries[j].0)
}

/// Whether some entry has the name.
pub open spec fn has_name<T>(entries: Seq<(Seq<char>, T)>, name: Seq<char>) -> bool {
    exists|i: int| 0 <= i < entries.len() && #[trigger] entries[i].0 == name
}

/// The value under a name.
pub open spec fn value_of<T>(entries: Seq<(Seq<char>, T)>, name: Seq<char>) -> T {
    let i = choose|i: int| 0 <= i < entries.len() && #[trigger] entries[i].0 == name;
    entries[i].1
}

/// Whether no name stands on two entries.
pub open spec fn distinct_names<T>(entries: Seq<(Seq<char>, T)>) -> bool {
    forall|i: int, j: int|
        0 <= i < j < entries.len() ==> #[trigger] entries[i].0 != #[trigger] entries[j].0
}

/// Whether two lists have the same entries, in whatever order.
pub open spec fn same_entries<T>(a: Seq<(Seq<char>, T)>, b: Seq<(Seq<char>, T)>) -> bool {
    forall|e: (Seq<char>, T)| #[trigger] a.contains(e) <==> b.contains(e)
}

pub proof fn lemma_ascending_distinct<T>(entries: Seq<(Seq<char>, T)>)
    requires
        ascending(entries),
    ensures
        distinct_names(entries),
{
    assert forall|i: int, j: int| 0 <= i < j < entries.len() implies #[trigger] entries[i].0
        != #[trigger] entries[j].0 by {
        lemma_text_before_irreflexive(entries[i].0);
    }
}

/// An entry of a list with distinct names is found under its name.
pub proof fn lemma_value_of<T>(entries: Seq<(Seq<char>, T)>, index: int)
    requires
        distinct_names(entries),
        0 <= index < entries.len(),
    ensures
        has_name(entries, entries[index].0),
        value_of(entries, entries[index].0) == entries[index].1,
{
    let name = entries[index].0;
    assert(entries[index].0 == name);
    let i = choose|i: int| 0 <= i < entries.len() && #[trigger] entries[i].0 == name;
    assert(i == index);
}

/// Two ascending lists with the same entries are the same list.
pub proof fn lemma_ascending_unique<T>(a: Seq<(Seq<char>, T)>, b: Seq<(Seq<char>, T)>)
    requires
        ascending(a),
        ascending(b),
        same_entries(a, b),
    ensures
        a == b,
    decreases a.len(),
{
    if a.len() == 0 {
        if b.len() > 0 {
            assert(b.contains(b[0]));
            assert(a.contains(b[0]));
        }
        assert(a =~= b);
    } else {
        assert(a.contains(a[0]));
        assert(b.contains(a[0]));
        let i = choose|i: int| 0 <= i < b.len() && b[i] == a[0];
        assert(b.contains(b[0]));
        assert(a.contains(b[0]));
        let j = choose|j: int| 0 <= j < a.len() && a[j] == b[0];
        if i > 0 {
            assert(text_before(b[0].0, b[i].0));
            if j > 0 {
                assert(text_before(a[0].0, a[j].0));
                lemma_text_before_transitive(a[0].0, b[0].0, a[0].0);
            }
            lemma_text_before_irreflexive(a[0].0);
        }
        assert(a[0] == b[0]);
        let c = a.drop_first();
        let d = b.drop_first();
        lemma_ascending_distinct(a);
        lemma_ascending_distinct(b);
        assert forall|e: (Seq<char>, T)| #[trigger] c.contains(e) implies d.contains(e) by {
            let k = choose|k: int| 0 <= k < c.len() && c[k] == e;
            assert(a[k + 1] == e);
            assert(a.contains(e));
            assert(b.contains(e));
            let m = choose|m: int| 0 <= m < b.len() && b[m] == e;
            assert(a[0].0 != a[k + 1].0);
            assert(d[m - 1] == e);
        }
        assert forall|e: (Seq<char>, T)| #[trigger] d.contains(e) implies c.contains(e) by {
            let k = choose|k: int| 0 <= k < d.len() && d[k] == e;
            assert(b[k + 1] == e);
            assert(b.contains(e));
            assert(a.contains(e));
            let m = choose|m: int| 0 <= m < a.len() && a[m] == e;
            assert(b[0].0 != b[k + 1].0);
            assert(c[m - 1] == e);
        }
        assert forall|i: int, j: int| 0 <= i < j < c.len() implies text_before(
            #[trigger] c[i].0,
            #[trigger] c[j].0,
        ) by {
            assert(text_before(a[i + 1].0, a[j + 1].0));
        }
        assert forall|i: int, j: int| 0 <= i < j < d.len() implies text_before(
            #[trigger] d[i].0,
            #[trigger] d[j].0,
        ) by {
            assert(text_before(b[i + 1].0, b[j + 1].0));
        }
        lemma_ascending_unique(c, d);
        assert(a =~= seq![a[0]] + c);
        assert(b =~= seq![b[0]] + d);
    }
}

/// Lists with the same entries have the same names.
pub proof fn lemma_same_names<T>(a: Seq<(Seq<char>, T)>, b: Seq<(Seq<char>, T)>, name: Seq<char>)
    requires
        same_entries(a, b),
    ensures
        has_name(a, name) == has_name(b, name),
{
    if has_name(a, name) {
        let k = choose|k: int| 0 <= k < a.len() && #[trigger] a[k].0 == name;
        assert(a.contains(a[k]));
        let m = choose|m: int| 0 <= m < b.len() && b[m] == a[k];
        assert(b[m].0 == name);
    }
    if has_name(b, name) {
        let k = choose|k: int| 0 <= k < b.len() && #[trigger] b[k].0 == name;
        assert(b.contains(b[k]) && a.contains(b[k]));
        let m = choose|m: int| 0 <= m < a.len() && a[m] == b[k];
        assert(a[m].0 == name);
    }
}

/// A name that no entry of a catalog has is distinct from all names of the same entries in
/// another order.
pub proof fn lemma_fresh_entry<T>(
    catalog: Seq<(Seq<char>, T)>,
    listed: Seq<(Seq<char>, T)>,
    entry: (Seq<char>, T),
)
    requires
        same_entries(catalog, listed),
        !has_name(catalog, entry.0),
        distinct_names(listed),
    ensures
        distinct_names(listed.push(entry)),
        forall|e: (Seq<char>, T)| #[trigger] catalog.contains(e) ==> e.0 != entry.0,
{
    assert forall|e: (Seq<char>, T)| #[trigger] catalog.contains(e) implies e.0 != entry.0 by {
        let k = choose|k: int| 0 <= k < catalog.len() && catalog[k] == e;
        assert(catalog[k].0 == e.0);
    }
    let more = listed.push(entry);
    assert forall|i: int, j: int| 0 <= i < j < more.len() implies #[trigger] more[i].0
        != #[trigger] more[j].0 by {
        if j == listed.len() {
            assert(listed.contains(listed[i]));
            assert(catalog.contains(listed[i]));
        } else {
            assert(listed[i].0 != listed[j].0);
        }
    }
}

/// A map from names to values, kept in ascending order of the names.
#[derive(Debug, PartialEq)]
pub struct Catalog<V: View> {
    entries: Vec<(String, V)>,
}

impl<V: View> View for Catalog<V> {
    type V = Seq<(Seq<char>, V::V)>;

    closed spec fn view(&self) -> Seq<(Seq<char>, V::V)> {
        self.entries@.map_values(|e: (String, V)| (e.0@, e.1@))
    }
}

impl<V: View> Catalog<V> {
    /// Catalogs are in ascending order at all times.
    #[verifier::type_invariant]
    pub open spec fn in_order(self) -> bool {
        ascending(self@)
    }

    /// An empty map.
    pub fn new() -> (catalog: Self)
        ensures
            catalog@ == Seq::<(Seq<char>, V::V)>::empty(),
    {
        let entries: Vec<(String, V)> = Vec::new();
        assert(entries@.map_values(|e: (String, V)| (e.0@, e.1@)) =~= Seq::empty());
        Catalog { entries }
    }

    /// How many names the map holds.
    pub fn len(&self) -> (count: usize)
        ensures
            count == self@.len(),
            ascending(self@),
    {
        proof {
            use_type_invariant(self);
        }
        self.entries.len()
    }

    /// The name at a place in the order.
    pub fn name_at(&self, index: usize) -> (name: &String)
        requires
            index < self@.len(),
        ensures
            name@ == self@[index as int].0,
    {
        &self.entries[index].0
    }

    /// The value at a place in the order.
    pub fn value_at(&self, index: usize) -> (value: &V)
        requires
            index < self@.len(),
        ensures
            value@ == self@[index as int].1,
    {
        &self.entries[index].1
    }

    /// The place of a name, or the place where it belongs.
    fn place_of(&self, name: &str) -> (place: (bool, usize))
        ensures
            place.0 == has_name(self@, name@),
            place.0 ==> place.1 < self@.len() && self@[place.1 as int].0 == name@,
            !place.0 ==> place.1 <= self@.len(),
            forall|i: int|
                0 <= i < place.1 && i < self@.len() ==> text_before(#[trigger] self@[i].0, name@),
            forall|i: int|
                place.1 <= i < self@.len() && !place.0 ==> text_before(
                    name@,
                    #[trigger] self@[i].0,
                ),
    {
        proof {
            use_type_invariant(self);
        }
        let mut low: usize = 0;
        let mut high: usize = self.entries.len();
        while low < high
            invariant
                ascending(self@),
                low <= high <= self@.len(),
                self@.len() == self.entries.len(),
                forall|i: int| 0 <= i < low ==> text_before(#[trigger] self@[i].0, name@),
                forall|i: int|
                    high <= i < self@.len() ==> text_before(name@, #[trigger] self@[i].0),
            decreases high - low,
        {
            let middle: usize = low + (high - low) / 2;
            match text_order(self.entries[middle].0.as_str(), name) {
                TextOrder::Same => {
                    assert(self@[middle as int].0 == name@);
                    return (true, middle);
                },
                TextOrder::Before => {
                    proof {
                        assert forall|i: int| 0 <= i < middle + 1 implies text_before(
                            #[trigger] self@[i].0,
                            name@,
                        ) by {
                            if i < middle {
                                lemma_text_before_transitive(
                                    self@[i].0,
                                    self@[middle as int].0,
                                    name@,
                                );
                            }
                        }
                    }
                    low = middle + 1;
                },
                TextOrder::After => {
                    proof {
                        assert forall|i: int| middle <= i < self@.len() implies text_before(
                            name@,
                            #[trigger] self@[i].0,
                        ) by {
                            if i > middle {
                                lemma_text_before_transitive(
                                    name@,
                                    self@[middle as int].0,
                                    self@[i].0,
                                );
                            }
                        }
                    }
                    high = middle;
                },
            }
        }
        proof {
            lemma_text_before_irreflexive(name@);
        }
        (false, low)
    }

    /// Whether the map holds a name.
    pub fn contains(&self, name: &str) -> (found: bool)
        ensures
            found == has_name(self@, name@),
    {
        self.place_of(name).0
    }

    /// The value under a name.
    pub fn get(&self, name: &str) -> (value: Option<&V>)
        ensures
            value is Some <==> has_name(self@, name@),
            value matches Some(v) ==> v@ == value_of(self@, name@),
    {
        let (found, index) = self.place_of(name);
        if found {
            proof {
                use_type_invariant(self);
                lemma_ascending_distinct(self@);
                lemma_value_of(self@, index as int);
            }
            Some(&self.entries[index].1)
        } else {
            None
        }
    }

    /// Takes the value under a name out of the map.
    pub fn remove(&mut self, name: &str) -> (value: Option<V>)
        ensures
            value is Some <==> has_name(old(self)@, name@),
            value matches Some(v) ==> v@ == value_of(old(self)@, name@),
            forall|e: (Seq<char>, V::V)| #[trigger]
                final(self)@.contains(e) <==> old(self)@.contains(e) && e.0 != name@,
            ascending(final(self)@),
    {
        let (found, index) = self.place_of(name);
        proof {
            use_type_invariant(&*self);
            lemma_ascending_distinct(self@);
        }
        let ghost before = self@;
        if !found {
            assert forall|e: (Seq<char>, V::V)| #[trigger] before.contains(e) implies e.0
                != name@ by {
                let k = choose|k: int| 0 <= k < before.len() && before[k] == e;
                assert(before[k].0 == e.0);
            }
            return None;
        }
        proof {
            lemma_value_of(before, index as int);
        }
        let mut entries: Vec<(String, V)> = Vec::new();
        core::mem::swap(&mut entries, &mut self.entries);
        let ghost held = entries@;
        let (_, value) = entries.remove(index);
        let ghost after = entries@.map_values(|e: (String, V)| (e.0@, e.1@));
        proof {
            assert(after =~= before.remove(index as int));
            assert forall|e: (Seq<char>, V::V)| #[trigger] after.contains(e) implies before.contains(
                e,
            ) && e.0 != name@ by {
                let k = choose|k: int| 0 <= k < after.len() && after[k] == e;
                let m = if k < index { k } else { k + 1 };
                assert(before[m] == e);
                assert(before[m].0 != before[index as int].0);
            }
            assert forall|e: (Seq<char>, V::V)| #[trigger]
                before.contains(e) && e.0 != name@ implies after.contains(e) by {
                let k = choose|k: int| 0 <= k < before.len() && before[k] == e;
                let m = if k < index { k } else { k - 1 };
                assert(after[m] == e);
            }
            assert forall|i: int, j: int| 0 <= i < j < after.len() implies text_before(
                #[trigger] after[i].0,
                #[trigger] after[j].0,
            ) by {
                let k = if i < index { i } else { i + 1 };
                let m = if j < index { j } else { j + 1 };
                assert(text_before(before[k].0, before[m].0));
            }
        }
        self.entries = entries;
        Some(value)
    }

    /// Puts a value under a name and gives back what stood there.
    pub fn insert(&mut self, name: String, value: V) -> (previous: Option<V>)
        ensures
            previous is Some <==> has_name(old(self)@, name@),
            previous matches Some(v) ==> v@ == value_of(old(self)@, name@),
            forall|e: (Seq<char>, V::V)| #[trigger]
                final(self)@.contains(e) <==> e == (name@, value@) || old(self)@.contains(e) && e.0
                    != name@,
            ascending(final(self)@),
            has_name(final(self)@, name@),
            value_of(final(self)@, name@) == value@,
    {
        let ghost start = self@;
        let previous = self.remove(name.as_str());
        let (_, index) = self.place_of(name.as_str());
        proof {
            use_type_invariant(&*self);
        }
        let ghost before = self@;
        proof {
            if has_name(before, name@) {
                let k = choose|k: int| 0 <= k < before.len() && #[trigger] before[k].0 == name@;
                assert(before.contains(before[k]));
            }
        }
        let mut entries: Vec<(String, V)> = Vec::new();
        core::mem::swap(&mut entries, &mut self.entries);
        let ghost entry = (name@, value@);
        entries.insert(index, (name, value));
        let ghost after = entries@.map_values(|e: (String, V)| (e.0@, e.1@));
        proof {
            assert(after =~= before.insert(index as int, entry));
            assert(after[index as int] == entry);
            assert forall|e: (Seq<char>, V::V)| #[trigger] after.contains(e) implies e == entry
                || before.contains(e) by {
                let k = choose|k: int| 0 <= k < after.len() && after[k] == e;
                if k < index {
                    assert(before[k] == e);
                } else if k > index {
                    assert(before[k - 1] == e);
                }
            }
            assert forall|e: (Seq<char>, V::V)| #[trigger] before.contains(
                e,
            ) implies after.contains(e) by {
                let k = choose|k: int| 0 <= k < before.len() && before[k] == e;
                let m = if k < index { k } else { k + 1 };
                assert(after[m] == e);
            }
            assert forall|i: int, j: int| 0 <= i < j < after.len() implies text_before(
                #[trigger] after[i].0,
                #[trigger] after[j].0,
            ) by {
                let k = if i < index { i } else { i - 1 };
                let m = if j < index { j } else { j - 1 };
                if i != index && j != index {
                    assert(text_before(before[k].0, before[m].0));
                } else if i == index {
                    assert(text_before(entry.0, before[m].0));
                } else {
                    assert(text_before(before[k].0, entry.0));
                }
            }
        }
        self.entries = entries;
        assert forall|e: (Seq<char>, V::V)| #[trigger] self@.contains(e) <==> e == entry
            || start.contains(e) && e.0 != entry.0 by {
            assert(self@ == after);
            assert(after.contains(e) <==> e == entry || before.contains(e));
        }
        proof {
            lemma_ascending_distinct(after);
            lemma_value_of(after, index as int);
        }
        previous
    }
}

/// Values that can be copied with all that their view shows.
pub trait Duplicate: View + Sized {
    /// A copy.
    fn duplicate(&self) -> (copy: Self)
        ensures
            copy@ == self@,
    ;
}

impl<V: Duplicate> Clone for Catalog<V> {
    fn clone(&self) -> (copy: Self)
        ensures
            copy@ == self@,
    {
        proof {
            use_type_invariant(self);
        }
        let mut entries: Vec<(String, V)> = Vec::new();
        let mut index: usize = 0;
        while index < self.entries.len()
            invariant
                index <= self.entries.len(),
                entries@.map_values(|e: (String, V)| (e.0@, e.1@)) == self@.take(index as int),
            decreases self.entries.len() - index,
        {
            let ghost before = entries@.map_values(|e: (String, V)| (e.0@, e.1@));
            let name = self.entries[index].0.clone();
            let value = self.entries[index].1.duplicate();
            entries.push((name, value));
            index = index + 1;
            assert(entries@.map_values(|e: (String, V)| (e.0@, e.1@)) =~= before.push(
                self@[index - 1],
            ));
            assert(self@.take(index as int) =~= before.push(self@[index - 1]));
        }
        assert(self@.take(self@.len() as int) =~= self@);
        Catalog { entries }
    }
}

/// A value that was put under a name is found under it, and nothing else is changed: every other
/// name holds what it held.
pub proof fn law_inserted_values<V: View>(
    catalog: &mut Catalog<V>,
    name: String,
    value: V,
    previous: Option<V>,
    key: &str,
    before: Option<&V>,
    after: Option<&V>,
)
    requires
        ascending(old(catalog)@),
        call_ensures(Catalog::<V>::insert, (catalog, name, value), previous),
        call_ensures(Catalog::<V>::get, (&*old(catalog), key), before),
        call_ensures(Catalog::<V>::get, (&*final(catalog), key), after),
    ensures
        key@ == name@ ==> after is Some && after->0@ == value@,
        key@ == name@ ==> (previous is Some <==> before is Some),
        key@ == name@ && previous is Some ==> previous->0@ == before->0@,
        key@ != name@ ==> (after is Some <==> before is Some),
        key@ != name@ && before is Some ==> after->0@ == before->0@,
{
    if key@ != name@ {
        lemma_same_value(old(catalog)@, final(catalog)@, key@);
    }
}

/// A value that was taken out is not found any more, and nothing else is changed.
pub proof fn law_removed_values<V: View>(
    catalog: &mut Catalog<V>,
    name: &str,
    taken: Option<V>,
    key: &str,
    before: Option<&V>,
    after: Option<&V>,
)
    requires
        ascending(old(catalog)@),
        call_ensures(Catalog::<V>::remove, (catalog, name), taken),
        call_ensures(Catalog::<V>::get, (&*old(catalog), key), before),
        call_ensures(Catalog::<V>::get, (&*final(catalog), key), after),
    ensures
        key@ == name@ ==> after is None,
        key@ == name@ ==> (taken is Some <==> before is Some),
        key@ == name@ && taken is Some ==> taken->0@ == before->0@,
        key@ != name@ ==> (after is Some <==> before is Some),
        key@ != name@ && before is Some ==> after->0@ == before->0@,
{
    let after_entries = final(catalog)@;
    if key@ != name@ {
        lemma_same_value(old(catalog)@, after_entries, key@);
    } else if has_name(after_entries, key@) {
        let k = choose|k: int|
            0 <= k < after_entries.len() && #[trigger] after_entries[k].0 == key@;
        assert(after_entries.contains(after_entries[k]));
    }
}

/// A name whose entries are the same in two ordered lists has the same value in both.
proof fn lemma_same_value<T>(a: Seq<(Seq<char>, T)>, b: Seq<(Seq<char>, T)>, name: Seq<char>)
    requires
        ascending(a),
        ascending(b),
        forall|e: (Seq<char>, T)| e.0 == name ==> (#[trigger] a.contains(e) <==> b.contains(e)),
    ensures
        has_name(a, name) == has_name(b, name),
        has_name(a, name) ==> value_of(a, name) == value_of(b, name),
{
    lemma_ascending_distinct(a);
    lemma_ascending_distinct(b);
    if has_name(a, name) {
        let k = choose|k: int| 0 <= k < a.len() && #[trigger] a[k].0 == name;
        assert(a.contains(a[k]));
        assert(b.contains(a[k]));
        let m = choose|m: int| 0 <= m < b.len() && b[m] == a[k];
        assert(b[m].0 == name);
        lemma_value_of(a, k);
        lemma_value_of(b, m);
    }
    if has_name(b, name) {
        let k = choose|k: int| 0 <= k < b.len() && #[trigger] b[k].0 == name;
        assert(b.contains(b[k]));
        assert(a.contains(b[k]));
        let m = choose|m: int| 0 <= m < a.len() && a[m] == b[k];
        assert(a[m].0 == name);
    }
}

/// What stands at a place in the order is found under its name. An empty map holds no name, and a
/// name is held exactly if a value is found under it.
pub proof fn law_places_and_names<V: View>(
    catalog: Catalog<V>,
    count: usize,
    index: usize,
    name: &String,
    value: &V,
    key: &str,
    found: Option<&V>,
    held: bool,
    empty: Catalog<V>,
    none: Option<&V>,
)
    requires
        ascending(catalog@),
        call_ensures(Catalog::<V>::len, (&catalog,), count),
        index < count,
        call_ensures(Catalog::<V>::name_at, (&catalog, index), name),
        call_ensures(Catalog::<V>::value_at, (&catalog, index), value),
        call_ensures(Catalog::<V>::get, (&catalog, key), found),
        call_ensures(Catalog::<V>::contains, (&catalog, key), held),
        call_ensures(Catalog::<V>::new, (), empty),
        call_ensures(Catalog::<V>::get, (&empty, key), none),
    ensures
        key@ == name@ ==> found is Some && found->0@ == value@,
        held <==> found is Some,
        none is None,
        held ==> exists|i: int| 0 <= i < count && #[trigger] catalog@[i].0 == key@,
{
    lemma_ascending_distinct(catalog@);
    lemma_value_of(catalog@, index as int);
}

/// Names stand in the order of the texts: of two places, the one in front has the name that comes
/// first.
pub proof fn law_names_ascend<V: View>(
    catalog: Catalog<V>,
    count: usize,
    i: usize,
    j: usize,
    first: &String,
    second: &String,
    a: &str,
    b: &str,
    order: TextOrder,
)
    requires
        call_ensures(Catalog::<V>::len, (&catalog,), count),
        i < j < count,
        call_ensures(Catalog::<V>::name_at, (&catalog, i), first),
        call_ensures(Catalog::<V>::name_at, (&catalog, j), second),
        a@ == first@,
        b@ == second@,
        call_ensures(text_order, (a, b), order),
    ensures
        order is Before,
{
    assert(text_before(catalog@[i as int].0, catalog@[j as int].0));
    lemma_text_before_irreflexive(a@);
    if text_before(b@, a@) {
        lemma_text_before_transitive(a@, b@, a@);
    }
}

} // verus!
