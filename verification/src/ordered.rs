//! An ordered map: entries held in ascending key order.

use crate::text;
use crate::text::{place_text, Placement};
use vstd::prelude::*;

verus! {

/// A type whose values can be copied without changing what they stand for.
pub trait Replica: View + Sized {
    /// A value with the same view.
    fn replica(&self) -> (copy: Self)
        ensures
            copy@ == self@,
    ;
}

impl Replica for String {
    fn replica(&self) -> (copy: Self) {
        self.clone()
    }
}

impl Replica for u64 {
    fn replica(&self) -> (copy: Self) {
        *self
    }
}

/// The views of `items`, in order.
pub open spec fn views<T: View>(items: Seq<T>) -> Seq<T::V> {
    Seq::new(items.len(), |i: int| items[i]@)
}

/// Copies each of `items`.
pub fn replicas<T: Replica>(items: &[T]) -> (copies: Vec<T>)
    ensures
        views(copies@) == views(items@),
{
    let mut copies: Vec<T> = Vec::new();
    let mut i: usize = 0;
    while i < items.len()
        invariant
            i <= items@.len(),
            copies@.len() == i,
            forall|j: int| 0 <= j < i ==> (#[trigger] copies@[j])@ == items@[j]@,
        decreases items@.len() - i,
    {
        copies.push(items[i].replica());
        i = i + 1;
    }
    assert(views(copies@) =~= views(items@));
    copies
}

/// A key of an [`OrderedMap`]: a type whose views are totally ordered.
pub trait MapKey: View + Sized {
    /// `a` comes strictly before `b`.
    spec fn before(a: Self::V, b: Self::V) -> bool;

    /// No key comes before itself.
    proof fn irreflexive(a: Self::V)
        ensures
            !Self::before(a, a),
    ;

    /// The order is transitive.
    proof fn transitive(a: Self::V, b: Self::V, c: Self::V)
        requires
            Self::before(a, b),
            Self::before(b, c),
        ensures
            Self::before(a, c),
    ;

    /// Of two distinct keys one comes before the other.
    proof fn connected(a: Self::V, b: Self::V)
        ensures
            Self::before(a, b) || a == b || Self::before(b, a),
    ;

    /// Places `self` relative to `other`.
    fn place(&self, other: &Self) -> (placement: Placement)
        ensures
            match placement {
                Placement::Before => Self::before(self@, other@),
                Placement::Same => self@ == other@,
                Placement::After => Self::before(other@, self@),
            },
    ;
}

impl MapKey for String {
    open spec fn before(a: Seq<char>, b: Seq<char>) -> bool {
        text::text_before(a, b)
    }

    proof fn irreflexive(a: Seq<char>) {
        text::lemma_text_before_irreflexive(a);
    }

    proof fn transitive(a: Seq<char>, b: Seq<char>, c: Seq<char>) {
        text::lemma_text_before_transitive(a, b, c);
    }

    proof fn connected(a: Seq<char>, b: Seq<char>) {
        text::lemma_text_before_connected(a, b);
    }

    fn place(&self, other: &Self) -> (placement: Placement) {
        place_text(self.as_str(), other.as_str())
    }
}

impl MapKey for u64 {
    open spec fn before(a: u64, b: u64) -> bool {
        a < b
    }

    proof fn irreflexive(a: u64) {
    }

    proof fn transitive(a: u64, b: u64, c: u64) {
    }

    proof fn connected(a: u64, b: u64) {
    }

    fn place(&self, other: &Self) -> (placement: Placement) {
        if *self < *other {
            Placement::Before
        } else if *self == *other {
            Placement::Same
        } else {
            Placement::After
        }
    }
}

/// The keys of `entries` ascend strictly.
pub open spec fn ascending<K: MapKey, B>(entries: Seq<(K::V, B)>) -> bool {
    forall|i: int, j: int|
        0 <= i < j < entries.len() ==> K::before(#[trigger] entries[i].0, #[trigger] entries[j].0)
}

/// Position `i` of `entries` holds `key`.
pub open spec fn holds_at<A, B>(entries: Seq<(A, B)>, key: A, i: int) -> bool {
    0 <= i < entries.len() && entries[i].0 == key
}

/// The map that `entries` lists.
pub open spec fn dictionary<A, B>(entries: Seq<(A, B)>) -> Map<A, B> {
    Map::new(
        |key: A| exists|i: int| holds_at(entries, key, i),
        |key: A| entries[choose|i: int| holds_at(entries, key, i)].1,
    )
}

/// The map made by inserting `entries` in order, a later one replacing an
/// earlier one with the same key.
pub open spec fn collected<A, B>(entries: Seq<(A, B)>) -> Map<A, B>
    decreases entries.len(),
{
    if entries.len() == 0 {
        Map::empty()
    } else {
        collected(entries.drop_last()).insert(entries.last().0, entries.last().1)
    }
}

/// The entries of `map` in ascending key order.
pub open spec fn sorted_entries<K: MapKey, B>(map: Map<K::V, B>) -> Seq<(K::V, B)> {
    choose|entries: Seq<(K::V, B)>|
        #![trigger ascending::<K, B>(entries)]
        ascending::<K, B>(entries) && dictionary(entries) == map
}

/// No two entries have the same key.
pub open spec fn distinct_keys<A, B>(entries: Seq<(A, B)>) -> bool {
    forall|i: int, j: int|
        0 <= i < j < entries.len() ==> (#[trigger] entries[i]).0 != (#[trigger] entries[j]).0
}

/// Every inserted key is there, under the value of one of its entries.
pub proof fn lemma_collected<A, B>(entries: Seq<(A, B)>)
    ensures
        forall|i: int|
            0 <= i < entries.len() ==> collected(entries).contains_key(
                (#[trigger] entries[i]).0,
            ),
        forall|key: A| #[trigger]
            collected(entries).contains_key(key) ==> exists|i: int|
                holds_at(entries, key, i) && collected(entries)[key] == (#[trigger] entries[i]).1,
    decreases entries.len(),
{
    if entries.len() > 0 {
        let rest = entries.drop_last();
        lemma_collected(rest);
        assert forall|i: int| 0 <= i < entries.len() implies collected(entries).contains_key(
            (#[trigger] entries[i]).0,
        ) by {
            if i < rest.len() {
                assert(rest[i] == entries[i]);
            }
        }
        assert forall|key: A| #[trigger] collected(entries).contains_key(key) implies exists|i: int|
            holds_at(entries, key, i) && collected(entries)[key] == (#[trigger] entries[i]).1 by {
            if key == entries.last().0 {
                let i = entries.len() - 1;
                assert(holds_at(entries, key, i) && collected(entries)[key] == entries[i].1);
            } else {
                assert(collected(rest).contains_key(key));
                let i = choose|i: int|
                    holds_at(rest, key, i) && collected(rest)[key] == (#[trigger] rest[i]).1;
                assert(holds_at(entries, key, i) && collected(entries)[key] == entries[i].1);
            }
        }
    }
}

/// Where no key repeats, each entry's key is under that entry's value.
pub proof fn lemma_collected_distinct<A, B>(entries: Seq<(A, B)>, i: int)
    requires
        distinct_keys(entries),
        0 <= i < entries.len(),
    ensures
        collected(entries).contains_key(entries[i].0),
        collected(entries)[entries[i].0] == entries[i].1,
{
    lemma_collected(entries);
    let key = entries[i].0;
    assert(collected(entries).contains_key(key));
    let j = choose|j: int|
        holds_at(entries, key, j) && collected(entries)[key] == (#[trigger] entries[j]).1;
    assert(i == j);
}

/// In an ascending listing a key stands at one position only.
pub proof fn lemma_position_unique<K: MapKey, B>(entries: Seq<(K::V, B)>, i: int)
    requires
        ascending::<K, B>(entries),
        0 <= i < entries.len(),
    ensures
        dictionary(entries).contains_key(entries[i].0),
        dictionary(entries)[entries[i].0] == entries[i].1,
{
    let key = entries[i].0;
    assert(holds_at(entries, key, i));
    let j = choose|j: int| holds_at(entries, key, j);
    if i < j || j < i {
        K::irreflexive(key);
    }
}

/// Two ascending listings of one map are the same listing.
pub proof fn lemma_ascending_unique<K: MapKey, B>(a: Seq<(K::V, B)>, b: Seq<(K::V, B)>)
    requires
        ascending::<K, B>(a),
        ascending::<K, B>(b),
        dictionary(a) == dictionary(b),
    ensures
        a == b,
    decreases a.len(),
{
    if a.len() == 0 {
        if b.len() > 0 {
            lemma_position_unique::<K, B>(b, 0);
            assert(!dictionary(a).contains_key(b[0].0));
        }
        assert(a =~= b);
    } else {
        lemma_position_unique::<K, B>(a, 0);
        let j = choose|j: int| holds_at(b, a[0].0, j);
        assert(holds_at(b, a[0].0, j));
        lemma_position_unique::<K, B>(b, 0);
        let i = choose|i: int| holds_at(a, b[0].0, i);
        assert(holds_at(a, b[0].0, i));
        if i > 0 && j > 0 {
            K::transitive(a[0].0, b[0].0, a[0].0);
            K::irreflexive(a[0].0);
        }
        assert(a[0].0 == b[0].0);
        assert(a[0] == b[0]);
        let ra = a.drop_first();
        let rb = b.drop_first();
        assert(dictionary(ra) == dictionary(rb)) by {
            lemma_dictionary_rest::<K, B>(a);
            lemma_dictionary_rest::<K, B>(b);
        }
        lemma_ascending_unique::<K, B>(ra, rb);
        assert(a =~= seq![a[0]] + ra);
        assert(b =~= seq![b[0]] + rb);
    }
}

/// One more entry of an ascending listing is one more entry of the map.
pub proof fn lemma_listing_grows<K: MapKey, B>(entries: Seq<(K::V, B)>, i: int)
    requires
        ascending::<K, B>(entries),
        0 <= i < entries.len(),
    ensures
        dictionary(entries.take(i + 1)) == dictionary(entries.take(i)).insert(
            entries[i].0,
            entries[i].1,
        ),
{
    let (before, after) = (entries.take(i), entries.take(i + 1));
    assert(after =~= before.insert(i, entries[i]));
    assert(ascending::<K, B>(before));
    lemma_insert::<K, B>(before, i, entries[i]);
}

proof fn lemma_dictionary_rest<K: MapKey, B>(a: Seq<(K::V, B)>)
    requires
        ascending::<K, B>(a),
        a.len() > 0,
    ensures
        ascending::<K, B>(a.drop_first()),
        dictionary(a.drop_first()) == dictionary(a).remove(a[0].0),
{
    let r = a.drop_first();
    assert forall|i: int, j: int| 0 <= i < j < r.len() implies K::before(
        #[trigger] r[i].0,
        #[trigger] r[j].0,
    ) by {
        assert(K::before(a[i + 1].0, a[j + 1].0));
    }
    let expected = dictionary(a).remove(a[0].0);
    assert forall|key: K::V| #[trigger] dictionary(r).contains_key(key) == expected.contains_key(
        key,
    ) by {
        if dictionary(r).contains_key(key) {
            let i = choose|i: int| holds_at(r, key, i);
            assert(holds_at(a, key, i + 1));
            if key == a[0].0 {
                K::irreflexive(key);
                assert(K::before(a[0].0, a[i + 1].0));
            }
        }
        if expected.contains_key(key) {
            let i = choose|i: int| holds_at(a, key, i);
            assert(holds_at(r, key, i - 1));
        }
    }
    assert forall|key: K::V| #[trigger] dictionary(r).contains_key(key) implies dictionary(r)[key]
        == dictionary(a)[key] by {
        let i = choose|i: int| holds_at(r, key, i);
        lemma_position_unique::<K, B>(r, i);
        lemma_position_unique::<K, B>(a, i + 1);
    }
    assert(dictionary(r) =~= expected);
}

/// An ascending listing is the sorted listing of the map that it lists.
pub proof fn lemma_sorted_entries<K: MapKey, B>(entries: Seq<(K::V, B)>)
    requires
        ascending::<K, B>(entries),
    ensures
        sorted_entries::<K, B>(dictionary(entries)) == entries,
{
    lemma_ascending_unique::<K, B>(
        entries,
        sorted_entries::<K, B>(dictionary(entries)),
    );
}

/// `map` has a listing in ascending key order, as every finite map has.
pub open spec fn listable<K: MapKey, B>(map: Map<K::V, B>) -> bool {
    &&& ascending::<K, B>(sorted_entries::<K, B>(map))
    &&& dictionary(sorted_entries::<K, B>(map)) == map
}

/// Two maps with the same listing are the same map.
pub proof fn lemma_listing_decides<K: MapKey, B>(a: Map<K::V, B>, b: Map<K::V, B>)
    requires
        listable::<K, B>(a),
        listable::<K, B>(b),
        sorted_entries::<K, B>(a) == sorted_entries::<K, B>(b),
    ensures
        a == b,
{
}

/// Whatever is inserted, the map has a listing in ascending key order.
pub proof fn lemma_collected_listable<K: MapKey, B>(entries: Seq<(K::V, B)>)
    ensures
        listable::<K, B>(collected(entries)),
    decreases entries.len(),
{
    if entries.len() == 0 {
        let none = Seq::<(K::V, B)>::empty();
        assert(dictionary(none) =~= Map::<K::V, B>::empty());
        lemma_sorted_entries::<K, B>(none);
    } else {
        let rest = collected(entries.drop_last());
        let placed = entries.last();
        lemma_collected_listable::<K, B>(entries.drop_last());
        lemma_insert_listable::<K, B>(rest, placed);
    }
}

/// Inserting into a map that has a listing gives one that has a listing.
pub proof fn lemma_insert_listable<K: MapKey, B>(map: Map<K::V, B>, placed: (K::V, B))
    requires
        listable::<K, B>(map),
    ensures
        listable::<K, B>(map.insert(placed.0, placed.1)),
{
    let before = sorted_entries::<K, B>(map);
    let i = lemma_slot::<K, B>(before, placed.0, 0);
    let after = if i < before.len() && before[i].0 == placed.0 {
        lemma_update::<K, B>(before, i, placed);
        before.update(i, placed)
    } else {
        lemma_insert::<K, B>(before, i, placed);
        before.insert(i, placed)
    };
    lemma_sorted_entries::<K, B>(after);
}

/// Where `key` stands in an ascending listing, or would stand.
proof fn lemma_slot<K: MapKey, B>(entries: Seq<(K::V, B)>, key: K::V, from: int) -> (i: int)
    requires
        ascending::<K, B>(entries),
        0 <= from <= entries.len(),
        forall|j: int| 0 <= j < from ==> K::before(#[trigger] entries[j].0, key),
    ensures
        from <= i <= entries.len(),
        forall|j: int| 0 <= j < i ==> K::before(#[trigger] entries[j].0, key),
        i < entries.len() ==> entries[i].0 == key || forall|j: int|
            i <= j < entries.len() ==> K::before(key, #[trigger] entries[j].0),
    decreases entries.len() - from,
{
    if from == entries.len() {
        from
    } else {
        K::connected(entries[from].0, key);
        if K::before(entries[from].0, key) {
            lemma_slot::<K, B>(entries, key, from + 1)
        } else {
            if entries[from].0 != key {
                assert forall|j: int| from <= j < entries.len() implies K::before(
                    key,
                    #[trigger] entries[j].0,
                ) by {
                    if j > from {
                        K::transitive(key, entries[from].0, entries[j].0);
                    }
                }
            }
            from
        }
    }
}

/// A map whose entries are held in ascending key order.
#[derive(Debug, PartialEq, Eq)]
pub struct OrderedMap<K: MapKey, V: View> {
    slots: Vec<(K, V)>,
}

/// The keys and values of `slots` by their views.
pub open spec fn listing<K: MapKey, V: View>(slots: Seq<(K, V)>) -> Seq<(K::V, V::V)> {
    Seq::new(slots.len(), |i: int| (slots[i].0@, slots[i].1@))
}

impl<K: MapKey, V: View> OrderedMap<K, V> {
    /// The entries in ascending key order.
    pub closed spec fn entries(&self) -> Seq<(K::V, V::V)> {
        listing(self.slots@)
    }

    /// The entries ascend strictly by key.
    #[verifier::type_invariant]
    pub open spec fn in_order(&self) -> bool {
        ascending::<K, V::V>(self.entries())
    }
}

impl<K: MapKey, V: View> View for OrderedMap<K, V> {
    type V = Map<K::V, V::V>;

    open spec fn view(&self) -> Map<K::V, V::V> {
        dictionary(self.entries())
    }
}

impl<K: MapKey, V: View> OrderedMap<K, V> {
    /// The empty map.
    pub fn new() -> (map: Self)
        ensures
            map@ == Map::<K::V, V::V>::empty(),
            map.entries() == Seq::<(K::V, V::V)>::empty(),
    {
        let map = OrderedMap { slots: Vec::new() };
        assert(map.entries() =~= Seq::<(K::V, V::V)>::empty());
        assert(map@ =~= Map::<K::V, V::V>::empty());
        map
    }

    /// The map made by inserting `slots` in order.
    pub fn collect(slots: Vec<(K, V)>) -> (map: Self)
        ensures
            map@ == collected(listing(slots@)),
    {
        let ghost given = slots@;
        let mut map = OrderedMap::new();
        let mut rest = slots;
        let mut taken: Vec<(K, V)> = Vec::new();
        while rest.len() > 0
            invariant
                given == rest@ + taken@.reverse(),
                map@ == Map::<K::V, V::V>::empty(),
            decreases rest@.len(),
        {
            let slot = rest.pop();
            match slot {
                Some(slot) => {
                    taken.push(slot);
                    assert(given =~= rest@ + taken@.reverse());
                },
                None => {},
            }
        }
        assert(given =~= taken@.reverse());
        assert(listing(given.take(0)) =~= Seq::<(K::V, V::V)>::empty());
        let ghost mut done: int = 0;
        while taken.len() > 0
            invariant
                0 <= done <= given.len(),
                given == given.take(done) + taken@.reverse(),
                map@ == collected(listing(given.take(done))),
            decreases taken@.len(),
        {
            let slot = taken.pop();
            match slot {
                Some(slot) => {
                    proof {
                        assert(given[done] == slot);
                        let next = listing(given.take(done + 1));
                        assert(next.drop_last() =~= listing(given.take(done)));
                        assert(next.last() == (slot.0@, slot.1@));
                        assert(given =~= given.take(done + 1) + taken@.reverse());
                        done = done + 1;
                    }
                    map.insert(slot.0, slot.1);
                },
                None => {},
            }
        }
        assert(given.take(done) =~= given);
        map
    }

    /// Number of entries.
    pub fn len(&self) -> (len: usize)
        ensures
            len == self.entries().len(),
            len == sorted_entries::<K, V::V>(self@).len(),
    {
        proof {
            use_type_invariant(self);
            lemma_sorted_entries::<K, V::V>(self.entries());
        }
        self.slots.len()
    }

    /// Whether there is no entry.
    pub fn is_empty(&self) -> (empty: bool)
        ensures
            empty <==> self@ == Map::<K::V, V::V>::empty(),
            empty <==> self.entries().len() == 0,
            empty <==> sorted_entries::<K, V::V>(self@).len() == 0,
    {
        proof {
            use_type_invariant(self);
            lemma_sorted_entries::<K, V::V>(self.entries());
            if self.entries().len() == 0 {
                assert(self@ =~= Map::<K::V, V::V>::empty());
            } else {
                assert(holds_at(self.entries(), self.entries()[0].0, 0));
                assert(self@.contains_key(self.entries()[0].0));
            }
        }
        self.slots.len() == 0
    }

    /// The entry at position `i` in key order.
    pub fn entry(&self, i: usize) -> (entry: (&K, &V))
        requires
            i < self.entries().len(),
        ensures
            entry.0@ == self.entries()[i as int].0,
            entry.1@ == self.entries()[i as int].1,
            self.entries() == sorted_entries::<K, V::V>(self@),
            self@.contains_key(entry.0@),
            self@[entry.0@] == entry.1@,
    {
        proof {
            use_type_invariant(self);
            lemma_sorted_entries::<K, V::V>(self.entries());
            lemma_position_unique::<K, V::V>(self.entries(), i as int);
        }
        (&self.slots[i].0, &self.slots[i].1)
    }

    /// The entries in key order.
    pub fn iter(&self) -> (entries: Vec<(&K, &V)>)
        ensures
            listable::<K, V::V>(self@),
            entries@.len() == sorted_entries::<K, V::V>(self@).len(),
            forall|i: int|
                0 <= i < entries@.len() ==> (#[trigger] entries@[i]).0@ == sorted_entries::<K, V::V>(
                    self@,
                )[i].0 && entries@[i].1@ == sorted_entries::<K, V::V>(self@)[i].1,
    {
        proof {
            use_type_invariant(self);
            lemma_sorted_entries::<K, V::V>(self.entries());
        }
        let mut entries: Vec<(&K, &V)> = Vec::new();
        let mut i: usize = 0;
        while i < self.len()
            invariant
                i <= self.entries().len(),
                entries@.len() == i,
                forall|j: int|
                    0 <= j < i ==> (#[trigger] entries@[j]).0@ == self.entries()[j].0
                        && entries@[j].1@ == self.entries()[j].1,
            decreases self.entries().len() - i,
        {
            entries.push(self.entry(i));
            i = i + 1;
        }
        entries
    }

    /// Where `key` stands, or where it would be inserted.
    fn search(&self, key: &K) -> (found: Result<usize, usize>)
        ensures
            match found {
                Ok(i) => holds_at(self.entries(), key@, i as int),
                Err(i) => i <= self.entries().len() && !self@.contains_key(key@) && (forall|j: int|
                    0 <= j < i ==> K::before(#[trigger] self.entries()[j].0, key@)) && (forall|j: int|
                    i <= j < self.entries().len() ==> K::before(
                        key@,
                        #[trigger] self.entries()[j].0,
                    )),
            },
    {
        let mut i: usize = 0;
        proof {
            use_type_invariant(self);
        }
        while i < self.slots.len()
            invariant
                ascending::<K, V::V>(self.entries()),
                i <= self.entries().len(),
                self.entries().len() == self.slots@.len(),
                forall|j: int| 0 <= j < i ==> K::before(#[trigger] self.entries()[j].0, key@),
            decreases self.slots@.len() - i,
        {
            match key.place(&self.slots[i].0) {
                Placement::Before => {
                    proof {
                        let entries = self.entries();
                        assert(K::before(key@, entries[i as int].0));
                        assert forall|j: int| i <= j < entries.len() implies K::before(
                            key@,
                            #[trigger] entries[j].0,
                        ) by {
                            if j > i {
                                K::transitive(key@, entries[i as int].0, entries[j].0);
                            }
                        }
                        lemma_absent::<K, V::V>(entries, key@, i as int);
                    }
                    return Err(i);
                },
                Placement::Same => {
                    return Ok(i);
                },
                Placement::After => {
                    i = i + 1;
                },
            }
        }
        proof {
            lemma_absent::<K, V::V>(self.entries(), key@, i as int);
        }
        Err(i)
    }

    /// The value under `key`.
    pub fn get(&self, key: &K) -> (value: Option<&V>)
        ensures
            value is Some <==> self@.contains_key(key@),
            value is Some ==> value->0@ == self@[key@],
    {
        proof {
            use_type_invariant(self);
        }
        match self.search(key) {
            Ok(i) => {
                proof {
                    lemma_position_unique::<K, V::V>(self.entries(), i as int);
                }
                Some(&self.slots[i].1)
            },
            Err(_) => None,
        }
    }

    /// Puts `value` under `key`, replacing what stood there.
    pub fn insert(&mut self, key: K, value: V)
        ensures
            final(self)@ == old(self)@.insert(key@, value@),
    {
        let found = self.search(&key);
        proof {
            use_type_invariant(&*self);
        }
        let ghost before = self.entries();
        let ghost placed = (key@, value@);
        let mut slots: Vec<(K, V)> = Vec::new();
        std::mem::swap(&mut slots, &mut self.slots);
        match found {
            Ok(i) => {
                slots[i] = (key, value);
                proof {
                    assert(listing(slots@) =~= before.update(i as int, placed));
                    lemma_update::<K, V::V>(before, i as int, placed);
                }
            },
            Err(i) => {
                slots.insert(i, (key, value));
                proof {
                    assert(listing(slots@) =~= before.insert(i as int, placed));
                    lemma_insert::<K, V::V>(before, i as int, placed);
                }
            },
        }
        self.slots = slots;
    }

    /// Takes out the value under `key`.
    pub fn remove(&mut self, key: &K) -> (value: Option<V>)
        ensures
            final(self)@ == old(self)@.remove(key@),
            value is Some <==> old(self)@.contains_key(key@),
            value is Some ==> value->0@ == old(self)@[key@],
    {
        let found = self.search(key);
        proof {
            use_type_invariant(&*self);
        }
        let ghost before = self.entries();
        match found {
            Ok(i) => {
                let mut slots: Vec<(K, V)> = Vec::new();
                std::mem::swap(&mut slots, &mut self.slots);
                let taken = slots.remove(i);
                proof {
                    assert(listing(slots@) =~= before.remove(i as int));
                    lemma_position_unique::<K, V::V>(before, i as int);
                    lemma_remove::<K, V::V>(before, i as int);
                }
                self.slots = slots;
                Some(taken.1)
            },
            Err(_) => {
                assert(self@.remove(key@) =~= self@);
                None
            },
        }
    }
}

proof fn lemma_absent<K: MapKey, B>(entries: Seq<(K::V, B)>, key: K::V, i: int)
    requires
        0 <= i <= entries.len(),
        forall|j: int| 0 <= j < i ==> K::before(#[trigger] entries[j].0, key),
        forall|j: int| i <= j < entries.len() ==> K::before(key, #[trigger] entries[j].0),
    ensures
        !dictionary(entries).contains_key(key),
{
    if dictionary(entries).contains_key(key) {
        let j = choose|j: int| holds_at(entries, key, j);
        K::irreflexive(key);
        assert(K::before(entries[j].0, key) || K::before(key, entries[j].0));
    }
}

proof fn lemma_update<K: MapKey, B>(entries: Seq<(K::V, B)>, i: int, placed: (K::V, B))
    requires
        ascending::<K, B>(entries),
        holds_at(entries, placed.0, i),
    ensures
        ascending::<K, B>(entries.update(i, placed)),
        dictionary(entries.update(i, placed)) == dictionary(entries).insert(placed.0, placed.1),
{
    let after = entries.update(i, placed);
    assert forall|a: int, b: int| 0 <= a < b < after.len() implies K::before(
        #[trigger] after[a].0,
        #[trigger] after[b].0,
    ) by {
        assert(K::before(entries[a].0, entries[b].0));
    }
    let expected = dictionary(entries).insert(placed.0, placed.1);
    assert forall|key: K::V| #[trigger] dictionary(after).contains_key(key)
        == expected.contains_key(key) by {
        if expected.contains_key(key) {
            if key == placed.0 {
                assert(holds_at(after, key, i));
            } else {
                let j = choose|j: int| holds_at(entries, key, j);
                assert(holds_at(after, key, j));
            }
        }
        if dictionary(after).contains_key(key) {
            let j = choose|j: int| holds_at(after, key, j);
            assert(holds_at(entries, key, j));
        }
    }
    assert forall|key: K::V| #[trigger] dictionary(after).contains_key(key) implies dictionary(
        after,
    )[key] == expected[key] by {
        let j = choose|j: int| holds_at(after, key, j);
        lemma_position_unique::<K, B>(after, j);
        lemma_position_unique::<K, B>(entries, j);
        if key == placed.0 {
            lemma_position_unique::<K, B>(after, i);
        }
    }
    assert(dictionary(after) =~= expected);
}

proof fn lemma_insert<K: MapKey, B>(entries: Seq<(K::V, B)>, i: int, placed: (K::V, B))
    requires
        ascending::<K, B>(entries),
        0 <= i <= entries.len(),
        forall|j: int| 0 <= j < i ==> K::before(#[trigger] entries[j].0, placed.0),
        forall|j: int| i <= j < entries.len() ==> K::before(placed.0, #[trigger] entries[j].0),
    ensures
        ascending::<K, B>(entries.insert(i, placed)),
        dictionary(entries.insert(i, placed)) == dictionary(entries).insert(placed.0, placed.1),
{
    let after = entries.insert(i, placed);
    assert forall|a: int, b: int| 0 <= a < b < after.len() implies K::before(
        #[trigger] after[a].0,
        #[trigger] after[b].0,
    ) by {
        let oa = if a < i { a } else { a - 1 };
        let ob = if b < i { b } else { b - 1 };
        if a != i && b != i {
            assert(K::before(entries[oa].0, entries[ob].0));
        } else if a == i {
            assert(K::before(placed.0, entries[ob].0));
        } else {
            assert(K::before(entries[oa].0, placed.0));
        }
    }
    lemma_absent::<K, B>(entries, placed.0, i);
    let expected = dictionary(entries).insert(placed.0, placed.1);
    assert forall|key: K::V| #[trigger] dictionary(after).contains_key(key)
        == expected.contains_key(key) by {
        if expected.contains_key(key) {
            if key == placed.0 {
                assert(holds_at(after, key, i));
            } else {
                let j = choose|j: int| holds_at(entries, key, j);
                assert(holds_at(after, key, if j < i { j } else { j + 1 }));
            }
        }
        if dictionary(after).contains_key(key) {
            let j = choose|j: int| holds_at(after, key, j);
            if j != i {
                assert(holds_at(entries, key, if j < i { j } else { j - 1 }));
            }
        }
    }
    assert forall|key: K::V| #[trigger] dictionary(after).contains_key(key) implies dictionary(
        after,
    )[key] == expected[key] by {
        let j = choose|j: int| holds_at(after, key, j);
        lemma_position_unique::<K, B>(after, j);
        if j != i {
            let o = if j < i { j } else { j - 1 };
            lemma_position_unique::<K, B>(entries, o);
            assert(holds_at(entries, key, o));
        }
    }
    assert(dictionary(after) =~= expected);
}

/// Removing an entry from an ascending listing removes its key from the map.
pub proof fn lemma_remove<K: MapKey, B>(entries: Seq<(K::V, B)>, i: int)
    requires
        ascending::<K, B>(entries),
        0 <= i < entries.len(),
    ensures
        ascending::<K, B>(entries.remove(i)),
        dictionary(entries.remove(i)) == dictionary(entries).remove(entries[i].0),
{
    let after = entries.remove(i);
    let gone = entries[i].0;
    assert forall|a: int, b: int| 0 <= a < b < after.len() implies K::before(
        #[trigger] after[a].0,
        #[trigger] after[b].0,
    ) by {
        let oa = if a < i { a } else { a + 1 };
        let ob = if b < i { b } else { b + 1 };
        assert(K::before(entries[oa].0, entries[ob].0));
    }
    let expected = dictionary(entries).remove(gone);
    assert forall|key: K::V| #[trigger] dictionary(after).contains_key(key)
        == expected.contains_key(key) by {
        if expected.contains_key(key) {
            let j = choose|j: int| holds_at(entries, key, j);
            assert(holds_at(after, key, if j < i { j } else { j - 1 }));
        }
        if dictionary(after).contains_key(key) {
            let j = choose|j: int| holds_at(after, key, j);
            let o = if j < i { j } else { j + 1 };
            assert(holds_at(entries, key, o));
            K::irreflexive(key);
            assert(key != gone);
        }
    }
    assert forall|key: K::V| #[trigger] dictionary(after).contains_key(key) implies dictionary(
        after,
    )[key] == expected[key] by {
        let j = choose|j: int| holds_at(after, key, j);
        lemma_position_unique::<K, B>(after, j);
        lemma_position_unique::<K, B>(entries, if j < i { j } else { j + 1 });
    }
    assert(dictionary(after) =~= expected);
}

impl<K: MapKey + Replica, V: Replica> Clone for OrderedMap<K, V> {
    fn clone(&self) -> (copy: Self)
        ensures
            copy.entries() == self.entries(),
            copy@ == self@,
    {
        let mut slots: Vec<(K, V)> = Vec::new();
        let mut i: usize = 0;
        while i < self.slots.len()
            invariant
                i <= self.slots@.len(),
                slots@.len() == i,
                forall|j: int|
                    0 <= j < i ==> slots@[j].0@ == (#[trigger] self.slots@[j]).0@ && slots@[j].1@
                        == self.slots@[j].1@,
            decreases self.slots@.len() - i,
        {
            slots.push((self.slots[i].0.replica(), self.slots[i].1.replica()));
            i = i + 1;
        }
        proof {
            use_type_invariant(self);
            assert(listing(slots@) =~= self.entries());
        }
        OrderedMap { slots }
    }
}

/// Law: collecting keeps every key, and for each the value that came last: an
/// entry whose key does not come again holds in the end.
pub proof fn law_the_last_entry_of_a_key_holds<A, B>(entries: Seq<(A, B)>, i: int)
    requires
        0 <= i < entries.len(),
        forall|j: int| i < j < entries.len() ==> (#[trigger] entries[j]).0 != entries[i].0,
    ensures
        collected(entries).contains_key(entries[i].0),
        collected(entries)[entries[i].0] == entries[i].1,
    decreases entries.len(),
{
    if i < entries.len() - 1 {
        let rest = entries.drop_last();
        assert(entries[entries.len() - 1].0 != entries[i].0);
        assert forall|j: int| i < j < rest.len() implies (#[trigger] rest[j]).0 != rest[i].0 by {
            assert(rest[j] == entries[j]);
        }
        law_the_last_entry_of_a_key_holds(rest, i);
    }
}

/// Law: a map is listed in ascending key order, each of its entries once and
/// nothing else.
pub proof fn law_listing_is_ascending_and_complete<K: MapKey, B>(map: Map<K::V, B>)
    requires
        listable::<K, B>(map),
    ensures
        forall|i: int, j: int|
            0 <= i < j < sorted_entries::<K, B>(map).len() ==> K::before(
                #[trigger] sorted_entries::<K, B>(map)[i].0,
                #[trigger] sorted_entries::<K, B>(map)[j].0,
            ),
        forall|i: int|
            0 <= i < sorted_entries::<K, B>(map).len() ==> map.contains_key(
                (#[trigger] sorted_entries::<K, B>(map)[i]).0,
            ) && map[sorted_entries::<K, B>(map)[i].0] == sorted_entries::<K, B>(map)[i].1,
        forall|key: K::V| #[trigger]
            map.contains_key(key) ==> exists|i: int|
                0 <= i < sorted_entries::<K, B>(map).len() && (#[trigger] sorted_entries::<K, B>(
                    map,
                )[i]).0 == key,
{
    let listed = sorted_entries::<K, B>(map);
    assert forall|i: int| 0 <= i < listed.len() implies map.contains_key((#[trigger] listed[i]).0)
        && map[listed[i].0] == listed[i].1 by {
        lemma_position_unique::<K, B>(listed, i);
    }
    assert forall|key: K::V| #[trigger] map.contains_key(key) implies exists|i: int|
        0 <= i < listed.len() && (#[trigger] listed[i]).0 == key by {
        let i = choose|i: int| holds_at(listed, key, i);
        assert(listed[i].0 == key);
    }
}

/// Law: items are seen one for one, in order, and so are the entries of a list.
pub proof fn law_items_are_seen_one_for_one<T: View, K: MapKey, V: View>(
    items: Seq<T>,
    slots: Seq<(K, V)>,
    i: int,
)
    ensures
        views(items).len() == items.len(),
        0 <= i < items.len() ==> views(items)[i] == items[i]@,
        listing(slots).len() == slots.len(),
        0 <= i < slots.len() ==> listing(slots)[i].0 == slots[i].0@ && listing(slots)[i].1
            == slots[i].1@,
{
}

} // verus!
