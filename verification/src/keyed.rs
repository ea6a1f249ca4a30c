//! Items found by name and kept in the order in which their names first came.
use indexmap::IndexMap;
use vstd::prelude::*;

verus! {

/// `indexmap::IndexMap`, a hash map that keeps the order of insertion.
#[verifier::external_type_specification]
#[verifier::external_body]
#[verifier::reject_recursive_types(K)]
#[verifier::reject_recursive_types(V)]
#[verifier::reject_recursive_types(S)]
pub struct ExIndexMap<K, V, S>(IndexMap<K, V, S>);

/// The entries of a map from names to positions, in the map's order.
pub uninterp spec fn slots(map: IndexMap<String, usize>) -> Seq<(Seq<char>, usize)>;

/// Whether no key comes twice in `entries`.
pub open spec fn distinct<K, T>(entries: Seq<(K, T)>) -> bool {
    forall|i: int, j: int|
        0 <= i < j < entries.len() ==> (#[trigger] entries[i]).0 != (#[trigger] entries[j]).0
}

/// `IndexMap::new`: a map without entries.
#[verifier::external_body]
fn no_slots() -> (map: IndexMap<String, usize>)
    ensures
        slots(map) == Seq::<(Seq<char>, usize)>::empty(),
{
    IndexMap::new()
}

/// `IndexMap::entry` with `Entry::or_insert`: the value under `key`, which is `next`, in a new
/// last entry, where the map had none.
#[verifier::external_body]
fn slot_of(map: &mut IndexMap<String, usize>, key: String, next: usize) -> (position: usize)
    ensures
        forall|i: int|
            0 <= i < slots(*old(map)).len() && (#[trigger] slots(*old(map))[i]).0 == key@
                ==> position == slots(*old(map))[i].1 && slots(*final(map)) == slots(*old(map)),
        (forall|i: int|
            0 <= i < slots(*old(map)).len() ==> (#[trigger] slots(*old(map))[i]).0 != key@)
            ==> position == next && slots(*final(map)) == slots(*old(map)).push((key@, next)),
{
    *map.entry(key).or_insert(next)
}

/// `IndexMap::values`: the values in the map's order.
#[verifier::external_body]
fn slot_order(map: &IndexMap<String, usize>) -> (positions: Vec<usize>)
    ensures
        positions@ == slots(*map).map_values(|slot: (Seq<char>, usize)| slot.1),
{
    map.values().copied().collect()
}

/// Where `key` first stands in `entries`; their number where it does not.
pub open spec fn place<K, T>(entries: Seq<(K, T)>, key: K) -> int
    decreases entries.len(),
{
    if entries.len() == 0 {
        0
    } else if entries[0].0 == key {
        0
    } else {
        1 + place(entries.drop_first(), key)
    }
}

/// `entries` with `item` under `key`: in its place where the key has one, else in a new last
/// entry.
pub open spec fn put<K, T>(entries: Seq<(K, T)>, key: K, item: T) -> Seq<(K, T)> {
    if place(entries, key) < entries.len() {
        entries.update(place(entries, key), (key, item))
    } else {
        entries.push((key, item))
    }
}

/// What stands under `key` in `entries`, if anything does.
pub open spec fn get<K, T>(entries: Seq<(K, T)>, key: K) -> Option<T> {
    if place(entries, key) < entries.len() {
        Some(entries[place(entries, key)].1)
    } else {
        None
    }
}

/// What stands under `key` in `entries`, `item` where nothing does.
pub open spec fn found<K, T>(entries: Seq<(K, T)>, key: K, item: T) -> T {
    match get(entries, key) {
        Some(known) => known,
        None => item,
    }
}

/// Where `place` puts a key.
pub proof fn lemma_place<K, T>(entries: Seq<(K, T)>, key: K)
    ensures
        0 <= place(entries, key) <= entries.len(),
        place(entries, key) < entries.len() ==> entries[place(entries, key)].0 == key,
        forall|i: int| 0 <= i < place(entries, key) ==> (#[trigger] entries[i]).0 != key,
    decreases entries.len(),
{
    if entries.len() > 0 && entries[0].0 != key {
        let rest = entries.drop_first();
        lemma_place(rest, key);
        assert forall|i: int| 0 <= i < place(entries, key) implies (#[trigger] entries[i]).0
            != key by {
            if i > 0 {
                assert(entries[i] == rest[i - 1]);
            }
        }
    }
}

proof fn lemma_place_is<K, T>(entries: Seq<(K, T)>, key: K, at: int)
    requires
        0 <= at <= entries.len(),
        at < entries.len() ==> entries[at].0 == key,
        forall|i: int| 0 <= i < at ==> (#[trigger] entries[i]).0 != key,
    ensures
        place(entries, key) == at,
{
    lemma_place(entries, key);
    let first = place(entries, key);
    if first < at {
        assert(entries[first].0 != key);
    } else if at < first {
        assert(entries[at].0 != key);
    }
}

/// What is put under a key is found there, and what stands under other keys stays.
pub proof fn law_put_is_got<K, T>(entries: Seq<(K, T)>, key: K, item: T, other: K)
    ensures
        get(put(entries, key, item), other) == if other == key {
            Some(item)
        } else {
            get(entries, other)
        },
{
    lemma_place(entries, key);
    lemma_place(entries, other);
    let after = put(entries, key, item);
    let at = place(entries, other);
    if other == key || at < entries.len() {
        lemma_place_is(after, other, at);
    } else {
        lemma_place_is(after, other, after.len() as int);
    }
}

/// Keys keep their places, and a new one comes last.
pub proof fn law_put_keeps_order<K, T>(entries: Seq<(K, T)>, key: K, item: T)
    ensures
        put(entries, key, item).len() == if get(entries, key) is Some {
            entries.len()
        } else {
            entries.len() + 1
        },
        forall|i: int|
            0 <= i < entries.len() ==> (#[trigger] put(entries, key, item)[i]).0 == entries[i].0,
        get(entries, key) is None ==> put(entries, key, item).last() == (key, item),
{
    lemma_place(entries, key);
}

/// Where every key comes once it does so after `put` too.
pub proof fn law_put_keeps_keys_distinct<K, T>(entries: Seq<(K, T)>, key: K, item: T)
    requires
        distinct(entries),
    ensures
        distinct(put(entries, key, item)),
{
    lemma_place(entries, key);
    law_put_keeps_order(entries, key, item);
    let after = put(entries, key, item);
    assert forall|i: int, j: int| 0 <= i < j < after.len() implies (#[trigger] after[i]).0 != (
    #[trigger] after[j]).0 by {
        assert(after[i].0 == entries[i].0);
        if j < entries.len() {
            assert(after[j].0 == entries[j].0);
        }
    }
}

/// What is kept by name: its view says what it holds, `sound` that it holds it in order.
pub trait Kept: View {
    spec fn sound(&self) -> bool;
}

/// Items by name, in the order in which the names first came.
pub struct Keyed<T> {
    index: IndexMap<String, usize>,
    items: Vec<T>,
}

impl<T: Kept> View for Keyed<T> {
    type V = Seq<(Seq<char>, T::V)>;

    closed spec fn view(&self) -> Seq<(Seq<char>, T::V)> {
        Seq::new(self.items@.len(), |i: int| (slots(self.index)[i].0, self.items@[i]@))
    }
}

impl<T: Kept> Keyed<T> {
    /// The entry that came as the `i`th has its item at position `i`.
    pub closed spec fn sound(self) -> bool {
        &&& slots(self.index).len() == self.items@.len()
        &&& distinct(slots(self.index))
        &&& forall|i: int|
            0 <= i < slots(self.index).len() ==> (#[trigger] slots(self.index)[i]).1 == i
        &&& forall|i: int| 0 <= i < self.items@.len() ==> (#[trigger] self.items@[i]).sound()
    }

    /// No items.
    pub fn new() -> (keyed: Keyed<T>)
        ensures
            keyed.sound(),
            keyed@ == Seq::<(Seq<char>, T::V)>::empty(),
    {
        let keyed = Keyed { index: no_slots(), items: Vec::new() };
        assert(keyed@ =~= Seq::<(Seq<char>, T::V)>::empty());
        keyed
    }

    /// The item under `key`, which is `item`, in a new last entry, where there was none.
    pub fn entry_or(&mut self, key: String, item: T) -> (slot: &mut T)
        requires
            old(self).sound(),
            item.sound(),
        ensures
            slot.sound(),
            slot@ == found(old(self)@, key@, item@),
            final(slot).sound() ==> final(self).sound(),
            final(self)@ == put(old(self)@, key@, final(slot)@),
    {
        proof {
            lemma_place(self@, key@);
        }
        let next = self.items.len();
        let ghost before = *self;
        let ghost name = key@;
        let ghost at = place(self@, name);
        proof {
            if at < self@.len() {
                assert(slots(self.index)[at].0 == name);
            } else {
                assert forall|i: int| 0 <= i < slots(self.index).len() implies (#[trigger] slots(
                    self.index,
                )[i]).0 != name by {
                    assert(self@[i].0 != name);
                }
            }
        }
        let position = slot_of(&mut self.index, key, next);
        assert(position == at);
        if position == next {
            self.items.push(item);
        }
        &mut self.items[position]
    }

    /// The items in order.
    pub fn in_order(&self) -> (items: Vec<&T>)
        requires
            self.sound(),
        ensures
            items@.len() == self@.len(),
            forall|i: int|
                0 <= i < items@.len() ==> (#[trigger] items@[i])@ == self@[i].1
                    && items@[i].sound(),
    {
        let positions = slot_order(&self.index);
        let mut items: Vec<&T> = Vec::new();
        let mut i: usize = 0;
        while i < positions.len()
            invariant
                self.sound(),
                positions@.len() == self.items@.len(),
                forall|j: int| 0 <= j < positions@.len() ==> #[trigger] positions@[j] == j,
                i <= positions@.len(),
                items@.len() == i,
                forall|j: int| 0 <= j < i ==> *(#[trigger] items@[j]) == self.items@[j],
            decreases positions.len() - i,
        {
            items.push(&self.items[positions[i]]);
            i += 1;
        }
        items
    }
}

/// What is kept by name has every name once.
pub proof fn law_names_come_once<T: Kept>(keyed: Keyed<T>)
    requires
        keyed.sound(),
    ensures
        distinct(keyed@),
{
    assert forall|i: int, j: int| 0 <= i < j < keyed@.len() implies (#[trigger] keyed@[i]).0
        != (#[trigger] keyed@[j]).0 by {
        assert(slots(keyed.index)[i].0 != slots(keyed.index)[j].0);
    }
}

/// Where every key comes once, what stands under a key is what its entry holds.
pub proof fn law_get_finds_the_entry<K, T>(entries: Seq<(K, T)>, key: K, item: T)
    requires
        distinct(entries),
    ensures
        get(entries, key) == Some(item) <==> entries.contains((key, item)),
        get(entries, key) is None <==> forall|i: int|
            0 <= i < entries.len() ==> (#[trigger] entries[i]).0 != key,
{
    lemma_place(entries, key);
    let at = place(entries, key);
    if entries.contains((key, item)) {
        let i = choose|i: int| 0 <= i < entries.len() && entries[i] == (key, item);
        assert(entries[i].0 == key);
        if at < i {
            assert(entries[at].0 != entries[i].0);
        }
    }
    if at < entries.len() {
        assert(entries[at].0 == key);
        assert(entries[at] == (key, entries[at].1));
    }
}

} // verus!
