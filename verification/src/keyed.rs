//! Lists whose entries are found by a numeric key.
//!
//! Globals are kept by the name the compositor gave them and surfaces by the output they are
//! shown on. Both lists are searched from the front, so the entry that counts for a key is
//! the first one that has it; where keys are distinct it is the only one.

use vstd::prelude::*;

verus! {

/// Something that is found by a numeric key.
pub trait Keyed {
    /// The key of the entry.
    spec fn key_of(&self) -> u32;

    /// The key of the entry.
    fn key(&self) -> (k: u32)
        ensures
            k == self.key_of(),
    ;
}

/// Whether index `i` is the first entry of `items` with the key `key`.
pub open spec fn first_at<T: Keyed>(items: Seq<T>, key: u32, i: int) -> bool {
    &&& 0 <= i < items.len()
    &&& items[i].key_of() == key
    &&& forall|j: int| 0 <= j < i ==> (#[trigger] items[j]).key_of() != key
}

/// Whether an entry of `items` has the key `key`.
pub open spec fn known<T: Keyed>(items: Seq<T>, key: u32) -> bool {
    exists|i: int| 0 <= i < items.len() && (#[trigger] items[i]).key_of() == key
}

/// The index of the first entry with the key `key`, if there is one.
pub open spec fn position<T: Keyed>(items: Seq<T>, key: u32) -> Option<int> {
    if exists|i: int| first_at(items, key, i) {
        Some(choose|i: int| first_at(items, key, i))
    } else {
        None
    }
}

/// No two entries share a key.
pub open spec fn distinct<T: Keyed>(items: Seq<T>) -> bool {
    forall|i: int, j: int|
        0 <= i < j < items.len() ==> (#[trigger] items[i]).key_of() != (#[trigger] items[j]).key_of()
}

/// If the entry at index `k` has the key, some entry is the first to have it.
proof fn lemma_first_exists<T: Keyed>(items: Seq<T>, key: u32, k: int)
    requires
        0 <= k < items.len(),
        items[k].key_of() == key,
    ensures
        exists|i: int| first_at(items, key, i),
    decreases k,
{
    if exists|j: int| 0 <= j < k && (#[trigger] items[j]).key_of() == key {
        let j = choose|j: int| 0 <= j < k && (#[trigger] items[j]).key_of() == key;
        lemma_first_exists(items, key, j);
    } else {
        assert(first_at(items, key, k));
    }
}

/// A key has a position exactly if it is known, and the position is the one index at which
/// the key occurs first.
pub proof fn lemma_position<T: Keyed>(items: Seq<T>, key: u32)
    ensures
        position(items, key) is Some <==> known(items, key),
        position(items, key) matches Some(i) ==> first_at(items, key, i),
        forall|i: int| first_at(items, key, i) ==> position(items, key) == Some(i),
{
    if known(items, key) {
        let k = choose|i: int| 0 <= i < items.len() && (#[trigger] items[i]).key_of() == key;
        lemma_first_exists(items, key, k);
    }
    if exists|i: int| first_at(items, key, i) {
        let c = choose|i: int| first_at(items, key, i);
        assert(items[c].key_of() == key);
        assert forall|i: int| first_at(items, key, i) implies i == c by {
            if i < c {
                assert(items[i].key_of() != key);
            } else if c < i {
                assert(items[c].key_of() != key);
            }
        }
    }
}

/// Among distinct keys, wherever a key occurs is its position.
pub proof fn lemma_position_distinct<T: Keyed>(items: Seq<T>, i: int)
    requires
        distinct(items),
        0 <= i < items.len(),
    ensures
        position(items, items[i].key_of()) == Some(i),
{
    assert(first_at(items, items[i].key_of(), i)) by {
        assert forall|j: int| 0 <= j < i implies (#[trigger] items[j]).key_of() != items[i].key_of() by {}
    }
    lemma_position(items, items[i].key_of());
}

/// Adding an entry under a key that is not known keeps the keys distinct.
pub proof fn lemma_distinct_push<T: Keyed>(items: Seq<T>, item: T)
    requires
        distinct(items),
        !known(items, item.key_of()),
    ensures
        distinct(items.push(item)),
{
    let longer = items.push(item);
    assert forall|i: int, j: int| 0 <= i < j < longer.len() implies (#[trigger] longer[i]).key_of()
        != (#[trigger] longer[j]).key_of() by {
        if j == items.len() {
            assert(items[i].key_of() != item.key_of());
        } else {
            assert(items[i].key_of() != items[j].key_of());
        }
    }
}

/// Dropping an entry keeps the keys distinct, and the dropped key is known no more.
pub proof fn lemma_distinct_remove<T: Keyed>(items: Seq<T>, i: int)
    requires
        distinct(items),
        0 <= i < items.len(),
    ensures
        distinct(items.remove(i)),
        !known(items.remove(i), items[i].key_of()),
        forall|key: u32| key != items[i].key_of() ==> (known(items.remove(i), key) <==> known(items, key)),
{
    let shorter = items.remove(i);
    assert forall|a: int, b: int| 0 <= a < b < shorter.len() implies (#[trigger] shorter[a]).key_of()
        != (#[trigger] shorter[b]).key_of() by {
        let a0 = if a < i { a } else { a + 1 };
        let b0 = if b < i { b } else { b + 1 };
        assert(items[a0].key_of() != items[b0].key_of());
    }
    assert forall|a: int| 0 <= a < shorter.len() implies (#[trigger] shorter[a]).key_of()
        != items[i].key_of() by {
        let a0 = if a < i { a } else { a + 1 };
        if a0 < i {
            assert(items[a0].key_of() != items[i].key_of());
        } else {
            assert(items[i].key_of() != items[a0].key_of());
        }
    }
    assert forall|key: u32| key != items[i].key_of() implies (known(shorter, key) <==> known(
        items,
        key,
    )) by {
        if known(shorter, key) {
            let a = choose|a: int| 0 <= a < shorter.len() && (#[trigger] shorter[a]).key_of() == key;
            let a0 = if a < i { a } else { a + 1 };
            assert(items[a0].key_of() == key);
        }
        if known(items, key) {
            let a0 = choose|a: int| 0 <= a < items.len() && (#[trigger] items[a]).key_of() == key;
            let a = if a0 < i { a0 } else { a0 - 1 };
            assert(shorter[a].key_of() == key);
        }
    }
}

/// Replacing an entry by one with the same key keeps the keys distinct.
pub proof fn lemma_distinct_update<T: Keyed>(items: Seq<T>, i: int, item: T)
    requires
        distinct(items),
        0 <= i < items.len(),
        item.key_of() == items[i].key_of(),
    ensures
        distinct(items.update(i, item)),
{
    let changed = items.update(i, item);
    assert forall|a: int, b: int| 0 <= a < b < changed.len() implies (#[trigger] changed[a]).key_of()
        != (#[trigger] changed[b]).key_of() by {
        assert(items[a].key_of() != items[b].key_of());
    }
}

/// Where the first entry with the key `key` stands.
pub fn find<T: Keyed>(items: &Vec<T>, key: u32) -> (at: Option<usize>)
    ensures
        at matches Some(i) ==> position(items@, key) == Some(i as int),
        at is None ==> position(items@, key) is None,
{
    let mut i: usize = 0;
    while i < items.len()
        invariant
            i <= items.len(),
            forall|j: int| 0 <= j < i ==> (#[trigger] items@[j]).key_of() != key,
        decreases items.len() - i,
    {
        if items[i].key() == key {
            proof {
                assert(first_at(items@, key, i as int));
                lemma_position(items@, key);
            }
            return Some(i);
        }
        i += 1;
    }
    proof {
        lemma_position(items@, key);
    }
    None
}

} // verus!
