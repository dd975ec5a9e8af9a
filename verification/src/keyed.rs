//! Lists in which no key occurs twice, read as maps from keys to entries.
//!
//! The collections of this crate are vectors of entries that each carry their
//! key. What a vector means is the map `table` below; the lemmas say how the
//! map follows when an entry is appended, replaced or dropped.

use vstd::prelude::*;

verus! {

/// No two entries have the same key.
pub open spec fn distinct<E, K>(entries: Seq<E>, key: spec_fn(E) -> K) -> bool {
    forall|i: int, j: int|
        0 <= i < j < entries.len() ==> key(#[trigger] entries[i]) != key(#[trigger] entries[j])
}

/// Some entry has the key `k`.
pub open spec fn listed<E, K>(entries: Seq<E>, key: spec_fn(E) -> K, k: K) -> bool {
    exists|i: int| 0 <= i < entries.len() && key(#[trigger] entries[i]) == k
}

/// The position of an entry that has the key `k`.
pub open spec fn place<E, K>(entries: Seq<E>, key: spec_fn(E) -> K, k: K) -> int {
    choose|i: int| 0 <= i < entries.len() && key(#[trigger] entries[i]) == k
}

/// The map that sends each key in the list to the entry that has it.
pub open spec fn table<E, K>(entries: Seq<E>, key: spec_fn(E) -> K) -> Map<K, E> {
    Map::new(|k: K| listed(entries, key, k), |k: K| entries[place(entries, key, k)])
}

/// In a list without repeated keys, the table holds each entry under its key.
pub proof fn lemma_table_at<E, K>(entries: Seq<E>, key: spec_fn(E) -> K, i: int)
    requires
        distinct(entries, key),
        0 <= i < entries.len(),
    ensures
        table(entries, key).contains_key(key(entries[i])),
        table(entries, key)[key(entries[i])] == entries[i],
        place(entries, key, key(entries[i])) == i,
{
    let k = key(entries[i]);
    assert(listed(entries, key, k));
    let j = place(entries, key, k);
    if j < i {
        assert(key(entries[j]) != key(entries[i]));
    }
    if i < j {
        assert(key(entries[i]) != key(entries[j]));
    }
}

/// Appending an entry with a new key adds one binding.
pub proof fn lemma_table_push<E, K>(entries: Seq<E>, key: spec_fn(E) -> K, entry: E)
    requires
        distinct(entries, key),
        !listed(entries, key, key(entry)),
    ensures
        distinct(entries.push(entry), key),
        table(entries.push(entry), key) == table(entries, key).insert(key(entry), entry),
{
    let after = entries.push(entry);
    assert forall|i: int, j: int| 0 <= i < j < after.len() implies key(#[trigger] after[i]) != key(
        #[trigger] after[j],
    ) by {
        if j < entries.len() {
            assert(key(entries[i]) != key(entries[j]));
        } else {
            assert(after[i] == entries[i]);
            if key(after[i]) == key(entry) {
                assert(listed(entries, key, key(entry)));
            }
        }
    }
    assert forall|k: K| listed(after, key, k) <==> (k == key(entry) || listed(entries, key, k)) by {
        if listed(after, key, k) {
            let i = place(after, key, k);
            if i < entries.len() {
                assert(key(entries[i]) == k);
            }
        }
        if k == key(entry) {
            assert(key(after[entries.len() as int]) == k);
        }
        if listed(entries, key, k) {
            let i = place(entries, key, k);
            assert(key(after[i]) == k);
        }
    }
    assert forall|k: K| listed(after, key, k) implies #[trigger] table(after, key)[k] == table(
        entries,
        key,
    ).insert(key(entry), entry)[k] by {
        let i = place(after, key, k);
        lemma_table_at(after, key, i);
        if i < entries.len() {
            assert(after[i] == entries[i]);
            lemma_table_at(entries, key, i);
        }
    }
    assert(table(after, key) =~= table(entries, key).insert(key(entry), entry));
}

/// Replacing an entry by one with the same key rebinds that key.
pub proof fn lemma_table_update<E, K>(entries: Seq<E>, key: spec_fn(E) -> K, i: int, entry: E)
    requires
        distinct(entries, key),
        0 <= i < entries.len(),
        key(entry) == key(entries[i]),
    ensures
        distinct(entries.update(i, entry), key),
        table(entries.update(i, entry), key) == table(entries, key).insert(key(entry), entry),
{
    let after = entries.update(i, entry);
    assert forall|a: int, b: int| 0 <= a < b < after.len() implies key(#[trigger] after[a]) != key(
        #[trigger] after[b],
    ) by {
        assert(key(after[a]) == key(entries[a]));
        assert(key(after[b]) == key(entries[b]));
    }
    assert forall|k: K| listed(after, key, k) <==> listed(entries, key, k) by {
        if listed(after, key, k) {
            let p = place(after, key, k);
            assert(key(entries[p]) == k);
        }
        if listed(entries, key, k) {
            let p = place(entries, key, k);
            assert(key(after[p]) == k);
        }
    }
    lemma_table_at(entries, key, i);
    assert forall|k: K| listed(after, key, k) implies #[trigger] table(after, key)[k] == table(
        entries,
        key,
    ).insert(key(entry), entry)[k] by {
        let p = place(after, key, k);
        lemma_table_at(after, key, p);
        if p != i {
            assert(after[p] == entries[p]);
            lemma_table_at(entries, key, p);
        }
    }
    assert(table(after, key) =~= table(entries, key).insert(key(entry), entry));
}

/// Dropping an entry unbinds its key.
pub proof fn lemma_table_remove<E, K>(entries: Seq<E>, key: spec_fn(E) -> K, i: int)
    requires
        distinct(entries, key),
        0 <= i < entries.len(),
    ensures
        distinct(entries.remove(i), key),
        table(entries.remove(i), key) == table(entries, key).remove(key(entries[i])),
{
    let after = entries.remove(i);
    let gone = key(entries[i]);
    assert forall|a: int, b: int| 0 <= a < b < after.len() implies key(#[trigger] after[a]) != key(
        #[trigger] after[b],
    ) by {
        let a0 = if a < i { a } else { a + 1 };
        let b0 = if b < i { b } else { b + 1 };
        assert(after[a] == entries[a0]);
        assert(after[b] == entries[b0]);
        assert(key(entries[a0]) != key(entries[b0]));
    }
    assert forall|k: K| listed(after, key, k) <==> (listed(entries, key, k) && k != gone) by {
        if listed(after, key, k) {
            let p = place(after, key, k);
            let source = if p < i { p } else { p + 1 };
            assert(after[p] == entries[source]);
            assert(key(entries[source]) == k);
            if source < i {
                assert(key(entries[source]) != key(entries[i]));
            } else {
                assert(key(entries[i]) != key(entries[source]));
            }
        }
        if listed(entries, key, k) && k != gone {
            let p = place(entries, key, k);
            let target = if p < i { p } else { p - 1 };
            assert(after[target] == entries[p]);
            assert(key(after[target]) == k);
        }
    }
    assert forall|k: K| listed(after, key, k) implies #[trigger] table(after, key)[k] == table(
        entries,
        key,
    ).remove(gone)[k] by {
        let p = place(after, key, k);
        let source = if p < i { p } else { p + 1 };
        lemma_table_at(after, key, p);
        assert(after[p] == entries[source]);
        lemma_table_at(entries, key, source);
    }
    assert(table(after, key) =~= table(entries, key).remove(gone));
}

/// Two lists that agree on the keys, place by place, hold the same keys at
/// the same places.
pub proof fn lemma_same_keys<E, K>(before: Seq<E>, after: Seq<E>, key: spec_fn(E) -> K)
    requires
        before.len() == after.len(),
        forall|i: int| 0 <= i < after.len() ==> key(#[trigger] after[i]) == key(before[i]),
        distinct(before, key),
    ensures
        distinct(after, key),
        table(after, key).dom() == table(before, key).dom(),
        forall|k: K|
            listed(before, key, k) ==> #[trigger] place(after, key, k) == place(before, key, k),
{
    assert forall|i: int, j: int| 0 <= i < j < after.len() implies key(#[trigger] after[i]) != key(
        #[trigger] after[j],
    ) by {
        assert(key(before[i]) != key(before[j]));
    }
    assert forall|k: K| listed(after, key, k) <==> listed(before, key, k) by {
        if listed(after, key, k) {
            let p = place(after, key, k);
            assert(key(before[p]) == k);
        }
        if listed(before, key, k) {
            let p = place(before, key, k);
            assert(key(after[p]) == k);
        }
    }
    assert(table(after, key).dom() =~= table(before, key).dom());
    assert forall|k: K| listed(before, key, k) implies #[trigger] place(after, key, k) == place(
        before,
        key,
        k,
    ) by {
        let p = place(before, key, k);
        assert(key(after[p]) == k);
        lemma_table_at(before, key, p);
        lemma_table_at(after, key, p);
    }
}

} // verus!
