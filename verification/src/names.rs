//! Values filed under names.

use crate::keyed::{
    distinct, lemma_table_at, lemma_table_push, lemma_table_remove, lemma_table_update, listed,
    table,
};
use vstd::prelude::*;

verus! {

/// A value filed under a name.
pub struct Named<V> {
    pub name: String,
    pub value: V,
}

/// The key of a named value: the characters of its name.
pub open spec fn name_of<V>() -> spec_fn(Named<V>) -> Seq<char> {
    |entry: Named<V>| entry.name@
}

/// The position of the entry filed under `name`, if there is one.
pub fn find<V>(entries: &Vec<Named<V>>, name: &String) -> (found: Option<usize>)
    ensures
        match found {
            Some(i) => i < entries.len() && entries[i as int].name@ == name@,
            None => !listed(entries@, name_of::<V>(), name@),
        },
{
    let mut i: usize = 0;
    while i < entries.len()
        invariant
            i <= entries.len(),
            forall|k: int| 0 <= k < i ==> (#[trigger] entries[k]).name@ != name@,
        decreases entries.len() - i,
    {
        if entries[i].name == *name {
            return Some(i);
        }
        i += 1;
    }
    None
}

/// Files `value` under `name`, in place of what was filed there.
pub fn put<V>(entries: &mut Vec<Named<V>>, name: String, value: V)
    requires
        distinct(old(entries)@, name_of::<V>()),
    ensures
        distinct(final(entries)@, name_of::<V>()),
        table(final(entries)@, name_of::<V>()) == table(old(entries)@, name_of::<V>()).insert(
            name@,
            Named { name, value },
        ),
{
    match find(entries, &name) {
        Some(i) => {
            proof {
                lemma_table_update(entries@, name_of::<V>(), i as int, Named { name, value });
            }
            entries[i] = Named { name, value };
        },
        None => {
            proof {
                lemma_table_push(entries@, name_of::<V>(), Named { name, value });
            }
            entries.push(Named { name, value });
        },
    }
}

/// Takes out what is filed under `name`.
pub fn take<V>(entries: &mut Vec<Named<V>>, name: &String) -> (taken: Option<V>)
    requires
        distinct(old(entries)@, name_of::<V>()),
    ensures
        distinct(final(entries)@, name_of::<V>()),
        table(final(entries)@, name_of::<V>()) == table(old(entries)@, name_of::<V>()).remove(
            name@,
        ),
        taken == if table(old(entries)@, name_of::<V>()).contains_key(name@) {
            Some(table(old(entries)@, name_of::<V>())[name@].value)
        } else {
            None
        },
{
    match find(entries, name) {
        Some(i) => {
            proof {
                lemma_table_remove(entries@, name_of::<V>(), i as int);
                lemma_table_at(entries@, name_of::<V>(), i as int);
            }
            let entry = entries.remove(i);
            Some(entry.value)
        },
        None => {
            assert(table(entries@, name_of::<V>()).remove(name@) =~= table(
                entries@,
                name_of::<V>(),
            ));
            None
        },
    }
}

} // verus!
