//! Listing and picking hosts.

use crate::host::Host;
use crate::text::{contains, rising, sort_unique, texts};
use vstd::prelude::*;

verus! {

/// The names of `hosts`.
pub open spec fn names_of(hosts: Seq<Host>) -> Seq<Seq<char>> {
    hosts.map_values(|host: Host| host.name@)
}

/// The names of `hosts`, in rising order, to pick from.
pub fn hostnames(hosts: &Vec<Host>) -> (names: Vec<String>)
    ensures
        rising(texts(names@)),
        texts(names@).to_set() == names_of(hosts@).to_set(),
{
    let mut names: Vec<String> = Vec::new();
    let mut i: usize = 0;
    while i < hosts.len()
        invariant
            i <= hosts.len(),
            names.len() == i,
            forall|k: int| 0 <= k < i ==> (#[trigger] names[k])@ == hosts[k].name@,
        decreases hosts.len() - i,
    {
        names.push(hosts[i].name.clone());
        i += 1;
    }
    assert(texts(names@) =~= names_of(hosts@));
    sort_unique(names)
}

/// Which of `hosts` are shown: all of them in a short listing, and those
/// that the user picked in a full one, in their order.
pub fn hosts(listed: Vec<Host>, full: bool, picked: &Vec<String>) -> (rest: Vec<Host>)
    ensures
        !full ==> rest == listed,
        full ==> names_of(rest@) == names_of(listed@).filter(
            |name: Seq<char>| texts(picked@).contains(name),
        ),
{
    if !full {
        return listed;
    }
    let ghost all = names_of(listed@);
    let ghost keep = |name: Seq<char>| texts(picked@).contains(name);
    let mut rest: Vec<Host> = Vec::new();
    let mut i: usize = 0;
    proof {
        reveal(Seq::filter);
        assert(all.take(0) =~= Seq::<Seq<char>>::empty());
        assert(names_of(rest@) =~= Seq::<Seq<char>>::empty());
    }
    while i < listed.len()
        invariant
            i <= listed.len(),
            all == names_of(listed@),
            keep == |name: Seq<char>| texts(picked@).contains(name),
            names_of(rest@) == all.take(i as int).filter(keep),
        decreases listed.len() - i,
    {
        proof {
            reveal(Seq::filter);
            assert(all.take(i + 1).drop_last() =~= all.take(i as int));
            assert(all.take(i + 1).last() == listed[i as int].name@);
        }
        if contains(picked, &listed[i].name) {
            let ghost before = names_of(rest@);
            rest.push(listed[i].copy());
            assert(names_of(rest@) =~= before.push(listed[i as int].name@));
        }
        i += 1;
    }
    assert(all.take(listed.len() as int) =~= all);
    rest
}

} // verus!
