//! The last component of a path.

use crate::text::pieces;
use vstd::prelude::*;
use vstd::std_specs::iter::IteratorSpec;
use vstd::string::StrSliceExecFns;

verus! {

broadcast use vstd::string::group_string_axioms;

/// Holds of the slash.
pub open spec fn is_slash() -> spec_fn(char) -> bool {
    |c: char| c == '/'
}

/// The pieces of `path` between its slashes, empty ones included.
pub open spec fn components(path: Seq<char>) -> Seq<Seq<char>> {
    pieces(path, is_slash())
}

/// Whether a component names something: it is neither empty nor `.`.
pub open spec fn names_something(component: Seq<char>) -> bool {
    component.len() > 0 && component != seq!['.']
}

/// The last of `parts` that names something.
pub open spec fn last_named(parts: Seq<Seq<char>>) -> Option<Seq<char>>
    decreases parts.len(),
{
    if parts.len() == 0 {
        None
    } else if names_something(parts.last()) {
        Some(parts.last())
    } else {
        last_named(parts.drop_last())
    }
}

/// The file name of `path`: its last component that is neither empty nor `.`,
/// unless that component is `..` or there is none.
pub open spec fn file_name_of(path: Seq<char>) -> Option<Seq<char>> {
    match last_named(components(path)) {
        Some(name) => if name == seq!['.', '.'] {
            None
        } else {
            Some(name)
        },
        None => None,
    }
}

/// A file name is not empty, holds no slash, and is neither `.` nor `..`.
pub proof fn lemma_file_name_is_plain(path: Seq<char>)
    ensures
        file_name_of(path) matches Some(name) ==> name.len() > 0 && !name.contains('/') && name
            != seq!['.'] && name != seq!['.', '.'],
{
    lemma_components_hold_no_slash(path);
    lemma_last_named_is_one(components(path));
}

/// No component holds a slash.
pub proof fn lemma_components_hold_no_slash(path: Seq<char>)
    ensures
        components(path).len() > 0,
        forall|i: int|
            0 <= i < components(path).len() ==> !(#[trigger] components(path)[i]).contains('/'),
    decreases path.len(),
{
    if path.len() == 0 {
    } else {
        lemma_components_hold_no_slash(path.drop_last());
        let before = components(path.drop_last());
        if path.last() != '/' {
            let grown = before.last().push(path.last());
            assert forall|k: int| 0 <= k < grown.len() implies grown[k] != '/' by {
                if k < before.last().len() {
                    assert(before.last().contains(before.last()[k]));
                }
            }
        }
    }
}

/// What `last_named` finds is one of the parts and names something.
pub proof fn lemma_last_named_is_one(parts: Seq<Seq<char>>)
    ensures
        last_named(parts) matches Some(name) ==> parts.contains(name) && names_something(name),
    decreases parts.len(),
{
    if parts.len() > 0 {
        if names_something(parts.last()) {
            assert(parts[parts.len() - 1] == parts.last());
        } else {
            lemma_last_named_is_one(parts.drop_last());
            if last_named(parts) is Some {
                let name = last_named(parts).unwrap();
                let k = choose|k: int| 0 <= k < parts.drop_last().len() && parts.drop_last()[k] == name;
                assert(parts[k] == name);
            }
        }
    }
}

/// A plain name right under a directory is the file name of its path.
pub proof fn lemma_file_name_of_child(dir: Seq<char>, name: Seq<char>)
    requires
        !name.contains('/'),
        names_something(name),
        name != seq!['.', '.'],
    ensures
        file_name_of(dir + seq!['/'] + name) == Some(name),
{
    lemma_components_of_child(dir, name);
    let parts = components(dir + seq!['/'] + name);
    assert(parts.last() == name);
}

/// What follows the last slash is the last component.
pub proof fn lemma_components_of_child(dir: Seq<char>, name: Seq<char>)
    requires
        !name.contains('/'),
    ensures
        components(dir + seq!['/'] + name) == components(dir).push(name),
    decreases name.len(),
{
    let path = dir + seq!['/'] + name;
    if name.len() == 0 {
        assert(path.drop_last() =~= dir);
        assert(name =~= Seq::<char>::empty());
    } else {
        let shorter = name.drop_last();
        assert forall|k: int| 0 <= k < shorter.len() implies shorter[k] != '/' by {
            assert(name.contains(name[k]));
        }
        lemma_components_of_child(dir, shorter);
        assert(path.drop_last() =~= dir + seq!['/'] + shorter);
        assert(name.contains(name.last()));
        assert(path.last() == name.last());
        let before = components(dir).push(shorter);
        assert(before.drop_last() =~= components(dir));
        assert(shorter.push(name.last()) =~= name);
    }
}

/// The file name of `path`, as `std::path::Path::file_name` gives it for a
/// path of a Unix system: the directory part and trailing slashes or `.`
/// components are left out, and a path that ends in `..` or names nothing has
/// no file name.
pub fn file_name(path: &str) -> (name: Option<String>)
    ensures
        match name {
            Some(name) => file_name_of(path@) == Some(name@),
            None => file_name_of(path@) is None,
        },
{
    let ghost all = path@;
    let length = path.unicode_len();
    let mut at: usize = 0;
    // Where the component under the cursor starts, and whether it is made of dots only.
    let mut start: usize = 0;
    let mut dots = true;
    // The last complete component that names something.
    let mut found = false;
    let mut from: usize = 0;
    let mut to: usize = 0;
    let ghost mut done: Seq<Seq<char>> = Seq::empty();
    proof {
        assert(all.take(0) =~= Seq::<char>::empty());
        assert(all.subrange(0, 0) =~= Seq::<char>::empty());
        assert(seq![Seq::<char>::empty()] =~= done.push(Seq::<char>::empty()));
    }
    for c in it: path.chars()
        invariant
            it.seq() == all,
            all == path@,
            length == all.len(),
            at == it.index(),
            start <= at <= length,
            components(all.take(at as int)) == done.push(all.subrange(start as int, at as int)),
            dots == (forall|k: int| start <= k < at ==> all[k] == '.'),
            found == last_named(done) is Some,
            found ==> from <= to <= start && last_named(done) == Some(
                all.subrange(from as int, to as int),
            ),
    {
        proof {
            assert(all.take(at + 1).drop_last() =~= all.take(at as int));
            assert(all.take(at + 1).last() == c);
        }
        let ghost current = all.subrange(start as int, at as int);
        if c == '/' {
            proof {
                lemma_only_dots(all, start as int, at as int, dots);
                assert(done.push(current).drop_last() =~= done);
                assert(all.subrange(at + 1, at + 1) =~= Seq::<char>::empty());
            }
            if at > start && !(dots && at - start == 1) {
                found = true;
                from = start;
                to = at;
            }
            proof {
                done = done.push(current);
            }
            start = at + 1;
            dots = true;
        } else {
            proof {
                assert(done.push(current).drop_last() =~= done);
                assert(current.push(c) =~= all.subrange(start as int, at + 1));
            }
            if c != '.' {
                dots = false;
            }
        }
        at += 1;
    }
    proof {
        assert(all.take(at as int) =~= all);
        let current = all.subrange(start as int, at as int);
        lemma_only_dots(all, start as int, at as int, dots);
        assert(done.push(current).drop_last() =~= done);
    }
    if at > start && !(dots && at - start == 1) {
        found = true;
        from = start;
        to = at;
    }
    if !found {
        return None;
    }
    proof {
        let name = all.subrange(from as int, to as int);
        if name == seq!['.', '.'] {
            assert(name.len() == 2);
            assert(name[0] == '.' && name[1] == '.');
        }
    }
    let name = path.substring_char(from, to);
    if to - from == 2 && name.get_char(0) == '.' && name.get_char(1) == '.' {
        assert(name@ =~= seq!['.', '.']);
        None
    } else {
        Some(name.to_owned())
    }
}

/// A stretch of a text is `.` exactly when it is one character long and made
/// of dots only.
proof fn lemma_only_dots(all: Seq<char>, start: int, at: int, dots: bool)
    requires
        0 <= start <= at <= all.len(),
        dots == (forall|k: int| start <= k < at ==> all[k] == '.'),
    ensures
        (all.subrange(start, at) == seq!['.']) == (dots && at - start == 1),
{
    let run = all.subrange(start, at);
    if dots && at - start == 1 {
        assert(run[0] == all[start]);
        assert(run =~= seq!['.']);
    }
    if run == seq!['.'] {
        assert(run.len() == 1);
        assert(run[0] == '.');
        assert(all[start] == run[0]);
    }
}

} // verus!
