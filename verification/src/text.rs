//! Texts and lists of texts: cutting a text into pieces, putting texts in
//! order, and the views by which the contracts of this crate speak of them.

use vstd::prelude::*;
use vstd::std_specs::iter::IteratorSpec;
use vstd::string::{StrSliceExecFns, StringExecFns};

verus! {

broadcast use vstd::string::group_string_axioms;

/// The characters of each string, in order.
pub open spec fn texts(strings: Seq<String>) -> Seq<Seq<char>> {
    strings.map_values(|s: String| s@)
}

/// `items` without every occurrence of `gone`.
pub open spec fn without(items: Seq<Seq<char>>, gone: Seq<char>) -> Seq<Seq<char>> {
    items.filter(|item: Seq<char>| item != gone)
}

/// `items` with every occurrence of `from` replaced by `to`.
pub open spec fn renamed(items: Seq<Seq<char>>, from: Seq<char>, to: Seq<char>) -> Seq<Seq<char>> {
    items.map_values(
        |item: Seq<char>|
            if item == from {
                to
            } else {
                item
            },
    )
}

/// Nothing is left of an empty list.
pub proof fn lemma_without_none(gone: Seq<char>)
    ensures
        without(Seq::empty(), gone) == Seq::<Seq<char>>::empty(),
{
    reveal(Seq::filter);
}

/// What `without` keeps of the first `i + 1` items, from what it keeps of the
/// first `i`.
pub proof fn lemma_without_step(items: Seq<Seq<char>>, gone: Seq<char>, i: int)
    requires
        0 <= i < items.len(),
    ensures
        without(items.take(i + 1), gone) == if items[i] != gone {
            without(items.take(i), gone).push(items[i])
        } else {
            without(items.take(i), gone)
        },
{
    reveal(Seq::filter);
    assert(items.take(i + 1).drop_last() =~= items.take(i));
}

/// What `without` keeps was there before, and what was there once is kept
/// once at most.
pub proof fn lemma_without_keeps_distinct(items: Seq<Seq<char>>, gone: Seq<char>)
    ensures
        forall|item: Seq<char>| #[trigger]
            without(items, gone).contains(item) ==> items.contains(item) && item != gone,
        forall|item: Seq<char>| #[trigger]
            items.contains(item) && item != gone ==> without(items, gone).contains(item),
        items.no_duplicates() ==> without(items, gone).no_duplicates(),
    decreases items.len(),
{
    reveal(Seq::filter);
    if items.len() > 0 {
        let rest = items.drop_last();
        let last = items.last();
        let kept = without(rest, gone);
        lemma_without_keeps_distinct(rest, gone);
        let all = without(items, gone);
        assert forall|item: Seq<char>| #[trigger] all.contains(item) implies items.contains(item)
            && item != gone by {
            if all.contains(item) {
                let k = choose|k: int| 0 <= k < all.len() && all[k] == item;
                if k < kept.len() {
                    assert(kept[k] == item);
                    assert(kept.contains(item));
                    let m = choose|m: int| 0 <= m < rest.len() && rest[m] == item;
                    assert(items[m] == item);
                } else {
                    assert(items[items.len() - 1] == item);
                }
            }
        }
        assert forall|item: Seq<char>| #[trigger] items.contains(item) && item != gone implies all.contains(
            item,
        ) by {
            if items.contains(item) && item != gone {
                let m = choose|m: int| 0 <= m < items.len() && items[m] == item;
                if m < rest.len() {
                    assert(rest[m] == item);
                    assert(rest.contains(item));
                    let k = choose|k: int| 0 <= k < kept.len() && kept[k] == item;
                    assert(all[k] == item);
                } else {
                    assert(all[all.len() - 1] == item);
                }
            }
        }
        if items.no_duplicates() {
            assert(rest.no_duplicates());
            if last != gone {
                assert(!kept.contains(last)) by {
                    if kept.contains(last) {
                        let m = choose|m: int| 0 <= m < rest.len() && rest[m] == last;
                        assert(items[m] == items[items.len() - 1]);
                    }
                }
                assert forall|i: int, j: int|
                    0 <= i < all.len() && 0 <= j < all.len() && i != j implies all[i] != all[j] by {
                    if i < kept.len() && j < kept.len() {
                        assert(kept[i] != kept[j]);
                    } else if i < kept.len() {
                        assert(kept[i] == all[i]);
                        assert(kept.contains(all[i]));
                    } else {
                        assert(kept[j] == all[j]);
                        assert(kept.contains(all[j]));
                    }
                }
            }
        }
    } else {
        assert(!items.contains(gone));
    }
}

/// Whether `needle` is one of `items`.
pub fn contains(items: &Vec<String>, needle: &String) -> (found: bool)
    ensures
        found == texts(items@).contains(needle@),
{
    let mut i: usize = 0;
    while i < items.len()
        invariant
            i <= items.len(),
            forall|k: int| 0 <= k < i ==> (#[trigger] items[k])@ != needle@,
        decreases items.len() - i,
    {
        if items[i] == *needle {
            assert(texts(items@)[i as int] == needle@);
            return true;
        }
        i += 1;
    }
    assert forall|k: int| 0 <= k < texts(items@).len() implies texts(items@)[k] != needle@ by {
        assert(items[k]@ != needle@);
    }
    false
}

/// A copy of `items`.
pub fn copy_of(items: &Vec<String>) -> (copy: Vec<String>)
    ensures
        texts(copy@) == texts(items@),
{
    let mut copy: Vec<String> = Vec::new();
    let mut i: usize = 0;
    while i < items.len()
        invariant
            i <= items.len(),
            copy.len() == i,
            forall|k: int| 0 <= k < i ==> (#[trigger] copy[k])@ == items[k]@,
        decreases items.len() - i,
    {
        copy.push(items[i].clone());
        i += 1;
    }
    assert(texts(copy@) =~= texts(items@));
    copy
}

/// Removes every occurrence of `gone` from `items`, keeping the order of the
/// rest.
pub fn discard(items: &mut Vec<String>, gone: &String)
    ensures
        texts(final(items)@) == without(texts(old(items)@), gone@),
{
    let ghost before = texts(items@);
    let mut kept: Vec<String> = Vec::new();
    proof {
        lemma_without_none(gone@);
        assert(before.take(0) =~= Seq::empty());
    }
    let mut i: usize = 0;
    while i < items.len()
        invariant
            i <= items.len(),
            texts(items@) == before,
            texts(kept@) == without(before.take(i as int), gone@),
        decreases items.len() - i,
    {
        proof {
            lemma_without_step(before, gone@, i as int);
            assert(texts(items@)[i as int] == items[i as int]@);
        }
        if items[i] != *gone {
            let ghost kept_before = texts(kept@);
            kept.push(items[i].clone());
            assert(texts(kept@) =~= kept_before.push(before[i as int]));
        }
        i += 1;
    }
    assert(before.take(items.len() as int) =~= before);
    *items = kept;
}

/// Replaces every occurrence of `from` in `items` by `to`.
pub fn replace(items: &mut Vec<String>, from: &String, to: &String)
    ensures
        texts(final(items)@) == renamed(texts(old(items)@), from@, to@),
{
    let ghost before = texts(items@);
    let mut i: usize = 0;
    while i < items.len()
        invariant
            i <= items.len(),
            items.len() == before.len(),
            forall|k: int| 0 <= k < i ==> (#[trigger] items[k])@ == renamed(before, from@, to@)[k],
            forall|k: int| i <= k < items.len() ==> (#[trigger] items[k])@ == before[k],
        decreases items.len() - i,
    {
        if items[i] == *from {
            items[i] = to.clone();
        }
        i += 1;
    }
    assert(texts(items@) =~= renamed(before, from@, to@));
}

/// The pieces of `text` between the characters at which `cut` holds, empty
/// ones included: one more than there are such characters.
pub open spec fn pieces(text: Seq<char>, cut: spec_fn(char) -> bool) -> Seq<Seq<char>>
    decreases text.len(),
{
    if text.len() == 0 {
        seq![Seq::empty()]
    } else if cut(text.last()) {
        pieces(text.drop_last(), cut).push(Seq::empty())
    } else {
        let before = pieces(text.drop_last(), cut);
        before.drop_last().push(before.last().push(text.last()))
    }
}

/// `parts` without the empty ones.
pub open spec fn filled(parts: Seq<Seq<char>>) -> Seq<Seq<char>>
    decreases parts.len(),
{
    if parts.len() == 0 {
        Seq::empty()
    } else if parts.last().len() == 0 {
        filled(parts.drop_last())
    } else {
        filled(parts.drop_last()).push(parts.last())
    }
}

/// Whether `c` is white space: whether it has the Unicode property
/// White_Space.
pub open spec fn white_space(c: char) -> bool {
    ||| '\u{9}' <= c <= '\u{d}'
    ||| c == ' '
    ||| c == '\u{85}'
    ||| c == '\u{a0}'
    ||| c == '\u{1680}'
    ||| '\u{2000}' <= c <= '\u{200a}'
    ||| c == '\u{2028}'
    ||| c == '\u{2029}'
    ||| c == '\u{202f}'
    ||| c == '\u{205f}'
    ||| c == '\u{3000}'
}

/// `white_space` as a predicate.
pub open spec fn is_white() -> spec_fn(char) -> bool {
    |c: char| white_space(c)
}

/// The words of `text`: its pieces between white space, without the empty
/// ones.
pub open spec fn words_of(text: Seq<char>) -> Seq<Seq<char>> {
    filled(pieces(text, is_white()))
}

/// Whether `c` is white space.
pub fn is_whitespace(c: char) -> (white: bool)
    ensures
        white == white_space(c),
{
    ('\u{9}' <= c && c <= '\u{d}') || c == ' ' || c == '\u{85}' || c == '\u{a0}' || c
        == '\u{1680}' || ('\u{2000}' <= c && c <= '\u{200a}') || c == '\u{2028}' || c
        == '\u{2029}' || c == '\u{202f}' || c == '\u{205f}' || c == '\u{3000}'
}

/// The words of `text`, as `str::split_whitespace` gives them.
pub fn words(text: &str) -> (found: Vec<String>)
    ensures
        texts(found@) == words_of(text@),
{
    let ghost all = text@;
    let ghost cut = is_white();
    let length = text.unicode_len();
    let mut found: Vec<String> = Vec::new();
    let mut at: usize = 0;
    let mut start: usize = 0;
    let ghost mut done: Seq<Seq<char>> = Seq::empty();
    proof {
        assert(all.take(0) =~= Seq::<char>::empty());
        assert(all.subrange(0, 0) =~= Seq::<char>::empty());
        assert(seq![Seq::<char>::empty()] =~= done.push(Seq::<char>::empty()));
        assert(texts(found@) =~= filled(done));
    }
    for c in it: text.chars()
        invariant
            it.seq() == all,
            all == text@,
            cut == is_white(),
            length == all.len(),
            at == it.index(),
            start <= at <= length,
            pieces(all.take(at as int), cut) == done.push(all.subrange(start as int, at as int)),
            texts(found@) == filled(done),
    {
        proof {
            assert(all.take(at + 1).drop_last() =~= all.take(at as int));
            assert(all.take(at + 1).last() == c);
        }
        let ghost current = all.subrange(start as int, at as int);
        if is_whitespace(c) {
            proof {
                assert(done.push(current).drop_last() =~= done);
                assert(all.subrange(at + 1, at + 1) =~= Seq::<char>::empty());
            }
            if at > start {
                let ghost before = texts(found@);
                found.push(text.substring_char(start, at).to_owned());
                assert(texts(found@) =~= before.push(current));
            }
            proof {
                done = done.push(current);
            }
            start = at + 1;
        } else {
            proof {
                assert(done.push(current).drop_last() =~= done);
                assert(current.push(c) =~= all.subrange(start as int, at + 1));
            }
        }
        at += 1;
    }
    proof {
        assert(all.take(at as int) =~= all);
        assert(done.push(all.subrange(start as int, at as int)).drop_last() =~= done);
    }
    if at > start {
        let ghost before = texts(found@);
        found.push(text.substring_char(start, at).to_owned());
        assert(texts(found@) =~= before.push(all.subrange(start as int, at as int)));
    }
    found
}

/// Whether `text` begins with `prefix`.
pub fn starts_with(text: &str, prefix: &str) -> (found: bool)
    ensures
        found == prefix@.is_prefix_of(text@),
{
    let mut left = text.chars();
    let mut right = prefix.chars();
    let ghost mut at: int = 0;
    loop
        invariant
            0 <= at <= text@.len(),
            at <= prefix@.len(),
            left.remaining() == text@.skip(at),
            right.remaining() == prefix@.skip(at),
            text@.take(at) == prefix@.take(at),
        decreases text@.len() - at,
    {
        match right.next() {
            None => {
                assert(prefix@.take(at) =~= prefix@);
                return true;
            },
            Some(wanted) => match left.next() {
                None => {
                    return false;
                },
                Some(found) => {
                    if found != wanted {
                        assert(text@[at] != prefix@[at]);
                        return false;
                    }
                    proof {
                        assert(text@.take(at + 1) =~= text@.take(at).push(text@[at]));
                        assert(prefix@.take(at + 1) =~= prefix@.take(at).push(prefix@[at]));
                        assert(text@.skip(at).drop_first() =~= text@.skip(at + 1));
                        assert(prefix@.skip(at).drop_first() =~= prefix@.skip(at + 1));
                        at = at + 1;
                    }
                },
            },
        }
    }
}

/// Whether two texts are the same.
pub fn same(left: &str, right: &str) -> (same: bool)
    ensures
        same == (left@ == right@),
{
    let forth = starts_with(left, right);
    let back = starts_with(right, left);
    proof {
        if forth && back {
            assert(left@.len() == right@.len());
            assert(left@ =~= right@);
        }
    }
    forth && back
}

/// `items` put one after the other with `between` between them.
pub open spec fn joined(items: Seq<Seq<char>>, between: Seq<char>) -> Seq<char>
    decreases items.len(),
{
    if items.len() == 0 {
        Seq::empty()
    } else if items.len() == 1 {
        items[0]
    } else {
        joined(items.drop_last(), between) + between + items.last()
    }
}

/// `items` put one after the other with `between` between them.
pub fn join(items: &Vec<String>, between: &str) -> (whole: String)
    ensures
        whole@ == joined(texts(items@), between@),
{
    let mut whole = String::new();
    let mut i: usize = 0;
    while i < items.len()
        invariant
            i <= items.len(),
            whole@ == joined(texts(items@).take(i as int), between@),
        decreases items.len() - i,
    {
        proof {
            let all = texts(items@);
            assert(all.take(i + 1).drop_last() =~= all.take(i as int));
            assert(all.take(i + 1).last() == items[i as int]@);
            if i == 0 {
                assert(all.take(1)[0] == items[0]@);
                assert(Seq::<char>::empty() + items[0]@ =~= items[0]@);
            }
        }
        if i > 0 {
            whole.append(between);
        }
        whole.append(items[i].as_str());
        i += 1;
    }
    assert(texts(items@).take(items.len() as int) =~= texts(items@));
    whole
}

/// Whether `left` comes before `right` or is the same text, in the order of
/// strings: the first character in which they differ decides, by its code
/// point, and a text comes before those that it begins.
pub open spec fn text_le(left: Seq<char>, right: Seq<char>) -> bool
    decreases left.len(),
{
    if left.len() == 0 {
        true
    } else if right.len() == 0 {
        false
    } else if left[0] != right[0] {
        left[0] < right[0]
    } else {
        text_le(left.skip(1), right.skip(1))
    }
}

/// Whether `items` is in strictly rising order.
pub open spec fn rising(items: Seq<Seq<char>>) -> bool {
    forall|i: int, j: int|
        0 <= i < j < items.len() ==> text_le(#[trigger] items[i], #[trigger] items[j]) && items[i]
            != items[j]
}

/// Of two texts one comes first.
pub proof fn lemma_text_le_total(left: Seq<char>, right: Seq<char>)
    ensures
        text_le(left, right) || text_le(right, left),
    decreases left.len(),
{
    if left.len() > 0 && right.len() > 0 && left[0] == right[0] {
        lemma_text_le_total(left.skip(1), right.skip(1));
    }
}

/// Two texts that each come before the other are the same.
pub proof fn lemma_text_le_antisymmetric(left: Seq<char>, right: Seq<char>)
    requires
        text_le(left, right),
        text_le(right, left),
    ensures
        left == right,
    decreases left.len(),
{
    if left.len() == 0 || right.len() == 0 {
        assert(left =~= right);
    } else {
        lemma_text_le_antisymmetric(left.skip(1), right.skip(1));
        assert(left =~= seq![left[0]] + left.skip(1));
        assert(right =~= seq![right[0]] + right.skip(1));
    }
}

/// The order of texts is transitive.
pub proof fn lemma_text_le_transitive(a: Seq<char>, b: Seq<char>, c: Seq<char>)
    requires
        text_le(a, b),
        text_le(b, c),
    ensures
        text_le(a, c),
    decreases a.len(),
{
    if a.len() > 0 && b.len() > 0 && c.len() > 0 {
        if a[0] == b[0] && b[0] == c[0] {
            lemma_text_le_transitive(a.skip(1), b.skip(1), c.skip(1));
        }
    }
}

/// Every text comes before itself.
pub proof fn lemma_text_le_reflexive(a: Seq<char>)
    ensures
        text_le(a, a),
    decreases a.len(),
{
    if a.len() > 0 {
        lemma_text_le_reflexive(a.skip(1));
    }
}

/// Whether `left` comes before `right` or is the same, as `<=` on strings
/// decides.
pub fn le(left: &str, right: &str) -> (before: bool)
    ensures
        before == text_le(left@, right@),
{
    let mut first = left.chars();
    let mut second = right.chars();
    let ghost mut at: int = 0;
    loop
        invariant
            0 <= at <= left@.len(),
            at <= right@.len(),
            first.remaining() == left@.skip(at),
            second.remaining() == right@.skip(at),
            text_le(left@, right@) == text_le(left@.skip(at), right@.skip(at)),
        decreases left@.len() - at,
    {
        match first.next() {
            None => {
                return true;
            },
            Some(mine) => match second.next() {
                None => {
                    return false;
                },
                Some(theirs) => {
                    assert(left@.skip(at)[0] == mine);
                    assert(right@.skip(at)[0] == theirs);
                    if mine != theirs {
                        return mine < theirs;
                    }
                    proof {
                        assert(left@.skip(at).skip(1) =~= left@.skip(at + 1));
                        assert(right@.skip(at).skip(1) =~= right@.skip(at + 1));
                        assert(left@.skip(at).drop_first() =~= left@.skip(at + 1));
                        assert(right@.skip(at).drop_first() =~= right@.skip(at + 1));
                        at = at + 1;
                    }
                },
            },
        }
    }
}

/// A set of texts has one rising order only.
pub proof fn lemma_rising_is_unique(left: Seq<Seq<char>>, right: Seq<Seq<char>>)
    requires
        rising(left),
        rising(right),
        left.to_set() == right.to_set(),
    ensures
        left == right,
    decreases left.len(),
{
    if left.len() == 0 {
        if right.len() > 0 {
            assert(right.to_set().contains(right[0]));
            assert(left.to_set().contains(right[0]));
        }
        assert(left =~= right);
    } else if right.len() == 0 {
        assert(left.to_set().contains(left[0]));
        assert(right.to_set().contains(left[0]));
    } else {
        // Each first text comes before all of the other list, so the two are the same.
        lemma_first_is_least(left, right[0]);
        lemma_first_is_least(right, left[0]);
        lemma_text_le_antisymmetric(left[0], right[0]);
        let first = left[0];
        assert forall|t: Seq<char>| left.skip(1).to_set().contains(t) <==> right.skip(
            1,
        ).to_set().contains(t) by {
            lemma_rest_of_rising(left, t);
            lemma_rest_of_rising(right, t);
            assert(left.to_set().contains(t) == right.to_set().contains(t));
        }
        assert(left.skip(1).to_set() =~= right.skip(1).to_set());
        lemma_rising_is_unique(left.skip(1), right.skip(1));
        assert(left =~= seq![left[0]] + left.skip(1));
        assert(right =~= seq![right[0]] + right.skip(1));
    }
}

/// The first text of a rising list comes before every text of the list.
proof fn lemma_first_is_least(items: Seq<Seq<char>>, t: Seq<char>)
    requires
        rising(items),
        items.len() > 0,
        items.to_set().contains(t) || items.contains(t),
    ensures
        text_le(items[0], t),
{
    let k = choose|k: int| 0 <= k < items.len() && items[k] == t;
    if k == 0 {
        lemma_text_le_reflexive(t);
    } else {
        assert(text_le(items[0], items[k]));
    }
}

/// What a rising list holds after its first text: the rest, without the first.
proof fn lemma_rest_of_rising(items: Seq<Seq<char>>, t: Seq<char>)
    requires
        rising(items),
        items.len() > 0,
    ensures
        items.skip(1).to_set().contains(t) <==> (items.to_set().contains(t) && t != items[0]),
{
    let rest = items.skip(1);
    if rest.to_set().contains(t) {
        let k = choose|k: int| 0 <= k < rest.len() && rest[k] == t;
        assert(items[k + 1] == t);
        assert(items[0] != items[k + 1]);
    }
    if items.to_set().contains(t) && t != items[0] {
        let k = choose|k: int| 0 <= k < items.len() && items[k] == t;
        assert(rest[k - 1] == t);
    }
}

/// `items` in rising order, each text once.
pub fn sort_unique(items: Vec<String>) -> (sorted: Vec<String>)
    ensures
        rising(texts(sorted@)),
        texts(sorted@).to_set() == texts(items@).to_set(),
{
    let mut sorted: Vec<String> = Vec::new();
    let ghost all = texts(items@);
    let mut pending = items;
    assert(texts(sorted@).to_set() =~= all.skip(all.len() as int).to_set());
    while pending.len() > 0
        invariant
            pending.len() <= all.len(),
            texts(pending@) == all.take(pending.len() as int),
            rising(texts(sorted@)),
            texts(sorted@).to_set() == all.skip(pending.len() as int).to_set(),
        decreases pending.len(),
    {
        let ghost before = texts(pending@);
        let ghost kept = texts(sorted@);
        let item = pending.pop().unwrap();
        proof {
            assert(before.last() == item@);
            assert(texts(pending@) =~= all.take(pending.len() as int));
            assert(all.skip(pending.len() as int) =~= seq![item@] + all.skip(pending.len() + 1));
        }
        insert_unique(&mut sorted, item);
        proof {
            let rest = all.skip(pending.len() + 1);
            let now = all.skip(pending.len() as int);
            assert forall|t: Seq<char>| now.to_set().contains(t) <==> (t == item@
                || rest.to_set().contains(t)) by {
                if now.to_set().contains(t) {
                    let k = choose|k: int| 0 <= k < now.len() && now[k] == t;
                    if k > 0 {
                        assert(rest[k - 1] == t);
                    }
                }
                if rest.to_set().contains(t) {
                    let k = choose|k: int| 0 <= k < rest.len() && rest[k] == t;
                    assert(now[k + 1] == t);
                }
                if t == item@ {
                    assert(now[0] == t);
                }
            }
            assert(texts(sorted@).to_set() =~= now.to_set());
        }
    }
    assert(all.skip(0) =~= all);
    sorted
}

/// Puts `item` into `sorted` at its place, unless it is there already.
pub fn insert_unique(sorted: &mut Vec<String>, item: String)
    requires
        rising(texts(old(sorted)@)),
    ensures
        rising(texts(final(sorted)@)),
        texts(final(sorted)@).to_set() == texts(old(sorted)@).to_set().insert(item@),
{
    let ghost before = texts(sorted@);
    let mut at: usize = 0;
    let mut placed = false;
    while at < sorted.len() && !placed
        invariant
            at <= sorted.len(),
            texts(sorted@) == before,
            rising(before),
            forall|k: int| 0 <= k < at ==> text_le(#[trigger] before[k], item@) && before[k] != item@,
            placed ==> at < sorted.len() && text_le(item@, before[at as int]) && item@
                != before[at as int],
        decreases sorted.len() - at, (if placed { 0int } else { 1int }),
    {
        assert(before[at as int] == sorted[at as int]@);
        if le(item.as_str(), sorted[at].as_str()) {
            if le(sorted[at].as_str(), item.as_str()) {
                proof {
                    lemma_text_le_antisymmetric(item@, before[at as int]);
                    assert(before.to_set().insert(item@) =~= before.to_set());
                }
                return ;
            }
            proof {
                lemma_text_le_reflexive(item@);
            }
            placed = true;
        } else {
            proof {
                lemma_text_le_total(item@, before[at as int]);
            }
            at += 1;
        }
    }
    sorted.insert(at, item);
    proof {
        let after = texts(sorted@);
        assert(after =~= before.insert(at as int, item@));
        assert forall|i: int, j: int| 0 <= i < j < after.len() implies text_le(
            #[trigger] after[i],
            #[trigger] after[j],
        ) && after[i] != after[j] by {
            if j < at {
                assert(after[i] == before[i] && after[j] == before[j]);
            } else if j == at {
                assert(after[i] == before[i]);
            } else if i < at {
                assert(after[i] == before[i] && after[j] == before[j - 1]);
            } else if i == at {
                // item comes before before[at], which comes before before[j - 1] or is it.
                assert(after[j] == before[j - 1]);
                if j - 1 > at {
                    assert(text_le(before[at as int], before[j - 1]));
                    lemma_text_le_transitive(item@, before[at as int], before[j - 1]);
                    if item@ == before[j - 1] {
                        lemma_text_le_antisymmetric(item@, before[at as int]);
                    }
                }
            } else {
                assert(after[i] == before[i - 1] && after[j] == before[j - 1]);
            }
        }
        assert forall|t: Seq<char>| after.to_set().contains(t) <==> before.to_set().insert(
            item@,
        ).contains(t) by {
            if after.to_set().contains(t) {
                let k = choose|k: int| 0 <= k < after.len() && after[k] == t;
                if k < at {
                    assert(before[k] == t);
                } else if k > at {
                    assert(before[k - 1] == t);
                }
            }
            if before.to_set().contains(t) {
                let k = choose|k: int| 0 <= k < before.len() && before[k] == t;
                if k < at {
                    assert(after[k] == t);
                } else {
                    assert(after[k + 1] == t);
                }
            }
            if t == item@ {
                assert(after[at as int] == t);
            }
        }
        assert(after.to_set() =~= before.to_set().insert(item@));
    }
}

} // verus!
