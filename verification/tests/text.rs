use yeet::text::{
    contains, copy_of, discard, is_whitespace, join, le, replace, sort_unique, starts_with, words,
};

fn strings(items: &[&str]) -> Vec<String> {
    items.iter().map(|item| item.to_string()).collect()
}

#[test]
fn whitespace_agrees_with_std() {
    for code in 0..=0x10FFFFu32 {
        if let Some(c) = char::from_u32(code) {
            assert_eq!(is_whitespace(c), c.is_whitespace(), "U+{code:04X}");
        }
    }
}

#[test]
fn words_agree_with_std() {
    let samples = [
        "",
        " ",
        "a",
        " a ",
        "a b",
        "a  b\t\tc\n",
        "trusted-public-keys = key1 key2",
        "\u{a0}x\u{2003}y\u{3000}",
        "  leading and trailing  ",
        "ünï cödé wörds",
    ];
    for text in samples {
        let expected: Vec<String> = text.split_whitespace().map(str::to_owned).collect();
        assert_eq!(words(text), expected, "{text:?}");
    }
}

#[test]
fn starts_with_agrees_with_std() {
    let samples = ["", "a", "ab", "abc", "b", "trusted-public-keys", "trusted-public-keys = x", "é", "éa"];
    for text in samples {
        for prefix in samples {
            assert_eq!(starts_with(text, prefix), text.starts_with(prefix), "{text:?} {prefix:?}");
        }
    }
}

#[test]
fn order_agrees_with_std() {
    let samples = ["", "a", "aa", "ab", "b", "B", "é", "e", "z", "\u{10000}", "\u{ffff}", "a\u{0}", "~"];
    for left in samples {
        for right in samples {
            assert_eq!(le(left, right), left <= right, "{left:?} {right:?}");
        }
    }
}

#[test]
fn sort_unique_sorts_and_drops_repeats() {
    assert_eq!(sort_unique(strings(&[])), strings(&[]));
    assert_eq!(sort_unique(strings(&["b", "a", "c", "a", "b"])), strings(&["a", "b", "c"]));
    let mut expected = strings(&["k2", "K1", "", "k10", "k1", "k2", "é"]);
    let sorted = sort_unique(expected.clone());
    expected.sort();
    expected.dedup();
    assert_eq!(sorted, expected);
}

#[test]
fn join_puts_the_separator_between() {
    assert_eq!(join(&strings(&[]), " "), "");
    assert_eq!(join(&strings(&["a"]), " "), "a");
    assert_eq!(join(&strings(&["a", "b", "c"]), " "), "a b c");
    assert_eq!(join(&strings(&["", ""]), ", "), ", ");
}

#[test]
fn list_helpers() {
    let items = strings(&["a", "b", "a", "c"]);
    assert!(contains(&items, &"c".to_owned()));
    assert!(!contains(&items, &"d".to_owned()));
    assert_eq!(copy_of(&items), items);

    let mut without_a = items.clone();
    discard(&mut without_a, &"a".to_owned());
    assert_eq!(without_a, strings(&["b", "c"]));

    let mut renamed = items.clone();
    replace(&mut renamed, &"a".to_owned(), &"x".to_owned());
    assert_eq!(renamed, strings(&["x", "b", "x", "c"]));
}
