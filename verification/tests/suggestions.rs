use azalea_brigadier::suggestion::{StringRange, Suggestion, Suggestions, SuggestionsBuilder};

fn texts(s: &Suggestions) -> Vec<String> {
    s.get_texts()
}

#[test]
fn range_helpers() {
    let r = StringRange::new(2, 5);
    assert_eq!(r, StringRange { start: 2, end: 5 });
    assert!(!r.is_empty());
    assert!(StringRange::at(3).is_empty());
    assert_eq!(StringRange::at(3), StringRange { start: 3, end: 3 });
    let e = StringRange::encompassing(&StringRange::new(2, 5), &StringRange::new(4, 9));
    assert_eq!(e, StringRange { start: 2, end: 9 });
    let e = StringRange::encompassing(&StringRange::new(4, 9), &StringRange::new(2, 5));
    assert_eq!(e, StringRange { start: 2, end: 9 });
}

#[test]
fn bar_sorts_before_foo_whatever_the_case() {
    let range = StringRange::new(0, 0);
    let out = Suggestions::create(&vec![Suggestion::new(range, "Foo"), Suggestion::new(range, "bar")]);
    assert_eq!(texts(&out), vec!["bar", "Foo"]);
}

#[test]
fn equal_without_case_sorts_by_case() {
    let range = StringRange::new(0, 0);
    let out = Suggestions::create(&vec![
        Suggestion::new(range, "foo"),
        Suggestion::new(range, "Foo"),
        Suggestion::new(range, "FOO"),
        Suggestion::new(range, "fo"),
    ]);
    assert_eq!(texts(&out), vec!["fo", "FOO", "Foo", "foo"]);
}

#[test]
fn case_is_folded_for_every_letter() {
    let range = StringRange::new(0, 0);
    let out = Suggestions::create(&vec![
        Suggestion::new(range, "öl"),
        Suggestion::new(range, "Zebra"),
        Suggestion::new(range, "Öl"),
        Suggestion::new(range, "apfel"),
    ]);
    assert_eq!(texts(&out), vec!["apfel", "Zebra", "Öl", "öl"]);
}

#[test]
fn duplicates_of_range_and_text_are_dropped() {
    let a = StringRange::new(0, 2);
    let b = StringRange::new(1, 2);
    let out = Suggestions::create(&vec![
        Suggestion::with_tooltip(a, "x", "first"),
        Suggestion::new(b, "x"),
        Suggestion::with_tooltip(a, "x", "second"),
        Suggestion::new(a, "a"),
    ]);
    assert_eq!(out.len(), 3);
    assert_eq!(texts(&out), vec!["a", "x", "x"]);
    assert_eq!(out.get(1).get_range(), a);
    assert_eq!(out.get(1).get_tooltip(), Some("first".to_string()));
    assert_eq!(out.get(2).get_range(), b);
    assert_eq!(out.get(2).get_tooltip(), None);
    assert_eq!(out.get_range(), StringRange::new(0, 2));
}

#[test]
fn no_candidates_give_empty_suggestions() {
    let out = Suggestions::create(&vec![]);
    assert!(out.is_empty());
    assert_eq!(out.len(), 0);
    assert_eq!(out.get_range(), StringRange::new(0, 0));
    assert!(Suggestions::empty().is_empty());
    assert!(Suggestions::merge(&vec![]).is_empty());
}

#[test]
fn covering_range_holds_every_candidate() {
    let out = Suggestions::create(&vec![
        Suggestion::new(StringRange::new(3, 4), "b"),
        Suggestion::new(StringRange::new(1, 2), "a"),
        Suggestion::new(StringRange::new(2, 7), "c"),
    ]);
    assert_eq!(out.get_range(), StringRange::new(1, 7));
}

#[test]
fn merge_unions_and_sorts_again() {
    let range = StringRange::new(0, 1);
    let one = Suggestions::create(&vec![Suggestion::new(range, "Foo"), Suggestion::new(range, "apple")]);
    let two = Suggestions::create(&vec![Suggestion::new(range, "bar"), Suggestion::new(range, "Foo")]);
    let merged = Suggestions::merge(&vec![one, two]);
    assert_eq!(texts(&merged), vec!["apple", "bar", "Foo"]);
    let copy = merged.duplicate();
    assert_eq!(texts(&copy), vec!["apple", "bar", "Foo"]);
}

#[test]
fn builder_suggests_for_the_rest_of_the_input() {
    let mut b = SuggestionsBuilder::new("tp St", 3);
    assert_eq!(b.get_input(), "tp St");
    assert_eq!(b.get_start(), 3);
    assert_eq!(b.get_remaining(), "St");
    b.suggest("Steve");
    b.suggest_with_tooltip("Stan", "a player");
    b.suggest("St");
    b.suggest("Steve");
    let out = b.build();
    assert_eq!(texts(&out), vec!["Stan", "Steve"]);
    assert_eq!(out.get(0).get_range(), StringRange::new(3, 5));
    assert_eq!(out.get(0).get_tooltip(), Some("a player".to_string()));
    assert_eq!(out.get(1).get_text(), "Steve");
    assert_eq!(out.get(1).apply("tp St"), "tp Steve");
}

#[test]
fn apply_replaces_the_range() {
    let s = Suggestion::new(StringRange::new(1, 3), "XYZ");
    assert_eq!(s.apply("abcde"), "aXYZde");
    let s = Suggestion::new(StringRange::new(5, 5), "!");
    assert_eq!(s.apply("abcde"), "abcde!");
    let s = Suggestion::new(StringRange::new(0, 5), "");
    assert_eq!(s.apply("abcde"), "");
}

#[test]
fn order_of_two_candidates() {
    let r = StringRange::new(0, 0);
    let bar = Suggestion::new(r, "bar");
    let foo = Suggestion::new(r, "Foo");
    assert!(bar.comes_before(&foo));
    assert!(!foo.comes_before(&bar));
    assert!(!foo.comes_before(&foo));
    assert!(foo.same_key_as(&foo.duplicate()));
    assert!(!foo.same_key_as(&bar));
    let later = Suggestion::new(StringRange::new(0, 1), "Foo");
    assert!(foo.comes_before(&later));
    assert!(!foo.same_key_as(&later));
}
