use nexttag::tag::Tag;

fn lt(a: &str, b: &str) -> bool {
    let ta = Tag::parse(a).unwrap();
    let tb = Tag::parse(b).unwrap();
    ta.lt(&tb)
}

#[test]
fn a_prerelease_sorts_before_its_release_and_releases_by_number() {
    assert!(lt("v0.1.0-pre0", "v0.1.0"));
    assert!(lt("v0.1.0", "v0.2.0"));
    assert!(lt("v0.2.0", "v1.0.0"));
    assert!(!lt("v1.0.0", "v0.2.0"));
    assert!(!lt("v0.1.0", "v0.1.0-pre0"));
}

#[test]
fn the_order_is_total_on_equal_tags() {
    let a = Tag::parse("v1.2.3-pre4").unwrap();
    let b = Tag::parse("v1.2.3-pre4").unwrap();
    assert!(!a.lt(&b));
    assert!(!b.lt(&a));
    assert_eq!(a.compare(&b), 0);
}

#[test]
fn counted_labels_compare_by_their_counter() {
    assert!(lt("v1.0.0-pre9", "v1.0.0-pre10"));
    assert!(lt("v1.0.0-pre0", "v1.0.0-pre1"));
}

#[test]
fn other_labels_fall_back_to_lexicographic_order() {
    assert!(lt("v1.0.0-alpha", "v1.0.0-beta"));
    assert!(lt("v1.0.0-alpha", "v1.0.0-alpha.1"));
}

#[test]
fn numeric_components_are_not_compared_as_text() {
    assert!(lt("v2.0.0", "v10.0.0"));
    assert!(lt("v1.9.0", "v1.10.0"));
    assert!(lt("v1.0.9", "v1.0.10"));
}

#[test]
fn the_prefix_breaks_ties_and_an_absent_prefix_sorts_first() {
    assert!(lt("v1.0.0", "app@v1.0.0"));
    assert!(lt("app@v1.0.0", "lib@v1.0.0"));
    // The version comes first: a smaller version wins over any prefix.
    assert!(lt("lib@v0.9.0", "app@v1.0.0"));
}

#[test]
fn counters_with_leading_zeros_compare_by_value() {
    let a = Tag::parse("v1.0.0-pre05").unwrap();
    let b = Tag::parse("v1.0.0-pre5").unwrap();
    assert_eq!(a.compare(&b), 0);
    assert!(lt("v1.0.0-pre05", "v1.0.0-pre6"));
}

#[test]
fn build_metadata_does_not_order_or_distinguish_tags() {
    let a = Tag::parse("v1.0.0+one").unwrap();
    let b = Tag::parse("v1.0.0+two").unwrap();
    assert_eq!(a.compare(&b), 0);
    assert_eq!(a, b);
}
