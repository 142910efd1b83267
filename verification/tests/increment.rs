use nexttag::policy::increment_tag;
use nexttag::policy::BumpIntent;
use nexttag::tag::Tag;

#[test]
fn bumps_the_major_version() {
    let before = Tag::parse("v0.1.0").unwrap();
    let after = increment_tag(before, BumpIntent::Major { with_pre: false });
    assert_eq!(after, Tag::parse("v1.0.0").unwrap());
}

#[test]
fn bumps_the_minor_version() {
    let before = Tag::parse("v0.1.1").unwrap();
    let after = increment_tag(before, BumpIntent::Minor { with_pre: false });
    assert_eq!(after, Tag::parse("v0.2.0").unwrap());
}

#[test]
fn bumps_the_patch_version() {
    let before = Tag::parse("v0.1.1").unwrap();
    let after = increment_tag(before, BumpIntent::Patch);
    assert_eq!(after, Tag::parse("v0.1.2").unwrap());
}

#[test]
fn bumps_to_the_next_pretag() {
    let before = Tag::parse("v0.1.1-pre5").unwrap();
    let after = increment_tag(before, BumpIntent::Pre);
    assert_eq!(after, Tag::parse("v0.1.1-pre6").unwrap());
}

#[test]
fn bumps_to_the_version_without_pretag_suffix() {
    let before = Tag::parse("v0.1.1-pre5").unwrap();
    let after = increment_tag(before, BumpIntent::Patch);
    assert_eq!(after, Tag::parse("v0.1.1").unwrap());
}

#[test]
fn when_not_a_pretag_bumps_the_patch_as_well() {
    let before = Tag::parse("v0.1.1").unwrap();
    let after = increment_tag(before, BumpIntent::Pre);
    assert_eq!(after, Tag::parse("v0.1.2-pre0").unwrap());
}

#[test]
fn can_choose_to_bump_any_other_field_with_pretag() {
    let before = Tag::parse("v0.1.1").unwrap();
    let after = increment_tag(before, BumpIntent::Minor { with_pre: true });
    assert_eq!(after, Tag::parse("v0.2.0-pre0").unwrap());

    let before = Tag::parse("v0.1.1").unwrap();
    let after = increment_tag(before, BumpIntent::Major { with_pre: true });
    assert_eq!(after, Tag::parse("v1.0.0-pre0").unwrap());
}

#[test]
fn major_with_pretag_continues_an_open_series() {
    let before = Tag::parse("v0.1.1-pre5").unwrap();
    let after = increment_tag(before, BumpIntent::Major { with_pre: true });
    assert_eq!(after, Tag::parse("v1.0.0-pre6").unwrap());
}

#[test]
fn an_unnumbered_label_restarts_the_series() {
    let before = Tag::parse("v1.0.0-alpha").unwrap();
    let after = increment_tag(before, BumpIntent::Pre);
    assert_eq!(after, Tag::parse("v1.0.0-pre0").unwrap());
}

#[test]
fn the_prefix_is_kept_through_a_bump() {
    let before = Tag::parse("app@v0.3.4").unwrap();
    let after = increment_tag(before, BumpIntent::Minor { with_pre: false });
    assert_eq!(after, Tag::parse("app@v0.4.0").unwrap());
    assert_eq!(after.render(), "app@v0.4.0");
}

#[test]
fn a_counter_that_cannot_advance_restarts_the_series() {
    // The label's counter fills the machine word, so its successor restarts
    // the series rather than overflow.
    let before = Tag::parse("v1.0.0-pre18446744073709551615").unwrap();
    let after = increment_tag(before, BumpIntent::Pre);
    assert_eq!(after, Tag::parse("v1.0.0-pre0").unwrap());
}

#[test]
fn a_counter_with_leading_zeros_still_counts() {
    let before = Tag::parse("v1.0.0-pre05").unwrap();
    let after = increment_tag(before, BumpIntent::Pre);
    assert_eq!(after, Tag::parse("v1.0.0-pre6").unwrap());
}

#[test]
fn build_metadata_is_cleared_by_a_bump() {
    let before = Tag::parse("v0.1.1+build.7").unwrap();
    let after = increment_tag(before, BumpIntent::Patch);
    assert_eq!(after.render(), "v0.1.2");
    assert_eq!(after, Tag::parse("v0.1.2").unwrap());
}
