use nexttag::tag::Tag;

#[test]
fn parses_a_plain_version() {
    let t = Tag::parse("v1.2.3").unwrap();
    assert!(t.prefix.is_none());
    assert_eq!(t.v.major, 1);
    assert_eq!(t.v.minor, 2);
    assert_eq!(t.v.patch, 3);
    assert_eq!(t.v.pre, "");
    assert_eq!(t.v.build, "");
}

#[test]
fn parses_prefix_prerelease_and_build() {
    let t = Tag::parse("service-a@v0.10.2-pre11+linux.amd64").unwrap();
    assert_eq!(t.prefix.as_deref(), Some("service-a"));
    assert_eq!(t.v.major, 0);
    assert_eq!(t.v.minor, 10);
    assert_eq!(t.v.patch, 2);
    assert_eq!(t.v.pre, "pre11");
    assert_eq!(t.v.build, "linux.amd64");
}

#[test]
fn parsing_is_lenient_about_the_version_marker() {
    assert_eq!(Tag::parse("1.2.3").unwrap(), Tag::parse("v1.2.3").unwrap());
    assert_eq!(Tag::parse("app@1.2.3").unwrap(), Tag::parse("app@v1.2.3").unwrap());
}

#[test]
fn rendering_is_canonical_and_never_emits_build_metadata() {
    assert_eq!(Tag::parse("v1.2.3").unwrap().render(), "v1.2.3");
    assert_eq!(Tag::parse("app@v1.2.3-pre0").unwrap().render(), "app@v1.2.3-pre0");
    assert_eq!(Tag::parse("v1.2.3-rc.1+build.5").unwrap().render(), "v1.2.3-rc.1");
}

#[test]
fn parsing_inverts_rendering() {
    for raw in [
        "v0.1.0",
        "v1.2.3-pre7",
        "app@v9.8.7",
        "service-a@v0.0.1-alpha.2.zz",
        "@v1.0.0",
    ] {
        let t = Tag::parse(raw).unwrap();
        let again = Tag::parse(t.render().as_str()).unwrap();
        assert_eq!(again, t);
    }
}

#[test]
fn a_tag_knows_whether_it_is_a_prerelease() {
    assert!(Tag::parse("v1.0.0-pre0").unwrap().v.is_prerelease());
    assert!(Tag::parse("v1.0.0-alpha").unwrap().v.is_prerelease());
    assert!(!Tag::parse("v1.0.0").unwrap().v.is_prerelease());
    assert!(!Tag::parse("v1.0.0+build").unwrap().v.is_prerelease());
}

#[test]
fn rejects_malformed_tags() {
    for raw in [
        "",
        "v",
        "v1",
        "v1.2",
        "v1.2.3.4",
        "v1.2.x",
        "v01.2.3",
        "v1.02.3",
        "v1.2.03",
        "v1.2.3-",
        "v1.2.3-pre..1",
        "v1.2.3-01",
        "v1.2.3+",
        "v1.2.3+a..b",
        "v1.2.3-pre_1",
        "app@",
        "app@v1.2",
        "not a tag",
        "v-1.2.3",
    ] {
        assert!(Tag::parse(raw).is_err(), "{raw} should not parse");
    }
}

#[test]
fn numeric_components_fill_the_machine_word_and_no_more() {
    let t = Tag::parse("v18446744073709551615.0.1").unwrap();
    assert_eq!(t.v.major, u64::MAX);
    assert!(Tag::parse("v18446744073709551616.0.1").is_err());
}

#[test]
fn an_alphanumeric_identifier_may_start_with_zero() {
    let t = Tag::parse("v1.2.3-0a.0").unwrap();
    assert_eq!(t.v.pre, "0a.0");
    assert!(Tag::parse("v1.2.3-00").is_err());
    let b = Tag::parse("v1.2.3+007").unwrap();
    assert_eq!(b.v.build, "007");
}
