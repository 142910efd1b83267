use nexttag::context::bookmarks_include_default;
use nexttag::context::is_default_branch;
use nexttag::policy::resolve_intent;
use nexttag::policy::BumpIntent;
use nexttag::policy::IntentError;
use nexttag::select::select_latest;
use nexttag::tag::Tag;

fn strings(raw: &[&str]) -> Vec<String> {
    raw.iter().map(|s| s.to_string()).collect()
}

#[test]
fn the_initial_tag_is_the_unprefixed_baseline() {
    assert_eq!(Tag::initial(), Tag::parse("v0.1.0").unwrap());
    assert_eq!(Tag::initial().render(), "v0.1.0");
}

#[test]
fn an_empty_candidate_set_yields_the_initial_tag() {
    let latest = select_latest(&strings(&[]), &None);
    assert_eq!(latest, Tag::parse("v0.1.0").unwrap());
    assert_eq!(latest.render(), "v0.1.0");
}

#[test]
fn an_all_unparsable_candidate_set_yields_the_initial_tag() {
    let candidates = strings(&["garbage", "v1.2", "x@", "release-2024"]);
    let latest = select_latest(&candidates, &None);
    assert_eq!(latest, Tag::parse("v0.1.0").unwrap());
}

#[test]
fn the_initial_tag_carries_the_requested_prefix() {
    let latest = select_latest(&strings(&["v3.0.0"]), &Some("app".to_string()));
    assert_eq!(latest.render(), "app@v0.1.0");
}

#[test]
fn selection_takes_the_maximum_not_the_last() {
    let candidates = strings(&["v0.3.0", "v1.2.0", "v0.9.9", "v1.0.0"]);
    let latest = select_latest(&candidates, &None);
    assert_eq!(latest, Tag::parse("v1.2.0").unwrap());
}

#[test]
fn selection_filters_by_exact_prefix() {
    let candidates = strings(&["app@v1.0.0", "v2.0.0", "lib@v3.0.0", "app@v0.5.0"]);
    let latest = select_latest(&candidates, &Some("app".to_string()));
    assert_eq!(latest, Tag::parse("app@v1.0.0").unwrap());
}

#[test]
fn the_absent_prefix_is_its_own_group() {
    let candidates = strings(&["app@v9.0.0", "v2.0.0", "lib@v3.0.0"]);
    let latest = select_latest(&candidates, &None);
    assert_eq!(latest, Tag::parse("v2.0.0").unwrap());
}

#[test]
fn unparsable_candidates_are_silently_discarded() {
    let candidates = strings(&["nonsense", "v1.5.0", "w2.0.0"]);
    let latest = select_latest(&candidates, &None);
    assert_eq!(latest, Tag::parse("v1.5.0").unwrap());
}

#[test]
fn a_prerelease_loses_to_its_release_during_selection() {
    let candidates = strings(&["v1.0.0-pre3", "v1.0.0", "v1.0.0-pre11"]);
    let latest = select_latest(&candidates, &None);
    assert_eq!(latest, Tag::parse("v1.0.0").unwrap());
}

#[test]
fn conflicting_bump_flags_are_refused() {
    assert_eq!(resolve_intent(true, true, false, false, true), Err(IntentError::ConflictingBumps));
    assert_eq!(resolve_intent(true, false, true, false, false), Err(IntentError::ConflictingBumps));
    assert_eq!(resolve_intent(false, true, true, true, true), Err(IntentError::ConflictingBumps));
}

#[test]
fn a_prerelease_on_the_default_branch_is_refused() {
    assert_eq!(
        resolve_intent(false, false, false, true, true),
        Err(IntentError::PrereleaseOnDefaultBranch)
    );
    assert_eq!(
        resolve_intent(true, false, false, true, true),
        Err(IntentError::PrereleaseOnDefaultBranch)
    );
}

#[test]
fn with_no_flags_the_branch_context_decides() {
    assert_eq!(resolve_intent(false, false, false, false, true), Ok(BumpIntent::Patch));
    assert_eq!(resolve_intent(false, false, false, false, false), Ok(BumpIntent::Pre));
}

#[test]
fn off_the_default_branch_a_prerelease_is_implied() {
    assert_eq!(
        resolve_intent(true, false, false, false, false),
        Ok(BumpIntent::Major { with_pre: true })
    );
    assert_eq!(
        resolve_intent(false, true, false, false, false),
        Ok(BumpIntent::Minor { with_pre: true })
    );
}

#[test]
fn on_the_default_branch_a_bump_stays_final() {
    assert_eq!(
        resolve_intent(true, false, false, false, true),
        Ok(BumpIntent::Major { with_pre: false })
    );
    assert_eq!(resolve_intent(false, false, true, false, true), Ok(BumpIntent::Patch));
}

#[test]
fn default_branch_names_are_recognized() {
    assert!(is_default_branch("main"));
    assert!(is_default_branch("master"));
    assert!(!is_default_branch("dev"));
    assert!(!is_default_branch("main2"));
}

#[test]
fn bookmark_listings_are_searched_for_the_default() {
    assert!(bookmarks_include_default("main"));
    assert!(bookmarks_include_default("feature main*"));
    assert!(!bookmarks_include_default("feature"));
    assert!(!bookmarks_include_default("mai"));
}
