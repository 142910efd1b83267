//! Selecting the latest tag among raw candidates: parse each candidate,
//! silently discard what does not parse, keep only the tags whose prefix is
//! exactly the requested one (both may be absent), and take the maximum under
//! the tag order. When nothing is kept, the initial tag `0.1.0` with the
//! requested prefix is the baseline.

use vstd::prelude::*;

use crate::order::counted_or_absent;
use crate::order::lemma_tag_cmp_antisym;
use crate::order::lemma_tag_cmp_refl;
use crate::order::lemma_tag_le_trans;
use crate::order::tag_le;
use crate::tag::parse_tag;
use crate::tag::wf_tag;
use crate::tag::Tag;
use crate::text::str_eq;
use crate::version::Version;
use crate::version::VersionView;

verus! {

/// The baseline version `0.1.0`.
pub open spec fn initial_version() -> VersionView {
    VersionView {
        major: 0,
        minor: 1,
        patch: 0,
        pre: Seq::<char>::empty(),
        build: Seq::<char>::empty(),
    }
}

impl Tag {
    /// The baseline tag `0.1.0`, with no prefix.
    pub fn initial() -> (r: Tag)
        ensures
            r@.prefix is None,
            r@.v == initial_version(),
            wf_tag(r@),
    {
        let r = Tag {
            prefix: None,
            v: Version {
                major: 0,
                minor: 1,
                patch: 0,
                pre: String::new(),
                build: String::new(),
            },
        };
        proof {
            assert(r@.v =~= initial_version());
        }
        r
    }
}

/// The model of an optional prefix.
pub open spec fn opt_str_view(p: Option<String>) -> Option<Seq<char>> {
    match p {
        Some(s) => Some(s@),
        None => None,
    }
}

/// A raw candidate is kept when it parses and its prefix is exactly `pfx`.
pub open spec fn keeps(raw: Seq<char>, pfx: Option<Seq<char>>) -> bool {
    &&& parse_tag(raw) is Some
    &&& parse_tag(raw).unwrap().prefix == pfx
}

/// Any two kept candidates' prerelease labels are comparable: wherever their
/// numeric components tie and both carry a label, the labels are of the same
/// kind. Under this condition the tag order is transitive over the kept tags,
/// and selection returns a true maximum. In particular it holds whenever
/// every kept label is a counted `pre<N>` label — the labels this library
/// itself produces.
pub open spec fn kept_comparable(candidates: Seq<String>, pfx: Option<Seq<char>>) -> bool {
    forall|i: int, j: int|
        #![trigger keeps(candidates[i]@, pfx), keeps(candidates[j]@, pfx)]
        0 <= i < candidates.len() && 0 <= j < candidates.len() && keeps(candidates[i]@, pfx)
            && keeps(candidates[j]@, pfx) ==> crate::order::pre_comparable(
            parse_tag(candidates[i]@).unwrap().v,
            parse_tag(candidates[j]@).unwrap().v,
        )
}

/// Every kept candidate's prerelease label is absent or counted. Kept tags
/// are then pairwise comparable.
pub proof fn lemma_counted_kept_comparable(candidates: Seq<String>, pfx: Option<Seq<char>>)
    requires
        forall|i: int|
            0 <= i < candidates.len() && keeps(#[trigger] candidates[i]@, pfx)
                ==> counted_or_absent(parse_tag(candidates[i]@).unwrap().v),
    ensures
        kept_comparable(candidates, pfx),
{
}

/// Exact equality of optional prefixes.
pub fn opt_prefix_eq(a: &Option<String>, b: &Option<String>) -> (r: bool)
    ensures
        r <==> opt_str_view(*a) == opt_str_view(*b),
{
    match (a, b) {
        (Option::None, Option::None) => true,
        (Option::Some(x), Option::Some(y)) => str_eq(x.as_str(), y.as_str()),
        _ => false,
    }
}

/// A copy of an optional prefix.
fn clone_opt_string(p: &Option<String>) -> (r: Option<String>)
    ensures
        opt_str_view(r) == opt_str_view(*p),
{
    match p {
        Some(s) => Some(s.clone()),
        None => None,
    }
}

/// Picks the latest tag among the candidates with exactly the requested
/// prefix, or the initial tag carrying that prefix when none is kept. The
/// result is always one of the kept tags or the baseline; whenever the kept
/// tags are pairwise comparable, the result is maximal under the tag order.
pub fn select_latest(candidates: &Vec<String>, prefix: &Option<String>) -> (r: Tag)
    ensures
        crate::version::wf_version(r@.v),
        crate::tag::wf_prefix(opt_str_view(*prefix)) ==> wf_tag(r@),
        r@.prefix == opt_str_view(*prefix),
        (exists|i: int|
            0 <= i < candidates@.len() && keeps(#[trigger] candidates@[i]@, opt_str_view(*prefix))
                && r@ == parse_tag(candidates@[i]@).unwrap()) || ((forall|i: int|
            0 <= i < candidates@.len() ==> !keeps(
                #[trigger] candidates@[i]@,
                opt_str_view(*prefix),
            )) && r@.v == initial_version()),
        kept_comparable(candidates@, opt_str_view(*prefix)) ==> forall|i: int|
            0 <= i < candidates@.len() && keeps(#[trigger] candidates@[i]@, opt_str_view(*prefix))
                ==> tag_le(parse_tag(candidates@[i]@).unwrap(), r@),
{
    let ghost pfx = opt_str_view(*prefix);
    let mut best: Option<Tag> = None;
    let mut k: usize = 0;
    while k < candidates.len()
        invariant
            0 <= k <= candidates@.len(),
            pfx == opt_str_view(*prefix),
            best is None ==> forall|i: int| 0 <= i < k ==> !keeps(#[trigger] candidates@[i]@, pfx),
            best matches Some(b) ==> wf_tag(b@) && b@.prefix == pfx && (exists|i: int|
                0 <= i < k && keeps(#[trigger] candidates@[i]@, pfx) && b@ == parse_tag(
                    candidates@[i]@,
                ).unwrap()) && (kept_comparable(candidates@, pfx) ==> forall|i: int|
                0 <= i < k && keeps(#[trigger] candidates@[i]@, pfx) ==> tag_le(
                    parse_tag(candidates@[i]@).unwrap(),
                    b@,
                )),
        decreases candidates@.len() - k,
    {
        match Tag::parse(candidates[k].as_str()) {
            Ok(t) => {
                let ghost tv = t@;
                if opt_prefix_eq(&t.prefix, prefix) {
                    assert(keeps(candidates@[k as int]@, pfx));
                    match &best {
                        None => {
                            proof {
                                lemma_tag_cmp_refl(tv);
                            }
                            best = Some(t);
                        },
                        Some(b) => {
                            let ghost bv = b@;
                            if b.lt(&t) {
                                proof {
                                    lemma_tag_cmp_refl(tv);
                                    if kept_comparable(candidates@, pfx) {
                                        assert forall|i: int|
                                            0 <= i < k + 1 && keeps(
                                                #[trigger] candidates@[i]@,
                                                pfx,
                                            ) implies tag_le(
                                            parse_tag(candidates@[i]@).unwrap(),
                                            tv,
                                        ) by {
                                            if i < k {
                                                let pi = parse_tag(candidates@[i]@).unwrap();
                                                let j = choose|j: int|
                                                    0 <= j < k && keeps(
                                                        #[trigger] candidates@[j]@,
                                                        pfx,
                                                    ) && bv == parse_tag(candidates@[j]@).unwrap();
                                                assert(crate::order::pre_comparable(pi.v, bv.v));
                                                assert(crate::order::pre_comparable(bv.v, tv.v));
                                                assert(crate::order::pre_comparable(pi.v, tv.v));
                                                lemma_tag_le_trans(pi, bv, tv);
                                            }
                                        }
                                    }
                                }
                                best = Some(t);
                            } else {
                                proof {
                                    lemma_tag_cmp_antisym(bv, tv);
                                }
                            }
                        },
                    }
                } else {
                    assert(!keeps(candidates@[k as int]@, pfx));
                }
            },
            Err(_) => {
                assert(!keeps(candidates@[k as int]@, pfx));
            },
        }
        k = k + 1;
    }
    match best {
        Some(b) => b,
        None => {
            let p = clone_opt_string(prefix);
            let r = Tag {
                prefix: p,
                v: Version {
                    major: 0,
                    minor: 1,
                    patch: 0,
                    pre: String::new(),
                    build: String::new(),
                },
            };
            proof {
                assert(r@.v =~= initial_version());
            }
            r
        },
    }
}

} // verus!
