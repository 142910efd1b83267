//! The increment policy: from a previous tag and a bump intent to the next
//! tag. The policy is a total function over well-formed inputs; conflicting
//! command flags are rejected before an intent is formed.

use vstd::prelude::*;

use crate::tag::Tag;
use crate::tag::TagView;
use crate::tag::wf_tag;
use crate::version::counter_label;
use crate::version::lemma_counter_label_valid;
use crate::version::lemma_pre_succ_valid;
use crate::version::next_prerelease;
use crate::version::pre_succ;
use crate::version::Version;
use crate::version::VersionView;

verus! {

/// What the caller wants bumped. At most one numeric component advances; a
/// major or minor bump may open (or continue) a prerelease series. A patch
/// bump finalizes: it always clears the prerelease label, so it carries no
/// prerelease choice. `Pre` alone advances the series, or opens one on top of
/// the next patch.
#[derive(Clone, Copy, Debug, PartialEq, Eq, Structural)]
pub enum BumpIntent {
    Major { with_pre: bool },
    Minor { with_pre: bool },
    Patch,
    Pre,
}

/// Why no intent could be formed from the command flags.
#[derive(Clone, Copy, Debug, PartialEq, Eq, Structural)]
pub enum IntentError {
    /// More than one of the major, minor, and patch flags was given.
    ConflictingBumps,
    /// A prerelease was requested while on the default branch.
    PrereleaseOnDefaultBranch,
}

/// The next version: build metadata is always cleared. A major or minor bump
/// resets the lower components and, when a prerelease is requested, continues
/// the previous label's series. A patch bump advances the patch only when the
/// previous version was not a prerelease: finalizing a series does not spend
/// an extra patch, since the prerelease already claimed it. A bare prerelease
/// bump advances the label's series, or claims the next patch with a fresh
/// series.
pub open spec fn next_version(v: VersionView, intent: BumpIntent) -> VersionView {
    match intent {
        BumpIntent::Major { with_pre } => VersionView {
            major: v.major + 1,
            minor: 0,
            patch: 0,
            pre: if with_pre {
                pre_succ(v.pre)
            } else {
                Seq::<char>::empty()
            },
            build: Seq::<char>::empty(),
        },
        BumpIntent::Minor { with_pre } => VersionView {
            major: v.major,
            minor: v.minor + 1,
            patch: 0,
            pre: if with_pre {
                pre_succ(v.pre)
            } else {
                Seq::<char>::empty()
            },
            build: Seq::<char>::empty(),
        },
        BumpIntent::Patch => VersionView {
            major: v.major,
            minor: v.minor,
            patch: if v.pre.len() == 0 {
                v.patch + 1
            } else {
                v.patch
            },
            pre: Seq::<char>::empty(),
            build: Seq::<char>::empty(),
        },
        BumpIntent::Pre => if v.pre.len() > 0 {
            VersionView {
                major: v.major,
                minor: v.minor,
                patch: v.patch,
                pre: pre_succ(v.pre),
                build: Seq::<char>::empty(),
            }
        } else {
            VersionView {
                major: v.major,
                minor: v.minor,
                patch: v.patch + 1,
                pre: counter_label(0),
                build: Seq::<char>::empty(),
            }
        },
    }
}

/// The next tag: the prefix is kept, the version advances.
pub open spec fn next_tag(t: TagView, intent: BumpIntent) -> TagView {
    TagView { prefix: t.prefix, v: next_version(t.v, intent) }
}

/// Computes the next tag from the previous one and the caller's intent.
pub fn increment_tag(before: Tag, intent: BumpIntent) -> (r: Tag)
    requires
        (intent matches BumpIntent::Major { .. }) ==> before@.v.major < u64::MAX,
        (intent matches BumpIntent::Minor { .. }) ==> before@.v.minor < u64::MAX,
        ((intent matches BumpIntent::Patch) || (intent matches BumpIntent::Pre))
            && before@.v.pre.len() == 0 ==> before@.v.patch < u64::MAX,
    ensures
        r@ == next_tag(before@, intent),
        wf_tag(before@) ==> wf_tag(r@),
{
    let ghost b = before@;
    let v = match intent {
        BumpIntent::Major { with_pre } => {
            let pre = if with_pre {
                next_prerelease(before.v.pre.as_str())
            } else {
                String::new()
            };
            proof {
                if with_pre {
                    lemma_pre_succ_valid(b.v.pre);
                }
            }
            Version {
                major: before.v.major + 1,
                minor: 0,
                patch: 0,
                pre,
                build: String::new(),
            }
        },
        BumpIntent::Minor { with_pre } => {
            let pre = if with_pre {
                next_prerelease(before.v.pre.as_str())
            } else {
                String::new()
            };
            proof {
                if with_pre {
                    lemma_pre_succ_valid(b.v.pre);
                }
            }
            Version {
                major: before.v.major,
                minor: before.v.minor + 1,
                patch: 0,
                pre,
                build: String::new(),
            }
        },
        BumpIntent::Patch => {
            let patch = if before.v.is_prerelease() {
                before.v.patch
            } else {
                before.v.patch + 1
            };
            Version {
                major: before.v.major,
                minor: before.v.minor,
                patch,
                pre: String::new(),
                build: String::new(),
            }
        },
        BumpIntent::Pre => {
            if before.v.is_prerelease() {
                let pre = next_prerelease(before.v.pre.as_str());
                proof {
                    lemma_pre_succ_valid(b.v.pre);
                }
                Version {
                    major: before.v.major,
                    minor: before.v.minor,
                    patch: before.v.patch,
                    pre,
                    build: String::new(),
                }
            } else {
                let pre = crate::version::first_label();
                proof {
                    lemma_counter_label_valid(0);
                }
                Version {
                    major: before.v.major,
                    minor: before.v.minor,
                    patch: before.v.patch + 1,
                    pre,
                    build: String::new(),
                }
            }
        },
    };
    let r = Tag { prefix: before.prefix, v };
    proof {
        assert(r@ =~= next_tag(b, intent));
    }
    r
}

/// Forms the intent that the command flags and the branch context call for,
/// exactly as `resolve_intent` returns it: conflicting numeric bumps are
/// refused; with no flag at all, a patch bump is assumed on the default
/// branch and a prerelease bump elsewhere; a prerelease on the default branch
/// is refused; off the default branch a prerelease is always implied.
pub open spec fn resolve(
    bump_major: bool,
    bump_minor: bool,
    bump_patch: bool,
    bump_pre: bool,
    on_default_branch: bool,
) -> Result<BumpIntent, IntentError> {
    if (bump_major && bump_minor) || (bump_major && bump_patch) || (bump_minor && bump_patch) {
        Err(IntentError::ConflictingBumps)
    } else {
        let none_given = !bump_major && !bump_minor && !bump_patch && !bump_pre;
        let patch2 = bump_patch || (none_given && on_default_branch);
        let pre2 = bump_pre || (none_given && !on_default_branch);
        if on_default_branch && pre2 {
            Err(IntentError::PrereleaseOnDefaultBranch)
        } else {
            let pre3 = pre2 || !on_default_branch;
            if bump_major {
                Ok(BumpIntent::Major { with_pre: pre3 })
            } else if bump_minor {
                Ok(BumpIntent::Minor { with_pre: pre3 })
            } else if patch2 {
                Ok(BumpIntent::Patch)
            } else {
                Ok(BumpIntent::Pre)
            }
        }
    }
}

/// Checks the command flags against the branch context and forms the intent.
pub fn resolve_intent(
    bump_major: bool,
    bump_minor: bool,
    bump_patch: bool,
    bump_pre: bool,
    on_default_branch: bool,
) -> (r: Result<BumpIntent, IntentError>)
    ensures
        r == resolve(bump_major, bump_minor, bump_patch, bump_pre, on_default_branch),
{
    if (bump_major && bump_minor) || (bump_major && bump_patch) || (bump_minor && bump_patch) {
        return Err(IntentError::ConflictingBumps);
    }
    let none_given = !bump_major && !bump_minor && !bump_patch && !bump_pre;
    let patch2 = bump_patch || (none_given && on_default_branch);
    let pre2 = bump_pre || (none_given && !on_default_branch);
    if on_default_branch && pre2 {
        return Err(IntentError::PrereleaseOnDefaultBranch);
    }
    let pre3 = pre2 || !on_default_branch;
    if bump_major {
        Ok(BumpIntent::Major { with_pre: pre3 })
    } else if bump_minor {
        Ok(BumpIntent::Minor { with_pre: pre3 })
    } else if patch2 {
        Ok(BumpIntent::Patch)
    } else {
        Ok(BumpIntent::Pre)
    }
}

} // verus!
