//! The order on tags. Versions are compared by their numeric components; a
//! prerelease sorts strictly before the corresponding release; two counted
//! `pre<N>` labels are ordered by their counters; any other pair of labels
//! falls back to lexicographic comparison. Tags are ordered by version first,
//! with the prefix as a lexicographic tie-break so the order is total. Build
//! metadata is ignored throughout.

use vstd::prelude::*;

use crate::tag::Tag;
use crate::tag::TagView;
use crate::text::lex_cmp;
use crate::text::lemma_lex_cmp_antisym;
use crate::text::lemma_lex_cmp_eq;
use crate::text::lemma_lex_cmp_trans_le;
use crate::text::lemma_lex_cmp_trans_lt;
use crate::text::str_cmp;
use crate::version::counter_of;
use crate::version::counter_val;
use crate::version::is_pre_counter;
use crate::version::Version;
use crate::version::VersionView;

verus! {

/// Three-way comparison of integers.
pub open spec fn cmp_int(a: int, b: int) -> int {
    if a < b {
        -1
    } else if a == b {
        0
    } else {
        1
    }
}

/// Comparison of two nonempty prerelease labels.
pub open spec fn pre_cmp(a: Seq<char>, b: Seq<char>) -> int
    recommends
        a.len() > 0,
        b.len() > 0,
{
    if is_pre_counter(a) && is_pre_counter(b) {
        cmp_int(counter_val(a) as int, counter_val(b) as int)
    } else {
        lex_cmp(a, b)
    }
}

/// Comparison of versions; build metadata is ignored.
pub open spec fn version_cmp(a: VersionView, b: VersionView) -> int {
    if a.major != b.major {
        cmp_int(a.major as int, b.major as int)
    } else if a.minor != b.minor {
        cmp_int(a.minor as int, b.minor as int)
    } else if a.patch != b.patch {
        cmp_int(a.patch as int, b.patch as int)
    } else if a.pre.len() == 0 && b.pre.len() == 0 {
        0
    } else if b.pre.len() == 0 {
        -1
    } else if a.pre.len() == 0 {
        1
    } else {
        pre_cmp(a.pre, b.pre)
    }
}

/// Comparison of optional prefixes: an absent prefix sorts first.
pub open spec fn prefix_cmp(a: Option<Seq<char>>, b: Option<Seq<char>>) -> int {
    match (a, b) {
        (Option::None, Option::None) => 0,
        (Option::None, Option::Some(_)) => -1,
        (Option::Some(_), Option::None) => 1,
        (Option::Some(x), Option::Some(y)) => lex_cmp(x, y),
    }
}

/// Comparison of tags: by version, then by prefix as a tie-break.
pub open spec fn tag_cmp(a: TagView, b: TagView) -> int {
    if version_cmp(a.v, b.v) != 0 {
        version_cmp(a.v, b.v)
    } else {
        prefix_cmp(a.prefix, b.prefix)
    }
}

pub open spec fn tag_le(a: TagView, b: TagView) -> bool {
    tag_cmp(a, b) <= 0
}

/// The version's prerelease label, when present, is a counted `pre<N>` label.
pub open spec fn counted_or_absent(v: VersionView) -> bool {
    v.pre.len() > 0 ==> is_pre_counter(v.pre)
}

/// The two labels are of the same kind: both counted, or neither.
pub open spec fn same_label_kind(x: Seq<char>, y: Seq<char>) -> bool {
    is_pre_counter(x) <==> is_pre_counter(y)
}

/// The pair's prerelease labels are consulted only when the numeric
/// components tie and both labels are present; in that position the two
/// labels must be of the same kind. A counted pair is ordered by counter
/// value while a mixed pair falls back to lexicographic order, and that mix
/// can defeat transitivity.
pub open spec fn pre_comparable(u: VersionView, w: VersionView) -> bool {
    u.major == w.major && u.minor == w.minor && u.patch == w.patch && u.pre.len() > 0
        && w.pre.len() > 0 ==> same_label_kind(u.pre, w.pre)
}

/// Pairwise label-kind agreement among the three tags, where it matters.
pub open spec fn comparable_pre(a: TagView, b: TagView, c: TagView) -> bool {
    &&& pre_comparable(a.v, b.v)
    &&& pre_comparable(b.v, c.v)
    &&& pre_comparable(a.v, c.v)
}

/// The order is reflexive.
pub proof fn lemma_tag_cmp_refl(a: TagView)
    ensures
        tag_cmp(a, a) == 0,
{
    lemma_lex_cmp_eq(a.v.pre, a.v.pre);
    match a.prefix {
        Some(p) => lemma_lex_cmp_eq(p, p),
        None => {},
    }
}

/// The order is consistent with tag equality: equal tags compare as equal.
pub proof fn lemma_tag_eq_cmp_zero(a: TagView, b: TagView)
    requires
        crate::tag::tag_eq(a, b),
    ensures
        tag_cmp(a, b) == 0,
{
    lemma_lex_cmp_eq(a.v.pre, b.v.pre);
    match (a.prefix, b.prefix) {
        (Option::Some(p), Option::Some(q)) => lemma_lex_cmp_eq(p, q),
        _ => {},
    }
}

/// Swapping the arguments flips the comparison, so the order is total.
pub proof fn lemma_tag_cmp_antisym(a: TagView, b: TagView)
    ensures
        tag_cmp(a, b) == -tag_cmp(b, a),
{
    lemma_lex_cmp_antisym(a.v.pre, b.v.pre);
    match (a.prefix, b.prefix) {
        (Option::Some(p), Option::Some(q)) => lemma_lex_cmp_antisym(p, q),
        _ => {},
    }
}

/// Totality: any two tags are comparable.
pub proof fn lemma_tag_le_total(a: TagView, b: TagView)
    ensures
        tag_le(a, b) || tag_le(b, a),
{
    lemma_tag_cmp_antisym(a, b);
}

/// Transitivity at the version level, with strictness carried through.
proof fn lemma_version_cmp_trans(a: VersionView, b: VersionView, c: VersionView)
    requires
        version_cmp(a, b) <= 0,
        version_cmp(b, c) <= 0,
        pre_comparable(a, b),
        pre_comparable(b, c),
        pre_comparable(a, c),
    ensures
        version_cmp(a, c) <= 0,
        version_cmp(a, b) < 0 || version_cmp(b, c) < 0 ==> version_cmp(a, c) < 0,
{
    lemma_lex_cmp_eq(a.pre, b.pre);
    lemma_lex_cmp_eq(b.pre, c.pre);
    lemma_lex_cmp_eq(a.pre, c.pre);
    if lex_cmp(a.pre, b.pre) < 0 && lex_cmp(b.pre, c.pre) < 0 {
        lemma_lex_cmp_trans_lt(a.pre, b.pre, c.pre);
    }
    if lex_cmp(a.pre, b.pre) == 0 {
        assert(a.pre == b.pre);
    }
    if lex_cmp(b.pre, c.pre) == 0 {
        assert(b.pre == c.pre);
    }
}

/// Transitivity of the tag order, for tags whose prerelease labels, wherever
/// they are consulted, do not mix the counted and the plain kind.
pub proof fn lemma_tag_le_trans(a: TagView, b: TagView, c: TagView)
    requires
        comparable_pre(a, b, c),
        tag_le(a, b),
        tag_le(b, c),
    ensures
        tag_le(a, c),
{
    lemma_version_cmp_trans(a.v, b.v, c.v);
    if version_cmp(a.v, c.v) == 0 {
        match (a.prefix, b.prefix, c.prefix) {
            (Option::Some(p), Option::Some(q), Option::Some(r)) => {
                lemma_lex_cmp_trans_le(p, q, r);
            },
            _ => {},
        }
    }
}

/// Three-way comparison of machine words, executable form.
fn cmp_u64(a: u64, b: u64) -> (r: i8)
    ensures
        r as int == cmp_int(a as int, b as int),
{
    if a < b {
        -1
    } else if a == b {
        0
    } else {
        1
    }
}

/// Compares two versions, executable form.
pub fn version_compare(a: &Version, b: &Version) -> (r: i8)
    ensures
        r as int == version_cmp(a@, b@),
{
    if a.major != b.major {
        return cmp_u64(a.major, b.major);
    }
    if a.minor != b.minor {
        return cmp_u64(a.minor, b.minor);
    }
    if a.patch != b.patch {
        return cmp_u64(a.patch, b.patch);
    }
    let a_empty = a.pre.as_str().unicode_len() == 0;
    let b_empty = b.pre.as_str().unicode_len() == 0;
    if a_empty && b_empty {
        0
    } else if b_empty {
        -1
    } else if a_empty {
        1
    } else {
        let ca = counter_of(a.pre.as_str());
        let cb = counter_of(b.pre.as_str());
        match (ca, cb) {
            (Option::Some(x), Option::Some(y)) => cmp_u64(x, y),
            _ => str_cmp(a.pre.as_str(), b.pre.as_str()),
        }
    }
}

impl Tag {
    /// Compares two tags, executable form.
    pub fn compare(&self, other: &Tag) -> (r: i8)
        ensures
            r as int == tag_cmp(self@, other@),
    {
        let vc = version_compare(&self.v, &other.v);
        if vc != 0 {
            return vc;
        }
        match (&self.prefix, &other.prefix) {
            (Option::None, Option::None) => 0,
            (Option::None, Option::Some(_)) => -1,
            (Option::Some(_), Option::None) => 1,
            (Option::Some(x), Option::Some(y)) => str_cmp(x.as_str(), y.as_str()),
        }
    }

    /// True when `self` sorts strictly before `other`.
    pub fn lt(&self, other: &Tag) -> (r: bool)
        ensures
            r <==> tag_cmp(self@, other@) < 0,
    {
        self.compare(other) < 0
    }
}

} // verus!
