//! The semantic version carried by a tag: three numeric components, an
//! optional prerelease label, and optional build metadata. Build metadata is
//! ignored by equality and ordering and is cleared whenever a new version is
//! derived.

use vstd::prelude::*;

use crate::digits::all_digits;
use crate::digits::dec_str;
use crate::digits::digits_val;
use crate::digits::is_digit;
use crate::digits::lemma_dec_str_props;
use crate::digits::parse_digits_u64;
use crate::digits::u64_to_string;
use crate::text::find;
use crate::text::lemma_find_is;
use crate::text::lemma_find_props;

verus! {

/// True when `c` may appear in a prerelease or build identifier.
pub open spec fn is_ident_char(c: char) -> bool {
    is_digit(c) || ('a' <= c && c <= 'z') || ('A' <= c && c <= 'Z') || c == '-'
}

/// A single prerelease identifier: nonempty, alphanumeric or hyphen, and a
/// purely numeric identifier carries no leading zero.
pub open spec fn valid_pre_ident(s: Seq<char>) -> bool {
    &&& s.len() > 0
    &&& forall|i: int| 0 <= i < s.len() ==> is_ident_char(#[trigger] s[i])
    &&& (all_digits(s) && s.len() > 1 ==> s[0] != '0')
}

/// A single build identifier: nonempty, alphanumeric or hyphen.
pub open spec fn valid_build_ident(s: Seq<char>) -> bool {
    &&& s.len() > 0
    &&& forall|i: int| 0 <= i < s.len() ==> is_ident_char(#[trigger] s[i])
}

/// A nonempty prerelease label: dot-separated valid prerelease identifiers.
pub open spec fn valid_prerelease(s: Seq<char>) -> bool
    decreases s.len(),
    via valid_prerelease_decreases
{
    let i = find(s, '.');
    if i == s.len() {
        valid_pre_ident(s)
    } else {
        valid_pre_ident(s.take(i)) && valid_prerelease(s.skip(i + 1))
    }
}

#[via_fn]
proof fn valid_prerelease_decreases(s: Seq<char>) {
    lemma_find_props(s, '.');
}

/// A nonempty build-metadata label: dot-separated valid build identifiers.
pub open spec fn valid_build(s: Seq<char>) -> bool
    decreases s.len(),
    via valid_build_decreases
{
    let i = find(s, '.');
    if i == s.len() {
        valid_build_ident(s)
    } else {
        valid_build_ident(s.take(i)) && valid_build(s.skip(i + 1))
    }
}

#[via_fn]
proof fn valid_build_decreases(s: Seq<char>) {
    lemma_find_props(s, '.');
}

/// Mathematical model of a version.
#[verifier::ext_equal]
pub struct VersionView {
    pub major: nat,
    pub minor: nat,
    pub patch: nat,
    /// Empty means "no prerelease label".
    pub pre: Seq<char>,
    /// Empty means "no build metadata".
    pub build: Seq<char>,
}

/// Well-formedness: the numeric components are machine-representable and the
/// optional labels, when present, obey the grammar.
pub open spec fn wf_version(v: VersionView) -> bool {
    &&& v.major <= u64::MAX
    &&& v.minor <= u64::MAX
    &&& v.patch <= u64::MAX
    &&& (v.pre.len() > 0 ==> valid_prerelease(v.pre))
    &&& (v.build.len() > 0 ==> valid_build(v.build))
}

/// Version equality: componentwise, build metadata ignored.
pub open spec fn version_eq(a: VersionView, b: VersionView) -> bool {
    a.major == b.major && a.minor == b.minor && a.patch == b.patch && a.pre == b.pre
}

/// A semantic version: `major.minor.patch`, an optional prerelease label
/// (empty string when absent), and optional build metadata (empty string when
/// absent).
#[derive(Debug)]
pub struct Version {
    pub major: u64,
    pub minor: u64,
    pub patch: u64,
    pub pre: String,
    pub build: String,
}

impl View for Version {
    type V = VersionView;

    open spec fn view(&self) -> VersionView {
        VersionView {
            major: self.major as nat,
            minor: self.minor as nat,
            patch: self.patch as nat,
            pre: self.pre@,
            build: self.build@,
        }
    }
}

impl Version {
    /// True when the version carries a prerelease label.
    pub fn is_prerelease(&self) -> (r: bool)
        ensures
            r <==> self@.pre.len() > 0,
    {
        self.pre.as_str().unicode_len() > 0
    }
}

impl PartialEq for Version {
    /// Equality ignores build metadata.
    fn eq(&self, other: &Version) -> (r: bool) {
        self.major == other.major && self.minor == other.minor && self.patch == other.patch
            && self.pre == other.pre
    }
}

impl Eq for Version {

}

impl vstd::std_specs::cmp::PartialEqSpecImpl for Version {
    open spec fn obeys_eq_spec() -> bool {
        true
    }

    open spec fn eq_spec(&self, other: &Version) -> bool {
        version_eq(self@, other@)
    }
}

/// The marker that opens a counted prerelease label.
pub open spec fn pre_marker() -> Seq<char> {
    seq!['p', 'r', 'e']
}

/// True when `s` is a counted prerelease label: the marker followed by one or
/// more digits whose value is machine-representable.
pub open spec fn is_pre_counter(s: Seq<char>) -> bool {
    &&& s.len() > 3
    &&& s.take(3) =~= pre_marker()
    &&& all_digits(s.skip(3))
    &&& digits_val(s.skip(3)) <= u64::MAX
}

/// The counter carried by a counted prerelease label.
pub open spec fn counter_val(s: Seq<char>) -> nat
    recommends
        is_pre_counter(s),
{
    digits_val(s.skip(3))
}

/// A counted prerelease label in canonical form.
pub open spec fn counter_label(n: nat) -> Seq<char> {
    pre_marker() + dec_str(n)
}

/// The successor of a prerelease label: a counted label advances its counter;
/// any other label (or one whose counter cannot be advanced within the machine
/// range) starts a fresh series at zero.
pub open spec fn pre_succ(s: Seq<char>) -> Seq<char> {
    if is_pre_counter(s) && counter_val(s) + 1 <= u64::MAX {
        counter_label(counter_val(s) + 1)
    } else {
        counter_label(0)
    }
}

/// Every character of a valid prerelease label is an identifier character or
/// the dot separator.
pub proof fn lemma_valid_prerelease_chars(s: Seq<char>)
    requires
        valid_prerelease(s),
    ensures
        forall|i: int| 0 <= i < s.len() ==> is_ident_char(#[trigger] s[i]) || s[i] == '.',
    decreases s.len(),
{
    let j = find(s, '.');
    lemma_find_props(s, '.');
    if j == s.len() {
    } else {
        lemma_valid_prerelease_chars(s.skip(j + 1));
        assert forall|i: int| 0 <= i < s.len() implies is_ident_char(#[trigger] s[i]) || s[i]
            == '.' by {
            if i < j {
                assert(s.take(j)[i] == s[i]);
            } else if i > j {
                assert(s.skip(j + 1)[i - j - 1] == s[i]);
            }
        }
    }
}

/// A canonical counted label is a valid prerelease label.
pub proof fn lemma_counter_label_valid(n: nat)
    ensures
        valid_prerelease(counter_label(n)),
        counter_label(n).len() > 3,
        counter_label(n).take(3) =~= pre_marker(),
        counter_label(n).skip(3) =~= dec_str(n),
        is_pre_counter(counter_label(n)) <==> n <= u64::MAX,
        n <= u64::MAX ==> counter_val(counter_label(n)) == n,
{
    lemma_dec_str_props(n);
    let s = counter_label(n);
    assert(s.take(3) =~= pre_marker());
    assert(s.skip(3) =~= dec_str(n));
    assert(forall|i: int| 0 <= i < s.len() ==> is_ident_char(#[trigger] s[i])) by {
        assert(s[0] == 'p' && s[1] == 'r' && s[2] == 'e');
        assert(forall|i: int| 3 <= i < s.len() ==> s[i] == dec_str(n)[i - 3]);
    }
    assert(!is_digit('p'));
    assert(!all_digits(s)) by {
        assert(s[0] == 'p');
    }
    assert(find(s, '.') == s.len()) by {
        lemma_find_is(s, '.', s.len() as int);
    }
    assert(valid_pre_ident(s));
}

/// The successor of any label is a valid, counted prerelease label.
pub proof fn lemma_pre_succ_valid(s: Seq<char>)
    ensures
        valid_prerelease(pre_succ(s)),
        pre_succ(s).len() > 0,
        is_pre_counter(pre_succ(s)),
{
    if is_pre_counter(s) && counter_val(s) + 1 <= u64::MAX {
        lemma_counter_label_valid(counter_val(s) + 1);
    } else {
        lemma_counter_label_valid(0);
    }
}

/// Reads the counter of a counted prerelease label, executable form.
pub fn counter_of(pre: &str) -> (r: Option<u64>)
    ensures
        r is Some <==> is_pre_counter(pre@),
        r matches Some(n) ==> n == counter_val(pre@),
{
    let len = pre.unicode_len();
    if len > 3 && pre.get_char(0) == 'p' && pre.get_char(1) == 'r' && pre.get_char(2) == 'e' {
        proof {
            assert(pre@.take(3) =~= pre_marker());
        }
        let digits = pre.substring_char(3, len);
        assert(digits@ =~= pre@.skip(3));
        parse_digits_u64(digits)
    } else {
        proof {
            if is_pre_counter(pre@) {
                assert(pre@[0] == 'p' && pre@[1] == 'r' && pre@[2] == 'e');
            }
        }
        None
    }
}

/// The successor of the prerelease label `pre`, executable form.
pub fn next_prerelease(pre: &str) -> (r: String)
    ensures
        r@ == pre_succ(pre@),
{
    let mut counter: u64 = 0;
    match counter_of(pre) {
        Some(n) => {
            if n < u64::MAX {
                counter = n + 1;
            }
        },
        None => {},
    }
    let mut r = marker_string();
    r.append(u64_to_string(counter).as_str());
    proof {
        assert(r@ =~= pre_marker() + dec_str(counter as nat));
    }
    r
}

/// The first label of a fresh prerelease series.
pub fn first_label() -> (r: String)
    ensures
        r@ == counter_label(0),
{
    let mut r = marker_string();
    r.append(u64_to_string(0).as_str());
    proof {
        assert(r@ =~= pre_marker() + dec_str(0));
    }
    r
}

/// The marker as an owned string.
fn marker_string() -> (r: String)
    ensures
        r@ =~= pre_marker(),
{
    proof {
        reveal_strlit("pre");
    }
    let r = "pre".to_owned();
    proof {
        assert(r@ =~= pre_marker());
    }
    r
}

} // verus!
