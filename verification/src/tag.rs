//! Release tags: an optional namespace prefix plus a semantic version.
//! A tag is parsed from text of the form `[<prefix>@]v<major>.<minor>.<patch>`
//! with optional `-<prerelease>` and `+<build>` parts, and rendered back in
//! canonical form, which never carries build metadata.

use vstd::prelude::*;

use crate::digits::dec_str;
use crate::digits::digits_val;
use crate::digits::lemma_dec_str_valid_num;
use crate::digits::parse_num;
use crate::digits::valid_num;
use crate::digits::u64_to_string;
use crate::text::find;
use crate::text::find_in_str;
use crate::text::lemma_find_is;
use crate::text::lemma_find_props;
use crate::version::valid_build;
use crate::version::valid_prerelease;
use crate::version::wf_version;
use crate::version::Version;
use crate::version::VersionView;

verus! {

/// Mathematical model of a tag.
#[verifier::ext_equal]
pub struct TagView {
    /// `None` when the tag carries no namespace prefix.
    pub prefix: Option<Seq<char>>,
    pub v: VersionView,
}

/// A release tag: an optional namespace prefix and a semantic version.
#[derive(Debug)]
pub struct Tag {
    pub prefix: Option<String>,
    pub v: Version,
}

/// Tag equality: prefixes equal (both may be absent) and versions equal,
/// build metadata ignored.
pub open spec fn tag_eq(a: TagView, b: TagView) -> bool {
    a.prefix == b.prefix && crate::version::version_eq(a.v, b.v)
}

impl PartialEq for Tag {
    /// Equality ignores build metadata.
    fn eq(&self, other: &Tag) -> (r: bool) {
        let prefix_equal = match (&self.prefix, &other.prefix) {
            (Option::None, Option::None) => true,
            (Option::Some(a), Option::Some(b)) => crate::text::str_eq(a.as_str(), b.as_str()),
            _ => false,
        };
        prefix_equal && self.v == other.v
    }
}

impl Eq for Tag {

}

impl vstd::std_specs::cmp::PartialEqSpecImpl for Tag {
    open spec fn obeys_eq_spec() -> bool {
        true
    }

    open spec fn eq_spec(&self, other: &Tag) -> bool {
        tag_eq(self@, other@)
    }
}

impl View for Tag {
    type V = TagView;

    open spec fn view(&self) -> TagView {
        TagView {
            prefix: match self.prefix {
                Some(p) => Some(p@),
                None => None,
            },
            v: self.v@,
        }
    }
}

/// A usable prefix never holds the separator.
pub open spec fn wf_prefix(p: Option<Seq<char>>) -> bool {
    p matches Some(s) ==> forall|i: int| 0 <= i < s.len() ==> s[i] != '@'
}

/// Well-formedness: the prefix never holds the separator, and the version's
/// labels obey the grammar.
pub open spec fn wf_tag(t: TagView) -> bool {
    &&& wf_prefix(t.prefix)
    &&& wf_version(t.v)
}

/// A tag string that failed to parse.
#[derive(Clone, Copy, Debug, PartialEq, Eq, Structural)]
pub struct ParseError;

/// Parses a version body `<major>.<minor>.<patch>[-<pre>][+<build>]`.
pub open spec fn parse_version(s: Seq<char>) -> Option<VersionView> {
    let i1 = find(s, '.');
    if i1 == s.len() {
        None
    } else {
        let maj = s.take(i1);
        let rest1 = s.skip(i1 + 1);
        let i2 = find(rest1, '.');
        if i2 == rest1.len() {
            None
        } else {
            let min = rest1.take(i2);
            let rest2 = rest1.skip(i2 + 1);
            let ih = find(rest2, '-');
            let ipl = find(rest2, '+');
            let ip = if ih <= ipl {
                ih
            } else {
                ipl
            };
            let pat = rest2.take(ip);
            if !(valid_num(maj) && valid_num(min) && valid_num(pat)) {
                None
            } else {
                let tail = rest2.skip(ip);
                if tail.len() == 0 {
                    Some(
                        VersionView {
                            major: digits_val(maj),
                            minor: digits_val(min),
                            patch: digits_val(pat),
                            pre: Seq::empty(),
                            build: Seq::empty(),
                        },
                    )
                } else if tail[0] == '-' {
                    let rest3 = tail.skip(1);
                    let ib = find(rest3, '+');
                    let pre = rest3.take(ib);
                    if !valid_prerelease(pre) {
                        None
                    } else if ib == rest3.len() {
                        Some(
                            VersionView {
                                major: digits_val(maj),
                                minor: digits_val(min),
                                patch: digits_val(pat),
                                pre,
                                build: Seq::empty(),
                            },
                        )
                    } else {
                        let build = rest3.skip(ib + 1);
                        if valid_build(build) {
                            Some(
                                VersionView {
                                    major: digits_val(maj),
                                    minor: digits_val(min),
                                    patch: digits_val(pat),
                                    pre,
                                    build,
                                },
                            )
                        } else {
                            None
                        }
                    }
                } else {
                    let build = tail.skip(1);
                    if valid_build(build) {
                        Some(
                            VersionView {
                                major: digits_val(maj),
                                minor: digits_val(min),
                                patch: digits_val(pat),
                                pre: Seq::empty(),
                                build,
                            },
                        )
                    } else {
                        None
                    }
                }
            }
        }
    }
}

/// Parses a whole tag string: an optional prefix before the first `@`, then a
/// version body whose leading `v` marker, when present, is stripped.
pub open spec fn parse_tag(s: Seq<char>) -> Option<TagView> {
    let ia = find(s, '@');
    let prefix = if ia == s.len() {
        Option::<Seq<char>>::None
    } else {
        Some(s.take(ia))
    };
    let body = if ia == s.len() {
        s
    } else {
        s.skip(ia + 1)
    };
    let vbody = if body.len() > 0 && body[0] == 'v' {
        body.skip(1)
    } else {
        body
    };
    match parse_version(vbody) {
        Some(v) => Some(TagView { prefix, v }),
        None => None,
    }
}

/// Canonical text of a version: build metadata is never emitted.
pub open spec fn render_version(v: VersionView) -> Seq<char> {
    dec_str(v.major) + seq!['.'] + dec_str(v.minor) + seq!['.'] + dec_str(v.patch) + (if v.pre.len()
        > 0 {
        seq!['-'] + v.pre
    } else {
        Seq::<char>::empty()
    })
}

/// Canonical text of a tag.
pub open spec fn render_tag(t: TagView) -> Seq<char> {
    (match t.prefix {
        Some(p) => p + seq!['@'],
        None => Seq::<char>::empty(),
    }) + seq!['v'] + render_version(t.v)
}

/// Whatever parses is well formed.
pub proof fn lemma_parse_tag_wf(s: Seq<char>)
    ensures
        parse_tag(s) matches Some(t) ==> wf_tag(t),
{
    let ia = find(s, '@');
    lemma_find_props(s, '@');
    if parse_tag(s) is Some {
        let t = parse_tag(s).unwrap();
        if ia < s.len() {
            assert(forall|i: int| 0 <= i < ia ==> s.take(ia)[i] == s[i]);
        }
    }
}

/// No character of a rendered version body is the prefix separator.
proof fn lemma_render_version_no_at(v: VersionView)
    requires
        wf_version(v),
    ensures
        forall|k: int| 0 <= k < render_version(v).len() ==> render_version(v)[k] != '@',
{
    let s = render_version(v);
    let d_major = dec_str(v.major);
    let d_minor = dec_str(v.minor);
    let d_patch = dec_str(v.patch);
    crate::digits::lemma_dec_str_props(v.major);
    crate::digits::lemma_dec_str_props(v.minor);
    crate::digits::lemma_dec_str_props(v.patch);
    if v.pre.len() > 0 {
        crate::version::lemma_valid_prerelease_chars(v.pre);
    }
    let head = d_major + seq!['.'] + d_minor + seq!['.'] + d_patch;
    assert forall|k: int| 0 <= k < s.len() implies s[k] != '@' by {
        if k < head.len() {
            if k < d_major.len() {
                assert(s[k] == d_major[k]);
            } else if k == d_major.len() {
                assert(s[k] == '.');
            } else if k < d_major.len() + 1 + d_minor.len() {
                assert(s[k] == d_minor[k - d_major.len() - 1]);
            } else if k == d_major.len() + 1 + d_minor.len() {
                assert(s[k] == '.');
            } else {
                assert(s[k] == d_patch[k - d_major.len() - d_minor.len() - 2]);
            }
        } else {
            assert(v.pre.len() > 0);
            if k == head.len() {
                assert(s[k] == '-');
            } else {
                assert(s[k] == v.pre[k - head.len() - 1]);
            }
        }
    }
}

/// Rendering then parsing a well-formed version body with no build metadata
/// restores the version exactly.
#[verifier::rlimit(60)]
pub proof fn lemma_render_version_parses(v: VersionView)
    requires
        wf_version(v),
        v.build.len() == 0,
    ensures
        parse_version(render_version(v)) == Some(v),
{
    let s = render_version(v);
    let d_major = dec_str(v.major);
    let d_minor = dec_str(v.minor);
    let d_patch = dec_str(v.patch);
    lemma_dec_str_valid_num(v.major);
    lemma_dec_str_valid_num(v.minor);
    lemma_dec_str_valid_num(v.patch);
    if v.pre.len() > 0 {
        crate::version::lemma_valid_prerelease_chars(v.pre);
    }
    let pre_part = if v.pre.len() > 0 {
        seq!['-'] + v.pre
    } else {
        Seq::<char>::empty()
    };
    let rest1 = d_minor + seq!['.'] + d_patch + pre_part;
    let rest2 = d_patch + pre_part;
    assert(s =~= d_major + seq!['.'] + rest1);
    // The first dot closes the major component.
    assert forall|k: int| 0 <= k < d_major.len() implies s[k] != '.' by {
        assert(s[k] == d_major[k]);
    }
    assert(s[d_major.len() as int] == '.');
    lemma_find_is(s, '.', d_major.len() as int);
    let i1 = find(s, '.');
    assert(s.take(i1) =~= d_major);
    assert(s.skip(i1 + 1) =~= rest1);
    // The second dot closes the minor component.
    assert forall|k: int| 0 <= k < d_minor.len() implies rest1[k] != '.' by {
        assert(rest1[k] == d_minor[k]);
    }
    assert(rest1[d_minor.len() as int] == '.');
    lemma_find_is(rest1, '.', d_minor.len() as int);
    let i2 = find(rest1, '.');
    assert(rest1.take(i2) =~= d_minor);
    assert(rest1.skip(i2 + 1) =~= rest2);
    // No character after the patch component is a plus.
    assert forall|k: int| 0 <= k < rest2.len() implies rest2[k] != '+' by {
        if k < d_patch.len() {
            assert(rest2[k] == d_patch[k]);
        } else {
            assert(v.pre.len() > 0);
            if k == d_patch.len() {
                assert(rest2[k] == '-');
            } else {
                assert(rest2[k] == v.pre[k - d_patch.len() - 1]);
            }
        }
    }
    lemma_find_is(rest2, '+', rest2.len() as int);
    if v.pre.len() == 0 {
        assert(rest2 =~= d_patch);
        assert forall|k: int| 0 <= k < rest2.len() implies rest2[k] != '-' by {
            assert(rest2[k] == d_patch[k]);
        }
        lemma_find_is(rest2, '-', rest2.len() as int);
        let ip = rest2.len() as int;
        assert(rest2.take(ip) =~= d_patch);
        assert(rest2.skip(ip).len() == 0);
        assert(parse_version(s).unwrap() =~= v);
    } else {
        assert forall|k: int| 0 <= k < d_patch.len() implies rest2[k] != '-' by {
            assert(rest2[k] == d_patch[k]);
        }
        assert(rest2[d_patch.len() as int] == '-');
        lemma_find_is(rest2, '-', d_patch.len() as int);
        let ip = d_patch.len() as int;
        assert(rest2.take(ip) =~= d_patch);
        let tail = rest2.skip(ip);
        assert(tail =~= seq!['-'] + v.pre);
        assert(tail[0] == '-');
        let rest3 = tail.skip(1);
        assert(rest3 =~= v.pre);
        assert forall|k: int| 0 <= k < rest3.len() implies rest3[k] != '+' by {
            assert(rest3[k] == v.pre[k]);
        }
        lemma_find_is(rest3, '+', rest3.len() as int);
        assert(rest3.take(rest3.len() as int) =~= v.pre);
        assert(parse_version(s).unwrap() =~= v);
    }
}

/// Parsing is a left-inverse of rendering: any well-formed tag that carries
/// no build metadata is restored exactly from its canonical text.
pub proof fn lemma_parse_render_round_trip(t: TagView)
    requires
        wf_tag(t),
        t.v.build.len() == 0,
    ensures
        parse_tag(render_tag(t)) == Some(t),
{
    let s = render_tag(t);
    let body = seq!['v'] + render_version(t.v);
    lemma_render_version_parses(t.v);
    lemma_render_version_no_at(t.v);
    match t.prefix {
        None => {
            assert(s =~= body);
            assert forall|k: int| 0 <= k < s.len() implies s[k] != '@' by {
                if k == 0 {
                    assert(s[0] == 'v');
                } else {
                    assert(s[k] == render_version(t.v)[k - 1]);
                }
            }
            lemma_find_is(s, '@', s.len() as int);
            assert(s[0] == 'v');
            assert(s.skip(1) =~= render_version(t.v));
            assert(parse_tag(s).unwrap() =~= t);
        },
        Some(p) => {
            assert(s =~= p + seq!['@'] + body);
            assert forall|k: int| 0 <= k < p.len() implies s[k] != '@' by {
                assert(s[k] == p[k]);
            }
            assert(s[p.len() as int] == '@');
            lemma_find_is(s, '@', p.len() as int);
            let ia = find(s, '@');
            assert(s.take(ia) =~= p);
            let body2 = s.skip(ia + 1);
            assert(body2 =~= body);
            assert(body2[0] == 'v');
            assert(body2.skip(1) =~= render_version(t.v));
            assert(parse_tag(s).unwrap() =~= t);
        },
    }
}

/// Parses a version body, executable form.
pub fn parse_version_str(s: &str) -> (r: Option<Version>)
    ensures
        r is Some <==> parse_version(s@) is Some,
        r matches Some(ver) ==> parse_version(s@) == Some(ver@),
{
    let len = s.unicode_len();
    let i1 = find_in_str(s, '.');
    proof {
        lemma_find_props(s@, '.');
    }
    if i1 == len {
        return None;
    }
    let maj_s = s.substring_char(0, i1);
    let rest1 = s.substring_char(i1 + 1, len);
    proof {
        assert(maj_s@ =~= s@.take(i1 as int));
        assert(rest1@ =~= s@.skip(i1 + 1));
    }
    let r1len = rest1.unicode_len();
    let i2 = find_in_str(rest1, '.');
    proof {
        lemma_find_props(rest1@, '.');
    }
    if i2 == r1len {
        return None;
    }
    let min_s = rest1.substring_char(0, i2);
    let rest2 = rest1.substring_char(i2 + 1, r1len);
    proof {
        assert(min_s@ =~= rest1@.take(i2 as int));
        assert(rest2@ =~= rest1@.skip(i2 + 1));
    }
    let r2len = rest2.unicode_len();
    let ih = find_in_str(rest2, '-');
    let ipl = find_in_str(rest2, '+');
    proof {
        lemma_find_props(rest2@, '-');
        lemma_find_props(rest2@, '+');
    }
    let ip = if ih <= ipl {
        ih
    } else {
        ipl
    };
    let pat_s = rest2.substring_char(0, ip);
    proof {
        assert(pat_s@ =~= rest2@.take(ip as int));
    }
    let maj = match parse_num(maj_s) {
        Some(n) => n,
        None => {
            return None;
        },
    };
    let min = match parse_num(min_s) {
        Some(n) => n,
        None => {
            return None;
        },
    };
    let pat = match parse_num(pat_s) {
        Some(n) => n,
        None => {
            return None;
        },
    };
    if ip == r2len {
        return Some(
            Version { major: maj, minor: min, patch: pat, pre: String::new(), build: String::new() },
        );
    }
    let tail_first = rest2.get_char(ip);
    if tail_first == '-' {
        let rest3 = rest2.substring_char(ip + 1, r2len);
        proof {
            assert(rest3@ =~= rest2@.skip(ip as int).skip(1));
            assert(rest2@.skip(ip as int)[0] == rest2@[ip as int]);
        }
        let r3len = rest3.unicode_len();
        let ib = find_in_str(rest3, '+');
        proof {
            lemma_find_props(rest3@, '+');
        }
        let pre_s = rest3.substring_char(0, ib);
        proof {
            assert(pre_s@ =~= rest3@.take(ib as int));
        }
        if !is_valid_prerelease(pre_s) {
            return None;
        }
        if ib == r3len {
            return Some(
                Version {
                    major: maj,
                    minor: min,
                    patch: pat,
                    pre: pre_s.to_owned(),
                    build: String::new(),
                },
            );
        }
        let build_s = rest3.substring_char(ib + 1, r3len);
        proof {
            assert(build_s@ =~= rest3@.skip(ib + 1));
        }
        if !is_valid_build(build_s) {
            return None;
        }
        Some(
            Version {
                major: maj,
                minor: min,
                patch: pat,
                pre: pre_s.to_owned(),
                build: build_s.to_owned(),
            },
        )
    } else {
        assert(rest2@.skip(ip as int)[0] == rest2@[ip as int]);
        let build_s = rest2.substring_char(ip + 1, r2len);
        proof {
            assert(build_s@ =~= rest2@.skip(ip as int).skip(1));
        }
        if !is_valid_build(build_s) {
            return None;
        }
        Some(
            Version {
                major: maj,
                minor: min,
                patch: pat,
                pre: String::new(),
                build: build_s.to_owned(),
            },
        )
    }
}

/// Checks the prerelease grammar, executable form.
pub fn is_valid_prerelease(s: &str) -> (r: bool)
    ensures
        r <==> valid_prerelease(s@),
    decreases s@.len(),
{
    let len = s.unicode_len();
    let i = find_in_str(s, '.');
    proof {
        lemma_find_props(s@, '.');
    }
    if i == len {
        is_valid_ident(s, true)
    } else {
        let head = s.substring_char(0, i);
        let tail = s.substring_char(i + 1, len);
        proof {
            assert(head@ =~= s@.take(i as int));
            assert(tail@ =~= s@.skip(i + 1));
        }
        let head_ok = is_valid_ident(head, true);
        head_ok && is_valid_prerelease(tail)
    }
}

/// Checks the build-metadata grammar, executable form.
pub fn is_valid_build(s: &str) -> (r: bool)
    ensures
        r <==> valid_build(s@),
    decreases s@.len(),
{
    let len = s.unicode_len();
    let i = find_in_str(s, '.');
    proof {
        lemma_find_props(s@, '.');
    }
    if i == len {
        is_valid_ident(s, false)
    } else {
        let head = s.substring_char(0, i);
        let tail = s.substring_char(i + 1, len);
        proof {
            assert(head@ =~= s@.take(i as int));
            assert(tail@ =~= s@.skip(i + 1));
        }
        let head_ok = is_valid_ident(head, false);
        head_ok && is_valid_build(tail)
    }
}

/// Checks a single identifier; `pre_rules` additionally refuses a leading
/// zero on a purely numeric identifier.
fn is_valid_ident(s: &str, pre_rules: bool) -> (r: bool)
    ensures
        pre_rules ==> (r <==> crate::version::valid_pre_ident(s@)),
        !pre_rules ==> (r <==> crate::version::valid_build_ident(s@)),
{
    let len = s.unicode_len();
    if len == 0 {
        return false;
    }
    let mut i: usize = 0;
    let mut seen_non_digit = false;
    while i < len
        invariant
            0 < len == s@.len(),
            0 <= i <= len,
            forall|k: int| 0 <= k < i ==> crate::version::is_ident_char(#[trigger] s@[k]),
            seen_non_digit <==> exists|k: int|
                0 <= k < i && !crate::digits::is_digit(#[trigger] s@[k]),
        decreases len - i,
    {
        let c = s.get_char(i);
        let is_dig = '0' <= c && c <= '9';
        let ok = is_dig || ('a' <= c && c <= 'z') || ('A' <= c && c <= 'Z') || c == '-';
        if !ok {
            return false;
        }
        if !is_dig {
            seen_non_digit = true;
        }
        i = i + 1;
    }
    if pre_rules && !seen_non_digit && len > 1 && s.get_char(0) == '0' {
        assert(crate::digits::all_digits(s@));
        return false;
    }
    proof {
        if !seen_non_digit {
            assert(crate::digits::all_digits(s@));
        }
    }
    true
}

impl Tag {
    /// Parses a raw tag string; fails exactly when the string does not obey
    /// the tag grammar.
    pub fn parse(s: &str) -> (r: Result<Tag, ParseError>)
        ensures
            r matches Ok(t) ==> parse_tag(s@) == Some(t@) && wf_tag(t@),
            r is Err ==> parse_tag(s@) is None,
    {
        let len = s.unicode_len();
        let ia = find_in_str(s, '@');
        proof {
            lemma_find_props(s@, '@');
        }
        let prefix: Option<String> = if ia == len {
            None
        } else {
            Some(s.substring_char(0, ia).to_owned())
        };
        let body: &str = if ia == len {
            s
        } else {
            s.substring_char(ia + 1, len)
        };
        proof {
            if ia < len {
                assert(body@ =~= s@.skip(ia + 1));
            }
        }
        let blen = body.unicode_len();
        let vbody: &str = if blen > 0 && body.get_char(0) == 'v' {
            body.substring_char(1, blen)
        } else {
            body
        };
        proof {
            if body@.len() > 0 && body@[0] == 'v' {
                assert(vbody@ =~= body@.skip(1));
            }
        }
        match parse_version_str(vbody) {
            Some(v) => {
                let t = Tag { prefix, v };
                proof {
                    lemma_parse_tag_wf(s@);
                    assert(parse_tag(s@).unwrap() =~= t@);
                }
                Ok(t)
            },
            None => Err(ParseError),
        }
    }

    /// Renders the tag in canonical form.
    pub fn render(&self) -> (r: String)
        ensures
            r@ == render_tag(self@),
    {
        proof {
            reveal_strlit("@");
            reveal_strlit("v");
            reveal_strlit(".");
            reveal_strlit("-");
        }
        let mut r = String::new();
        match &self.prefix {
            Some(p) => {
                r.append(p.as_str());
                r.append("@");
            },
            None => {},
        }
        r.append("v");
        r.append(u64_to_string(self.v.major).as_str());
        r.append(".");
        r.append(u64_to_string(self.v.minor).as_str());
        r.append(".");
        r.append(u64_to_string(self.v.patch).as_str());
        if self.v.pre.as_str().unicode_len() > 0 {
            r.append("-");
            r.append(self.v.pre.as_str());
        }
        proof {
            assert(r@ =~= render_tag(self@));
        }
        r
    }
}

} // verus!
