//! Translation between canonical versions and the release scheme of `protoc`.
//!
//! Upstream numbers its releases with two components (`28.3`, `29.0-rc1`); a
//! canonical version has three. A release tag is padded to three components on the
//! way in, and the patch component is left out on the way back.

use crate::error::{PluginError, PluginErrorView};
use crate::label::{
    label_less, label_precedes, lemma_label_precedes_is_strict, lemma_label_precedes_is_total,
    lemma_label_precedes_is_transitive,
};
use crate::text::{
    count, count_char, decimal, decimal_string, decimal_value, find_char, first_index,
    is_number, lemma_count_in_one, lemma_count_of_parts, lemma_decimal_value_of_one,
    lemma_decimal_writes, lemma_digits_hold_no, lemma_first_index, lemma_first_index_is,
    lemma_first_index_of_parts, parse_number,
};
use vstd::prelude::*;

verus! {

/// A canonical version: three numbers and, for a prerelease, its label.
#[derive(Debug, PartialEq, Eq)]
pub struct Version {
    pub major: u64,
    pub minor: u64,
    pub patch: u64,
    /// The prerelease label, as it stood behind the hyphen.
    pub pre: Option<String>,
}

/// A `Version` as a mathematical value.
pub struct VersionView {
    pub major: nat,
    pub minor: nat,
    pub patch: nat,
    pub pre: Option<Seq<char>>,
}

/// A version as it is asked for: resolved to an exact version, or still the name of
/// one.
#[derive(Debug, PartialEq, Eq)]
pub enum VersionSpec {
    /// A name that stands for a version, such as `latest`.
    Alias(String),
    /// An exact version.
    Semantic(Version),
}

/// A `VersionSpec` as a mathematical value.
pub enum VersionSpecView {
    Alias(Seq<char>),
    Semantic(VersionView),
}

impl View for Version {
    type V = VersionView;

    open spec fn view(&self) -> VersionView {
        VersionView {
            major: self.major as nat,
            minor: self.minor as nat,
            patch: self.patch as nat,
            pre: match self.pre {
                Some(label) => Some(label@),
                None => None,
            },
        }
    }
}

impl View for VersionSpec {
    type V = VersionSpecView;

    open spec fn view(&self) -> VersionSpecView {
        match *self {
            VersionSpec::Alias(alias) => VersionSpecView::Alias(alias@),
            VersionSpec::Semantic(version) => VersionSpecView::Semantic(version@),
        }
    }
}

impl VersionView {
    /// Whether `self` is an earlier version than `other`: the three numbers decide
    /// in turn; with the same numbers a prerelease is earlier than the release, and
    /// of two prereleases the one whose label ranks below the other's.
    pub open spec fn precedes(self, other: VersionView) -> bool {
        ||| self.major < other.major
        ||| self.major == other.major && self.minor < other.minor
        ||| self.major == other.major && self.minor == other.minor && self.patch < other.patch
        ||| self.major == other.major && self.minor == other.minor && self.patch == other.patch
            && match (self.pre, other.pre) {
            (Some(_), None) => true,
            (Some(label), Some(other_label)) => label_precedes(label, other_label),
            _ => false,
        }
    }
}

impl Clone for Version {
    fn clone(&self) -> (res: Self)
        ensures
            res@ == self@,
    {
        Version {
            major: self.major,
            minor: self.minor,
            patch: self.patch,
            pre: match &self.pre {
                Some(label) => Some(label.clone()),
                None => None,
            },
        }
    }
}

impl Version {
    /// A release version: three numbers, no prerelease label.
    pub fn new(major: u64, minor: u64, patch: u64) -> (res: Self)
        ensures
            res@ == (VersionView {
                major: major as nat,
                minor: minor as nat,
                patch: patch as nat,
                pre: None,
            }),
    {
        Version { major, minor, patch, pre: None }
    }

    /// Whether `self` and `other` are the same version.
    pub fn same(&self, other: &Version) -> (same: bool)
        ensures
            same == (self@ == other@),
    {
        let labels = match (&self.pre, &other.pre) {
            (Some(a), Some(b)) => *a == *b,
            (None, None) => true,
            _ => false,
        };
        self.major == other.major && self.minor == other.minor && self.patch == other.patch
            && labels
    }

    /// Whether `self` is an earlier version than `other`.
    pub fn precedes(&self, other: &Version) -> (earlier: bool)
        ensures
            earlier == self@.precedes(other@),
    {
        if self.major != other.major {
            self.major < other.major
        } else if self.minor != other.minor {
            self.minor < other.minor
        } else if self.patch != other.patch {
            self.patch < other.patch
        } else {
            match (&self.pre, &other.pre) {
                (Some(_), None) => true,
                (Some(label), Some(other_label)) => label_less(
                    label.as_str(),
                    other_label.as_str(),
                ),
                _ => false,
            }
        }
    }
}

/// What has to follow a numeric base that holds `dots` dots to give it three
/// components.
pub open spec fn padding(dots: nat) -> Seq<char> {
    if dots == 1 {
        ".0"@
    } else if dots == 0 {
        ".0.0"@
    } else {
        ""@
    }
}

/// The numeric base of a version text: what precedes its first hyphen.
pub open spec fn numeric_base(text: Seq<char>) -> Seq<char> {
    text.subrange(0, first_index(text, '-'))
}

/// What follows the numeric base of a version text: nothing, or a hyphen and the
/// prerelease label.
pub open spec fn prerelease_tail(text: Seq<char>) -> Seq<char> {
    text.subrange(first_index(text, '-'), text.len() as int)
}

/// The prerelease label of a version text: what follows its first hyphen, where it
/// has one.
pub open spec fn prerelease_label(text: Seq<char>) -> Option<Seq<char>> {
    if first_index(text, '-') < text.len() {
        Some(text.subrange(first_index(text, '-') + 1, text.len() as int))
    } else {
        None
    }
}

/// The canonical text of a release tag: its numeric base padded to three
/// components, then the hyphen and prerelease label as they stood.
pub open spec fn canonical_text(tag: Seq<char>) -> Seq<char> {
    numeric_base(tag) + padding(count(numeric_base(tag), '.')) + prerelease_tail(tag)
}

/// The three numbers of a numeric base: it is three numbers with a dot after the
/// first and after the second, and nothing else.
pub open spec fn components(base: Seq<char>) -> Option<(nat, nat, nat)> {
    let i = first_index(base, '.');
    let rest = base.subrange(i + 1, base.len() as int);
    let j = first_index(rest, '.');
    let first = base.subrange(0, i);
    let second = rest.subrange(0, j);
    let third = rest.subrange(j + 1, rest.len() as int);
    if i < base.len() && j < rest.len() && is_number(first) && is_number(second) && is_number(
        third,
    ) {
        Some((decimal_value(first), decimal_value(second), decimal_value(third)))
    } else {
        None
    }
}

/// The version that a canonical text writes, where it writes one: the numeric base
/// gives the three numbers, and what follows the first hyphen is the label.
pub open spec fn parsed(text: Seq<char>) -> Option<VersionView> {
    match components(numeric_base(text)) {
        Some((major, minor, patch)) => Some(
            VersionView { major, minor, patch, pre: prerelease_label(text) },
        ),
        None => None,
    }
}

/// The version that a release tag stands for, where it stands for one.
pub open spec fn canonical_version(tag: Seq<char>) -> Option<VersionView> {
    parsed(canonical_text(tag))
}

/// How a requested version is written in the release scheme: a name as it is, an
/// exact version as major and minor number with its prerelease label, if any. The
/// patch number is left out.
pub open spec fn native_text(spec: VersionSpecView) -> Seq<char> {
    match spec {
        VersionSpecView::Alias(alias) => alias,
        VersionSpecView::Semantic(version) => decimal(version.major) + "."@ + decimal(
            version.minor,
        ) + match version.pre {
            Some(label) => "-"@ + label,
            None => Seq::empty(),
        },
    }
}

/// If `a` is earlier than `b`, and `b` is earlier than `c`, then `a` is earlier
/// than `c`.
pub proof fn lemma_precedes_is_transitive(a: VersionView, b: VersionView, c: VersionView)
    requires
        a.precedes(b),
        b.precedes(c),
    ensures
        a.precedes(c),
{
    match (a.pre, b.pre, c.pre) {
        (Some(la), Some(lb), Some(lc)) => {
            if label_precedes(la, lb) && label_precedes(lb, lc) {
                lemma_label_precedes_is_transitive(la, lb, lc);
            }
        },
        _ => {},
    }
}

/// No version is earlier than itself, and of two versions at most one is earlier
/// than the other.
pub proof fn lemma_precedes_is_strict(a: VersionView, b: VersionView)
    ensures
        !a.precedes(a),
        a.precedes(b) ==> !b.precedes(a),
{
    match a.pre {
        Some(label) => {
            lemma_label_precedes_is_strict(label);
        },
        None => {},
    }
    if a.precedes(b) && b.precedes(a) {
        lemma_precedes_is_transitive(a, b, a);
    }
}

/// Of two different versions one is earlier than the other.
pub proof fn lemma_precedes_is_total(a: VersionView, b: VersionView)
    requires
        a != b,
    ensures
        a.precedes(b) || b.precedes(a),
{
    match (a.pre, b.pre) {
        (Some(la), Some(lb)) => {
            if la != lb {
                lemma_label_precedes_is_total(la, lb);
            }
        },
        _ => {},
    }
}

/// If `a` is earlier than `c`, then any `b` is later than `a` or earlier than `c`.
pub proof fn lemma_precedes_splits(a: VersionView, b: VersionView, c: VersionView)
    requires
        a.precedes(c),
    ensures
        a.precedes(b) || b.precedes(c),
{
    if a != b {
        lemma_precedes_is_total(a, b);
        if b.precedes(a) {
            lemma_precedes_is_transitive(b, a, c);
        }
    }
}

/// A version text is its numeric base followed by its prerelease tail.
pub proof fn lemma_base_and_tail(text: Seq<char>)
    ensures
        numeric_base(text) + prerelease_tail(text) == text,
        0 <= first_index(text, '-') <= text.len(),
{
    lemma_first_index(text, '-');
}

/// Padding a release tag leaves its prerelease part alone: the canonical text has
/// the padded base for its numeric base, and the tail and the label of the tag.
pub proof fn lemma_padding_keeps_prerelease(tag: Seq<char>)
    ensures
        numeric_base(canonical_text(tag)) == numeric_base(tag) + padding(
            count(numeric_base(tag), '.'),
        ),
        prerelease_tail(canonical_text(tag)) == prerelease_tail(tag),
        prerelease_label(canonical_text(tag)) == prerelease_label(tag),
{
    reveal_strlit(".0");
    reveal_strlit(".0.0");
    reveal_strlit("");
    lemma_first_index(tag, '-');
    let cut = first_index(tag, '-');
    let base = numeric_base(tag);
    let tail = prerelease_tail(tag);
    let head = base + padding(count(base, '.'));
    assert forall|k: int| 0 <= k < head.len() implies head[k] != '-' by {}
    lemma_first_index_is(head, '-', head.len() as int);
    lemma_first_index_of_parts(head, tail, '-');
    let text = canonical_text(tag);
    if cut < tag.len() {
        assert(text.subrange(head.len() as int + 1, text.len() as int) =~= tag.subrange(
            cut + 1,
            tag.len() as int,
        ));
    }
}

/// Three numbers with a dot after the first and after the second are the three
/// components of a numeric base.
pub proof fn lemma_components_of_three(first: Seq<char>, second: Seq<char>, third: Seq<char>)
    requires
        is_number(first),
        is_number(second),
        is_number(third),
    ensures
        components(first + "."@ + second + "."@ + third) == Some(
            (decimal_value(first), decimal_value(second), decimal_value(third)),
        ),
{
    reveal_strlit(".");
    let dot = "."@;
    let base = first + dot + second + dot + third;
    let after_first = dot + second + dot + third;
    let rest = second + dot + third;
    lemma_digits_hold_no(first, '.');
    lemma_digits_hold_no(second, '.');
    assert(base =~= first + after_first);
    lemma_first_index_of_parts(first, after_first, '.');
    assert(base.subrange(first.len() as int + 1, base.len() as int) =~= rest);
    assert(rest =~= second + (dot + third));
    lemma_first_index_of_parts(second, dot + third, '.');
    assert(base.subrange(0, first.len() as int) =~= first);
    assert(rest.subrange(0, second.len() as int) =~= second);
    assert(rest.subrange(second.len() as int + 1, rest.len() as int) =~= third);
}

/// A tag of two numbers stands for the version of these two with patch 0, and
/// keeps its prerelease label.
pub proof fn lemma_two_components_get_patch(tag: Seq<char>, major: Seq<char>, minor: Seq<char>)
    requires
        numeric_base(tag) == major + "."@ + minor,
        is_number(major),
        is_number(minor),
    ensures
        count(numeric_base(tag), '.') == 1,
        canonical_text(tag) == major + "."@ + minor + ".0"@ + prerelease_tail(tag),
        canonical_version(tag) == Some(
            VersionView {
                major: decimal_value(major),
                minor: decimal_value(minor),
                patch: 0,
                pre: prerelease_label(tag),
            },
        ),
{
    reveal_strlit(".");
    reveal_strlit("0");
    reveal_strlit(".0");
    let zero = "0"@;
    lemma_digits_hold_no(major, '.');
    lemma_digits_hold_no(minor, '.');
    lemma_count_of_parts(major, "."@, '.');
    lemma_count_of_parts(major + "."@, minor, '.');
    assert("."@ =~= seq!['.']);
    lemma_count_in_one('.', '.');
    lemma_padding_keeps_prerelease(tag);
    assert(zero =~= seq!['0']);
    lemma_decimal_value_of_one('0');
    lemma_components_of_three(major, minor, zero);
    assert(numeric_base(tag) + ".0"@ =~= major + "."@ + minor + "."@ + zero);
}

/// A tag of one number stands for the version of it with minor 0 and patch 0, and
/// keeps its prerelease label.
pub proof fn lemma_one_component_gets_minor_and_patch(tag: Seq<char>, major: Seq<char>)
    requires
        numeric_base(tag) == major,
        is_number(major),
    ensures
        canonical_text(tag) == major + ".0.0"@ + prerelease_tail(tag),
        canonical_version(tag) == Some(
            VersionView {
                major: decimal_value(major),
                minor: 0,
                patch: 0,
                pre: prerelease_label(tag),
            },
        ),
{
    reveal_strlit(".");
    reveal_strlit("0");
    reveal_strlit(".0.0");
    let zero = "0"@;
    lemma_digits_hold_no(major, '.');
    lemma_padding_keeps_prerelease(tag);
    assert(zero =~= seq!['0']);
    lemma_decimal_value_of_one('0');
    lemma_components_of_three(major, zero, zero);
    assert(numeric_base(tag) + ".0.0"@ =~= major + "."@ + zero + "."@ + zero);
}

/// A tag of three numbers stays as it is and stands for the version of these
/// three, with its prerelease label.
pub proof fn lemma_three_components_stay(
    tag: Seq<char>,
    major: Seq<char>,
    minor: Seq<char>,
    patch: Seq<char>,
)
    requires
        numeric_base(tag) == major + "."@ + minor + "."@ + patch,
        is_number(major),
        is_number(minor),
        is_number(patch),
    ensures
        canonical_text(tag) == tag,
        canonical_version(tag) == Some(
            VersionView {
                major: decimal_value(major),
                minor: decimal_value(minor),
                patch: decimal_value(patch),
                pre: prerelease_label(tag),
            },
        ),
{
    reveal_strlit(".");
    reveal_strlit("");
    lemma_count_of_parts(major + "."@, minor, '.');
    lemma_count_of_parts(major + "."@ + minor, "."@, '.');
    lemma_count_of_parts(major + "."@ + minor + "."@, patch, '.');
    lemma_base_and_tail(tag);
    lemma_components_of_three(major, minor, patch);
}

/// The patch number does not show in the release scheme: versions that differ in
/// nothing else are written alike.
pub proof fn lemma_patch_is_left_out(version: VersionView, patch: nat)
    ensures
        native_text(VersionSpecView::Semantic(VersionView { patch, ..version })) == native_text(
            VersionSpecView::Semantic(version),
        ),
{
}

/// The prerelease label shows in the release scheme as it is, behind a hyphen.
pub proof fn lemma_prerelease_is_kept(version: VersionView, label: Seq<char>)
    ensures
        native_text(VersionSpecView::Semantic(VersionView { pre: Some(label), ..version }))
            == native_text(VersionSpecView::Semantic(VersionView { pre: None, ..version })) + "-"@
            + label,
{
}

/// A version with patch 0 is read back from what the release scheme writes for it.
pub proof fn lemma_release_scheme_round_trip(version: Version)
    requires
        version.patch == 0,
    ensures
        canonical_version(native_text(VersionSpecView::Semantic(version@))) == Some(version@),
{
    reveal_strlit(".");
    reveal_strlit("-");
    let major = decimal(version@.major);
    let minor = decimal(version@.minor);
    lemma_decimal_writes(version@.major);
    lemma_decimal_writes(version@.minor);
    let head = major + "."@ + minor;
    let tail = match version@.pre {
        Some(label) => "-"@ + label,
        None => Seq::<char>::empty(),
    };
    let native = native_text(VersionSpecView::Semantic(version@));
    assert forall|k: int| 0 <= k < head.len() implies head[k] != '-' by {}
    lemma_first_index_is(head, '-', head.len() as int);
    lemma_first_index_of_parts(head, tail, '-');
    assert(numeric_base(native) =~= head);
    match version@.pre {
        Some(label) => {
            assert(native.subrange(head.len() as int + 1, native.len() as int) =~= label);
        },
        None => {},
    }
    lemma_two_components_get_patch(native, major, minor);
}

/// Writes a release tag (without its leading `v`) as canonical text: a base of two
/// components gets `.0`, a base of one gets `.0.0`, and a base of three or more
/// stays; the prerelease label follows as it stood.
///
/// Any text is padded and none is refused. Whether the result writes a version is
/// told by `parse_protoc_version`, which refuses what is none.
pub fn from_protoc_version(version: &str) -> (res: String)
    ensures
        res@ == canonical_text(version@),
        count(numeric_base(version@), '.') == 1 ==> res@ == numeric_base(version@) + ".0"@
            + prerelease_tail(version@),
        count(numeric_base(version@), '.') == 0 ==> res@ == numeric_base(version@) + ".0.0"@
            + prerelease_tail(version@),
        count(numeric_base(version@), '.') >= 2 ==> res@ == version@,
{
    let n = version.unicode_len();
    let cut = find_char(version, '-');
    proof {
        lemma_base_and_tail(version@);
    }
    let base = version.substring_char(0, cut);
    let dots = count_char(base, '.');
    let suffix = if dots == 1 {
        ".0"
    } else if dots == 0 {
        ".0.0"
    } else {
        ""
    };
    let mut out = String::from_str(base);
    out.append(suffix);
    out.append(version.substring_char(cut, n));
    proof {
        reveal_strlit("");
    }
    out
}

/// Reads a canonical text as a version.
pub fn parse_version(text: &str) -> (res: Result<Version, PluginError>)
    ensures
        match parsed(text@) {
            Some(version) => res matches Ok(v) && v@ == version,
            None => res matches Err(e) && e@ == (PluginErrorView::MalformedVersion {
                version: text@,
            }),
        },
{
    let n = text.unicode_len();
    let cut = find_char(text, '-');
    proof {
        lemma_first_index(text@, '-');
    }
    let base = text.substring_char(0, cut);
    let i = find_char(base, '.');
    proof {
        lemma_first_index(base@, '.');
    }
    if i == cut {
        return Err(PluginError::MalformedVersion { version: String::from_str(text) });
    }
    let rest = base.substring_char(i + 1, cut);
    let j = find_char(rest, '.');
    proof {
        lemma_first_index(rest@, '.');
    }
    let m = rest.unicode_len();
    if j == m {
        return Err(PluginError::MalformedVersion { version: String::from_str(text) });
    }
    let major = parse_number(base.substring_char(0, i));
    let minor = parse_number(rest.substring_char(0, j));
    let patch = parse_number(rest.substring_char(j + 1, m));
    match (major, minor, patch) {
        (Some(major), Some(minor), Some(patch)) => {
            let pre = if cut < n {
                Some(String::from_str(text.substring_char(cut + 1, n)))
            } else {
                None
            };
            Ok(Version { major, minor, patch, pre })
        },
        _ => Err(PluginError::MalformedVersion { version: String::from_str(text) }),
    }
}

/// Reads a release tag (without its leading `v`) as a version.
pub fn parse_protoc_version(tag: &str) -> (res: Result<Version, PluginError>)
    ensures
        match canonical_version(tag@) {
            Some(version) => res matches Ok(v) && v@ == version,
            None => res matches Err(e) && e@ == (PluginErrorView::MalformedVersion {
                version: tag@,
            }),
        },
{
    let text = from_protoc_version(tag);
    match parse_version(text.as_str()) {
        Ok(version) => Ok(version),
        Err(_) => Err(PluginError::MalformedVersion { version: String::from_str(tag) }),
    }
}

/// Writes a requested version in the release scheme.
pub fn to_protoc_version(spec: &VersionSpec) -> (res: String)
    ensures
        res@ == native_text(spec@),
{
    match spec {
        VersionSpec::Alias(alias) => alias.clone(),
        VersionSpec::Semantic(version) => {
            let mut out = decimal_string(version.major);
            out.append(".");
            out.append(decimal_string(version.minor).as_str());
            match &version.pre {
                Some(label) => {
                    out.append("-");
                    out.append(label.as_str());
                },
                None => {},
            }
            out
        },
    }
}

} // verus!
