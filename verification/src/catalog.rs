//! The versions on offer, gathered from the tags of the upstream repository.
//!
//! Upstream tags a release as `v28.3` or `v29.0-rc1`. Tags of any other shape, and
//! tags whose numbers cannot be read, are passed over.

use crate::text::{count, count_char, decimal_value, find_char, is_number, lemma_first_index};
use crate::version::{
    canonical_version, lemma_precedes_is_strict, lemma_precedes_is_total,
    lemma_precedes_is_transitive, lemma_two_components_get_patch, numeric_base,
    parse_protoc_version, prerelease_label, Version, VersionView,
};
use vstd::prelude::*;

verus! {

/// The versions of a list as mathematical values.
pub open spec fn version_views(versions: Seq<Version>) -> Seq<VersionView> {
    versions.map_values(|version: Version| version@)
}

/// The texts of a list as sequences of characters.
pub open spec fn texts(list: Seq<String>) -> Seq<Seq<char>> {
    list.map_values(|text: String| text@)
}

/// Whether a tag has the shape of a release tag: a leading `v`, then a numeric base
/// with exactly one dot.
pub open spec fn is_release_tag(tag: Seq<char>) -> bool {
    tag.len() > 0 && tag[0] == 'v' && count(numeric_base(tag.subrange(1, tag.len() as int)), '.')
        == 1
}

/// The version that a tag releases: the tag has the shape of a release tag, and what
/// follows its `v` stands for a version.
pub open spec fn release_of(tag: Seq<char>) -> Option<VersionView> {
    if is_release_tag(tag) {
        canonical_version(tag.subrange(1, tag.len() as int))
    } else {
        None
    }
}

/// The versions that a list of tags releases, each once, in the order in which the
/// tags first name them.
pub open spec fn catalog(tags: Seq<Seq<char>>) -> Seq<VersionView>
    decreases tags.len(),
{
    if tags.len() == 0 {
        Seq::empty()
    } else {
        let before = catalog(tags.drop_last());
        match release_of(tags.last()) {
            Some(version) => if before.contains(version) {
                before
            } else {
                before.push(version)
            },
            None => before,
        }
    }
}

/// Whether `latest` is the latest version of a list: it is in the list, and no
/// version of the list is later. An empty list has none.
pub open spec fn is_latest_of(versions: Seq<VersionView>, latest: Option<VersionView>) -> bool {
    match latest {
        Some(version) => versions.contains(version) && forall|i: int|
            0 <= i < versions.len() ==> !version.precedes(#[trigger] versions[i]),
        None => versions.len() == 0,
    }
}

/// A list has one latest version and no other.
pub proof fn lemma_latest_is_unique(
    versions: Seq<VersionView>,
    a: Option<VersionView>,
    b: Option<VersionView>,
)
    requires
        is_latest_of(versions, a),
        is_latest_of(versions, b),
    ensures
        a == b,
{
    match (a, b) {
        (Some(first), Some(second)) => {
            if first != second {
                lemma_precedes_is_total(first, second);
            }
        },
        _ => {},
    }
}

/// The latest version is that of the versions held, in whatever order and however
/// often a list holds them.
pub proof fn lemma_latest_of_the_same_versions(
    versions: Seq<VersionView>,
    others: Seq<VersionView>,
    latest: Option<VersionView>,
)
    requires
        forall|version: VersionView| versions.contains(version) <==> others.contains(version),
        is_latest_of(versions, latest),
    ensures
        is_latest_of(others, latest),
{
    match latest {
        Some(version) => {
            assert forall|i: int| 0 <= i < others.len() implies !version.precedes(
                #[trigger] others[i],
            ) by {
                assert(others.contains(others[i]));
            }
        },
        None => {
            if others.len() > 0 {
                assert(others.contains(others[0]));
            }
        },
    }
}

/// A tag of a `v` and two numbers with a dot between them, with or without a
/// prerelease label behind a hyphen, releases the version of these two numbers with
/// patch 0 and that label.
pub proof fn lemma_two_number_tag_is_released(tag: Seq<char>, major: Seq<char>, minor: Seq<char>)
    requires
        tag.len() > 0,
        tag[0] == 'v',
        numeric_base(tag.subrange(1, tag.len() as int)) == major + "."@ + minor,
        is_number(major),
        is_number(minor),
    ensures
        release_of(tag) == Some(
            VersionView {
                major: decimal_value(major),
                minor: decimal_value(minor),
                patch: 0,
                pre: prerelease_label(tag.subrange(1, tag.len() as int)),
            },
        ),
{
    lemma_two_components_get_patch(tag.subrange(1, tag.len() as int), major, minor);
}

/// The catalog only grows with the list of tags: the catalog of the first `k` tags
/// is the beginning of the catalog of all.
pub proof fn lemma_catalog_grows(tags: Seq<Seq<char>>, k: int)
    requires
        0 <= k <= tags.len(),
    ensures
        catalog(tags.take(k)).is_prefix_of(catalog(tags)),
    decreases tags.len() - k,
{
    if k == tags.len() {
        assert(tags.take(k) =~= tags);
    } else {
        lemma_catalog_grows(tags.drop_last(), k);
        assert(tags.drop_last().take(k) =~= tags.take(k));
    }
}

/// The catalog holds no version twice.
pub proof fn lemma_catalog_is_distinct(tags: Seq<Seq<char>>)
    ensures
        catalog(tags).no_duplicates(),
    decreases tags.len(),
{
    if tags.len() > 0 {
        lemma_catalog_is_distinct(tags.drop_last());
    }
}

/// The catalog holds the version of every tag that releases one.
pub proof fn lemma_catalog_holds_release(tags: Seq<Seq<char>>, i: int)
    requires
        0 <= i < tags.len(),
        release_of(tags[i]) is Some,
    ensures
        catalog(tags).contains(release_of(tags[i])->0),
        catalog(tags).len() > 0,
    decreases tags.len(),
{
    let before = catalog(tags.drop_last());
    let version = release_of(tags[i])->0;
    if i == tags.len() - 1 {
        if !before.contains(version) {
            assert(before.push(version)[before.len() as int] == version);
        }
    } else {
        lemma_catalog_holds_release(tags.drop_last(), i);
        let k = choose|k: int| 0 <= k < before.len() && before[k] == version;
        assert(catalog(tags)[k] == version);
    }
}

/// Every version of the catalog is released by one of the tags.
pub proof fn lemma_catalog_holds_only_releases(tags: Seq<Seq<char>>, k: int)
    requires
        0 <= k < catalog(tags).len(),
    ensures
        exists|i: int|
            0 <= i < tags.len() && release_of(#[trigger] tags[i]) == Some(catalog(tags)[k]),
    decreases tags.len(),
{
    let before = catalog(tags.drop_last());
    if k < before.len() {
        lemma_catalog_holds_only_releases(tags.drop_last(), k);
    }
}

/// The catalog holds a version exactly where one of the tags releases it.
pub proof fn lemma_catalog_holds_the_releases(tags: Seq<Seq<char>>, version: VersionView)
    ensures
        catalog(tags).contains(version) <==> exists|i: int|
            0 <= i < tags.len() && release_of(#[trigger] tags[i]) == Some(version),
{
    if catalog(tags).contains(version) {
        let k = choose|k: int| 0 <= k < catalog(tags).len() && catalog(tags)[k] == version;
        lemma_catalog_holds_only_releases(tags, k);
    }
    if exists|i: int| 0 <= i < tags.len() && release_of(#[trigger] tags[i]) == Some(version) {
        let i = choose|i: int|
            0 <= i < tags.len() && release_of(#[trigger] tags[i]) == Some(version);
        lemma_catalog_holds_release(tags, i);
    }
}

/// Lists that hold the same tags, in whatever order and however often, have
/// catalogs of the same versions.
pub proof fn lemma_catalog_of_the_same_tags(tags: Seq<Seq<char>>, others: Seq<Seq<char>>)
    requires
        forall|tag: Seq<char>| tags.contains(tag) <==> others.contains(tag),
    ensures
        forall|version: VersionView|
            catalog(tags).contains(version) <==> catalog(others).contains(version),
{
    assert forall|version: VersionView| catalog(tags).contains(version) implies catalog(
        others,
    ).contains(version) by {
        lemma_catalog_reaches_over(tags, others, version);
    }
    assert forall|version: VersionView| catalog(others).contains(version) implies catalog(
        tags,
    ).contains(version) by {
        lemma_catalog_reaches_over(others, tags, version);
    }
}

/// A version of the catalog of some tags is in the catalog of any list that holds
/// these tags.
proof fn lemma_catalog_reaches_over(
    tags: Seq<Seq<char>>,
    others: Seq<Seq<char>>,
    version: VersionView,
)
    requires
        forall|tag: Seq<char>| tags.contains(tag) ==> others.contains(tag),
        catalog(tags).contains(version),
    ensures
        catalog(others).contains(version),
{
    lemma_catalog_holds_the_releases(tags, version);
    let i = choose|i: int| 0 <= i < tags.len() && release_of(#[trigger] tags[i]) == Some(version);
    assert(tags.contains(tags[i]));
    let j = choose|j: int| 0 <= j < others.len() && others[j] == tags[i];
    lemma_catalog_holds_release(others, j);
}

/// The versions on offer and the latest of them depend on which tags there are, and
/// not on their order or on how often one occurs.
pub proof fn lemma_offer_depends_on_the_tags(
    tags: Seq<Seq<char>>,
    others: Seq<Seq<char>>,
    latest: Option<VersionView>,
    other_latest: Option<VersionView>,
)
    requires
        forall|tag: Seq<char>| tags.contains(tag) <==> others.contains(tag),
        is_latest_of(catalog(tags), latest),
        is_latest_of(catalog(others), other_latest),
    ensures
        forall|version: VersionView|
            catalog(tags).contains(version) <==> catalog(others).contains(version),
        latest == other_latest,
{
    lemma_catalog_of_the_same_tags(tags, others);
    lemma_latest_of_the_same_versions(catalog(tags), catalog(others), latest);
    lemma_latest_is_unique(catalog(others), latest, other_latest);
}

/// The version that a tag releases, if it releases one.
pub fn release_version(tag: &str) -> (res: Option<Version>)
    ensures
        match release_of(tag@) {
            Some(version) => res matches Some(v) && v@ == version,
            None => res is None,
        },
{
    let n = tag.unicode_len();
    if n == 0 || tag.get_char(0) != 'v' {
        return None;
    }
    let native = tag.substring_char(1, n);
    let cut = find_char(native, '-');
    proof {
        lemma_first_index(native@, '-');
    }
    if count_char(native.substring_char(0, cut), '.') != 1 {
        return None;
    }
    match parse_protoc_version(native) {
        Ok(version) => Some(version),
        Err(_) => None,
    }
}

/// Whether a list holds `version`.
pub fn holds_version(versions: &Vec<Version>, version: &Version) -> (found: bool)
    ensures
        found == version_views(versions@).contains(version@),
{
    let mut i: usize = 0;
    while i < versions.len()
        invariant
            i <= versions.len(),
            forall|j: int| 0 <= j < i ==> version_views(versions@)[j] != version@,
        decreases versions.len() - i,
    {
        if versions[i].same(version) {
            assert(version_views(versions@)[i as int] == version@);
            return true;
        }
        i += 1;
    }
    false
}

/// The versions that a list of tags releases, each once, in the order in which the
/// tags first name them.
pub fn release_versions(tags: &Vec<String>) -> (versions: Vec<Version>)
    ensures
        version_views(versions@) == catalog(texts(tags@)),
{
    let mut versions: Vec<Version> = Vec::new();
    let mut i: usize = 0;
    while i < tags.len()
        invariant
            i <= tags.len(),
            version_views(versions@) == catalog(texts(tags@).take(i as int)),
        decreases tags.len() - i,
    {
        proof {
            assert(texts(tags@).take(i + 1).drop_last() =~= texts(tags@).take(i as int));
        }
        match release_version(tags[i].as_str()) {
            Some(version) => {
                if !holds_version(&versions, &version) {
                    versions.push(version);
                }
            },
            None => {},
        }
        i += 1;
    }
    proof {
        assert(texts(tags@).take(tags.len() as int) =~= texts(tags@));
    }
    versions
}

/// The latest version of a list: `None` for an empty list.
pub fn latest_version(versions: &Vec<Version>) -> (latest: Option<Version>)
    ensures
        is_latest_of(version_views(versions@), match latest {
            Some(version) => Some(version@),
            None => None,
        }),
        latest is None <==> versions.len() == 0,
{
    if versions.len() == 0 {
        return None;
    }
    let ghost all = version_views(versions@);
    let mut best: usize = 0;
    let mut i: usize = 1;
    proof {
        lemma_precedes_is_strict(all[0], all[0]);
    }
    while i < versions.len()
        invariant
            all == version_views(versions@),
            1 <= i <= versions.len(),
            best < i,
            forall|j: int| 0 <= j < i ==> !all[best as int].precedes(#[trigger] all[j]),
        decreases versions.len() - i,
    {
        if versions[best].precedes(&versions[i]) {
            proof {
                assert forall|j: int| 0 <= j < i + 1 implies !all[i as int].precedes(
                    #[trigger] all[j],
                ) by {
                    lemma_precedes_is_strict(all[i as int], all[i as int]);
                    if all[i as int].precedes(all[j]) {
                        lemma_precedes_is_transitive(all[best as int], all[i as int], all[j]);
                    }
                }
            }
            best = i;
        }
        i += 1;
    }
    Some(versions[best].clone())
}

} // verus!
