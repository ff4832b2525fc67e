use protoc_plugin::catalog::{holds_version, latest_version, release_version, release_versions};
use protoc_plugin::proto::{load_versions, LoadVersionsOutput};
use protoc_plugin::version::Version;

fn tags(list: &[&str]) -> Vec<String> {
    list.iter().map(|tag| tag.to_string()).collect()
}

fn prerelease(major: u64, minor: u64, patch: u64, label: &str) -> Version {
    Version { major, minor, patch, pre: Some(label.to_string()) }
}

fn upstream() -> Vec<String> {
    tags(&[
        "conformance-build-tag",
        "v2.4.1",
        "v2.6.0",
        "v3.0.0-alpha-1",
        "v3.20.3",
        "v21.12",
        "v28.0-rc1",
        "v28.0",
        "v28.3",
        "v29.0-rc1",
        "v3.5.0.1",
        "v28.2",
    ])
}

#[test]
fn loads_versions_from_git() {
    let output = load_versions(&upstream());
    assert!(!output.versions.is_empty());
    assert_eq!(
        output.versions,
        vec![
            Version::new(21, 12, 0),
            prerelease(28, 0, 0, "rc1"),
            Version::new(28, 0, 0),
            Version::new(28, 3, 0),
            prerelease(29, 0, 0, "rc1"),
            Version::new(28, 2, 0),
        ]
    );
}

#[test]
fn sets_latest_alias() {
    let output = load_versions(&upstream());
    assert!(output.latest.is_some());
    assert!(output.alias("latest").is_some());
    assert_eq!(output.alias("latest"), output.latest.as_ref());
    assert_eq!(output.latest, Some(prerelease(29, 0, 0, "rc1")));
    assert_eq!(output.alias("stable"), None);
}

#[test]
fn resolves_the_newest_release() {
    let output = load_versions(&tags(&["v28.3"]));
    assert_eq!(output.versions, vec![Version::new(28, 3, 0)]);
    assert_eq!(output.latest, Some(Version::new(28, 3, 0)));
    assert_eq!(output.aliases, vec![("latest".to_string(), Version::new(28, 3, 0))]);
}

#[test]
fn prefers_a_release_to_its_prerelease() {
    let output = load_versions(&tags(&["v28.3", "v29.0-rc2", "v29.0", "v29.0-rc1"]));
    assert_eq!(output.latest, Some(Version::new(29, 0, 0)));
}

#[test]
fn ranks_prereleases_by_their_labels() {
    for list in [tags(&["v28.0-rc1", "v28.0-rc2"]), tags(&["v28.0-rc2", "v28.0-rc1"])] {
        assert_eq!(load_versions(&list).latest, Some(prerelease(28, 0, 0, "rc2")));
    }
    for list in [
        tags(&["v29.0-rc.9", "v29.0-rc.10", "v28.3"]),
        tags(&["v28.3", "v29.0-rc.10", "v29.0-rc.9"]),
    ] {
        let output = load_versions(&list);
        assert_eq!(output.latest, Some(prerelease(29, 0, 0, "rc.10")));
        assert_eq!(output.versions.len(), 3);
    }
}

#[test]
fn offers_the_same_in_any_order() {
    let sorted = |mut versions: Vec<Version>| {
        versions.sort_by_key(|version| format!("{version:?}"));
        versions
    };
    let forward = upstream();
    let mut backward = upstream();
    backward.reverse();
    let mut rotated = upstream();
    rotated.rotate_left(5);
    let mut doubled = upstream();
    doubled.extend(upstream());
    let expected = load_versions(&forward);
    for list in [backward, rotated, doubled] {
        let output = load_versions(&list);
        assert_eq!(output.latest, expected.latest);
        assert_eq!(output.aliases, expected.aliases);
        assert_eq!(sorted(output.versions), sorted(expected.versions.clone()));
    }
}

#[test]
fn offers_nothing_without_release_tags() {
    for list in [
        tags(&[]),
        tags(&["main", "v1.2.3", "28.3", "vx.y", "v1.", "v.1", "v", "", "V28.3", "v28", "v1.2.3.4"]),
    ] {
        assert_eq!(
            load_versions(&list),
            LoadVersionsOutput { versions: vec![], latest: None, aliases: vec![] }
        );
    }
}

#[test]
fn passes_over_a_malformed_tag() {
    let output = load_versions(&tags(&["v28.x", "v28.3", "v99999999999999999999.1", "v27.0"]));
    assert_eq!(output.versions, vec![Version::new(28, 3, 0), Version::new(27, 0, 0)]);
    assert_eq!(output.latest, Some(Version::new(28, 3, 0)));
}

#[test]
fn lists_each_version_once() {
    let output = load_versions(&tags(&["v28.3", "v28.03", "v27.0", "v28.3", "v27.0-rc1", "v27.0"]));
    assert_eq!(
        output.versions,
        vec![Version::new(28, 3, 0), Version::new(27, 0, 0), prerelease(27, 0, 0, "rc1")]
    );
}

#[test]
fn reads_one_tag() {
    assert_eq!(release_version("v28.3"), Some(Version::new(28, 3, 0)));
    assert_eq!(release_version("v28.3-rc.1"), Some(prerelease(28, 3, 0, "rc.1")));
    assert_eq!(release_version("v28.3-"), Some(prerelease(28, 3, 0, "")));
    assert_eq!(release_version("v28.3.1"), None);
    assert_eq!(release_version("v28"), None);
    assert_eq!(release_version("v28-rc.1"), None);
    assert_eq!(release_version("28.3"), None);
    assert_eq!(release_version("vv28.3"), None);
    assert_eq!(release_version("v28.3a"), None);
    assert_eq!(release_version(""), None);
}

#[test]
fn gathers_and_ranks() {
    let versions = release_versions(&tags(&["v1.2", "v1.10", "v1.9", "v1.2"]));
    assert_eq!(versions, vec![Version::new(1, 2, 0), Version::new(1, 10, 0), Version::new(1, 9, 0)]);
    assert_eq!(latest_version(&versions), Some(Version::new(1, 10, 0)));
    assert!(holds_version(&versions, &Version::new(1, 9, 0)));
    assert!(!holds_version(&versions, &Version::new(1, 9, 1)));
    assert!(!holds_version(&versions, &prerelease(1, 9, 0, "rc1")));
    assert_eq!(latest_version(&vec![]), None);
}
