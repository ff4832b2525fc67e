use protoc_plugin::error::PluginError;
use protoc_plugin::version::{
    from_protoc_version, parse_protoc_version, parse_version, to_protoc_version, Version,
    VersionSpec,
};

fn exact(text: &str) -> VersionSpec {
    VersionSpec::Semantic(parse_version(text).unwrap())
}

fn prerelease(major: u64, minor: u64, patch: u64, label: &str) -> Version {
    Version { major, minor, patch, pre: Some(label.to_string()) }
}

#[test]
fn parses_from() {
    assert_eq!(from_protoc_version("1.0"), "1.0.0");
    assert_eq!(from_protoc_version("1.2"), "1.2.0");
    assert_eq!(from_protoc_version("1.2-rc3"), "1.2.0-rc3");
}

#[test]
fn formats_to() {
    assert_eq!(to_protoc_version(&exact("1.0.0")), "1.0");
    assert_eq!(to_protoc_version(&exact("1.2.0")), "1.2");
    assert_eq!(to_protoc_version(&exact("1.2.3")), "1.2");
    assert_eq!(to_protoc_version(&exact("1.2.0-rc3")), "1.2-rc3");
}

#[test]
fn pads_a_single_component() {
    assert_eq!(from_protoc_version("1"), "1.0.0");
    assert_eq!(from_protoc_version("28"), "28.0.0");
    assert_eq!(from_protoc_version("1-rc1"), "1.0.0-rc1");
    assert_eq!(from_protoc_version(""), ".0.0");
}

#[test]
fn leaves_three_components_alone() {
    assert_eq!(from_protoc_version("1.2.3"), "1.2.3");
    assert_eq!(from_protoc_version("3.5.0.1"), "3.5.0.1");
    assert_eq!(from_protoc_version("3.0.0-alpha-1"), "3.0.0-alpha-1");
}

#[test]
fn counts_dots_before_the_first_hyphen_only() {
    assert_eq!(from_protoc_version("1.2-rc.3"), "1.2.0-rc.3");
    assert_eq!(from_protoc_version("1-rc.3.4"), "1.0.0-rc.3.4");
    assert_eq!(from_protoc_version("1.2-"), "1.2.0-");
    assert_eq!(from_protoc_version("1.2-a-b"), "1.2.0-a-b");
}

#[test]
fn reads_canonical_text() {
    assert_eq!(parse_version("1.2.3"), Ok(Version::new(1, 2, 3)));
    assert_eq!(parse_version("0.0.0"), Ok(Version::new(0, 0, 0)));
    assert_eq!(parse_version("28.3.0-rc1"), Ok(prerelease(28, 3, 0, "rc1")));
    assert_eq!(parse_version("1.2.0-rc.3-x"), Ok(prerelease(1, 2, 0, "rc.3-x")));
    assert_eq!(parse_version("1.2.0-"), Ok(prerelease(1, 2, 0, "")));
    assert_eq!(parse_version("01.002.3"), Ok(Version::new(1, 2, 3)));
    assert_eq!(
        parse_version("18446744073709551615.0.0"),
        Ok(Version::new(u64::MAX, 0, 0))
    );
}

fn malformed(text: &str) -> Result<Version, PluginError> {
    Err(PluginError::MalformedVersion { version: text.to_string() })
}

#[test]
fn rejects_what_is_no_version() {
    for text in [
        "", "1", "1.2", "1.2.3.4", "1..3", ".2.3", "1.2.", "a.b.c", "1.2.x", "1.2.3 ", "+1.2.3",
        "-1.2.3", "1.2-rc.3", "18446744073709551616.0.0", "1.2.3x-rc1",
    ] {
        assert_eq!(parse_version(text), malformed(text), "{text}");
    }
}

#[test]
fn reads_release_tags() {
    assert_eq!(parse_protoc_version("1.2"), Ok(Version::new(1, 2, 0)));
    assert_eq!(parse_protoc_version("1"), Ok(Version::new(1, 0, 0)));
    assert_eq!(parse_protoc_version("1.2.3"), Ok(Version::new(1, 2, 3)));
    assert_eq!(parse_protoc_version("1.2-rc3"), Ok(prerelease(1, 2, 0, "rc3")));
    assert_eq!(parse_protoc_version("29.0-rc.1"), Ok(prerelease(29, 0, 0, "rc.1")));
    assert_eq!(parse_protoc_version("x.y"), malformed("x.y"));
    assert_eq!(parse_protoc_version("1.2.3.4"), malformed("1.2.3.4"));
    assert_eq!(parse_protoc_version(""), malformed(""));
}

#[test]
fn writes_release_scheme() {
    assert_eq!(to_protoc_version(&VersionSpec::Semantic(Version::new(0, 0, 0))), "0.0");
    assert_eq!(to_protoc_version(&VersionSpec::Semantic(Version::new(28, 3, 0))), "28.3");
    assert_eq!(to_protoc_version(&VersionSpec::Semantic(Version::new(10, 100, 7))), "10.100");
    assert_eq!(
        to_protoc_version(&VersionSpec::Semantic(Version::new(u64::MAX, 9, 0))),
        "18446744073709551615.9"
    );
    assert_eq!(
        to_protoc_version(&VersionSpec::Semantic(prerelease(29, 0, 0, "rc.1"))),
        "29.0-rc.1"
    );
    assert_eq!(to_protoc_version(&VersionSpec::Semantic(prerelease(1, 2, 0, ""))), "1.2-");
}

#[test]
fn passes_aliases_through() {
    assert_eq!(to_protoc_version(&VersionSpec::Alias("latest".to_string())), "latest");
    assert_eq!(to_protoc_version(&VersionSpec::Alias("canary".to_string())), "canary");
    assert_eq!(to_protoc_version(&VersionSpec::Alias(String::new())), "");
}

#[test]
fn round_trips_without_patch() {
    for version in [Version::new(1, 2, 0), Version::new(0, 0, 0), prerelease(29, 0, 0, "rc1")] {
        let native = to_protoc_version(&VersionSpec::Semantic(version.clone()));
        assert_eq!(parse_protoc_version(&native), Ok(version));
    }
    let native = to_protoc_version(&VersionSpec::Semantic(Version::new(1, 2, 3)));
    assert_eq!(parse_protoc_version(&native), Ok(Version::new(1, 2, 0)));
}

#[test]
fn orders_versions() {
    let release = Version::new(1, 2, 0);
    let candidate = prerelease(1, 2, 0, "rc1");
    let other = prerelease(1, 2, 0, "rc2");
    assert!(candidate.precedes(&release));
    assert!(!release.precedes(&candidate));
    assert!(candidate.precedes(&other));
    assert!(!other.precedes(&candidate));
    assert!(other.precedes(&release));
    assert!(!release.precedes(&release));
    assert!(Version::new(1, 2, 9).precedes(&Version::new(1, 3, 0)));
    assert!(Version::new(1, 9, 9).precedes(&Version::new(2, 0, 0)));
    assert!(Version::new(1, 2, 0).precedes(&Version::new(1, 2, 1)));
    assert!(release.precedes(&prerelease(1, 2, 1, "rc1")));
    assert!(!Version::new(2, 0, 0).precedes(&Version::new(1, 9, 9)));
}

#[test]
fn compares_versions() {
    assert!(Version::new(1, 2, 0).same(&Version::new(1, 2, 0)));
    assert!(!Version::new(1, 2, 0).same(&Version::new(1, 2, 1)));
    assert!(!Version::new(1, 2, 0).same(&prerelease(1, 2, 0, "")));
    assert!(prerelease(1, 2, 0, "rc1").same(&prerelease(1, 2, 0, "rc1")));
    assert!(!prerelease(1, 2, 0, "rc1").same(&prerelease(1, 2, 0, "rc2")));
    assert_eq!(prerelease(1, 2, 0, "rc1").clone(), prerelease(1, 2, 0, "rc1"));
}

#[test]
fn orders_prereleases_by_their_labels() {
    let ranked = [
        "", "0", "1", "2", "10", "a", "alpha", "alpha.1", "alpha.beta", "beta", "beta.2",
        "beta.11", "rc", "rc.1", "rc.1.0", "rc1", "rc2",
    ];
    for (i, low) in ranked.iter().enumerate() {
        for (j, high) in ranked.iter().enumerate() {
            assert_eq!(
                prerelease(1, 0, 0, low).precedes(&prerelease(1, 0, 0, high)),
                i < j,
                "{low} before {high}"
            );
        }
    }
}

#[test]
fn orders_as_the_host_does() {
    let texts = [
        "1.0.0-alpha", "1.0.0-alpha.1", "1.0.0-alpha.beta", "1.0.0-beta", "1.0.0-beta.2",
        "1.0.0-beta.11", "1.0.0-rc.1", "1.0.0", "1.0.1-0", "1.0.1-0.0", "1.0.1-9", "1.0.1-10",
        "1.0.1-99", "1.0.1-100", "1.0.1-a", "1.0.1-a-b", "1.0.1-a.0", "1.0.1-A", "1.0.1-rc1",
        "1.0.1-rc10", "1.0.1-rc2", "1.0.1-x.7.z.92", "1.0.1-x-y-z.-", "1.0.1", "1.1.0-rc.1",
        "1.1.0", "2.0.0-0", "2.0.0", "28.3.0", "28.0.0-rc2", "28.0.0-rc1", "10.0.0", "9.9.9",
    ];
    for a in texts {
        for b in texts {
            let host = proto_pdk::Version::parse(a).unwrap() < proto_pdk::Version::parse(b).unwrap();
            let ours = parse_version(a).unwrap().precedes(&parse_version(b).unwrap());
            assert_eq!(ours, host, "{a} before {b}");
        }
    }
}
