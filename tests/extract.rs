use artifact_manifest::error::ManifestError;
use artifact_manifest::extract::{extract_version_string, replace_all_exec};
use artifact_manifest::model::Version;
use artifact_manifest::versions::versions_from_names;

#[test]
fn test_extract_version_string() {
    assert_eq!(Some("1.2.3".to_string()), extract_version_string("v1.2.3"));
    assert_eq!(None, extract_version_string("some-beta-prerelease-1"))
}

#[test]
fn extracts_version_from_release_title() {
    assert_eq!(Some("2.4.0".to_string()), extract_version_string("OpenSearch 2.4.0"));
    assert_eq!(Some("0.6.1".to_string()), extract_version_string("Quickwit v0.6.1 release"));
}

#[test]
fn extracts_prerelease_tag() {
    assert_eq!(
        Some("10.20.30-alpha1".to_string()),
        extract_version_string("release 10.20.30-alpha1 notes")
    );
}

#[test]
fn normalizes_beta_and_rc_markers() {
    assert_eq!(Some("5.0.0-beta1".to_string()), extract_version_string("v5.0.0.Beta1"));
    assert_eq!(Some("5.0.0-rc2".to_string()), extract_version_string("v5.0.0.RC2"));
}

#[test]
fn takes_first_embedded_version() {
    assert_eq!(Some("1.2.3".to_string()), extract_version_string("1.2.3.4"));
    assert_eq!(Some("1.2.3".to_string()), extract_version_string("from 1.2.3 to 4.5.6"));
}

#[test]
fn keeps_multi_digit_major() {
    assert_eq!(Some("10.2.3".to_string()), extract_version_string("v10.2.3"));
}

#[test]
fn no_version_in_text() {
    assert_eq!(None, extract_version_string(""));
    assert_eq!(None, extract_version_string("1.2"));
    assert_eq!(None, extract_version_string("1..2.3"));
    assert_eq!(None, extract_version_string("latest"));
}

#[test]
fn replaces_every_occurrence() {
    assert_eq!("a_b_c", replace_all_exec("a.b.c", ".", "_"));
    assert_eq!("x-beta-beta", replace_all_exec("x.Beta.Beta", ".Beta", "-beta"));
    assert_eq!("abc", replace_all_exec("abc", "zz", "y"));
}

#[test]
fn parse_round_trips_canonical_text() {
    let v = Version::parse("1.2.3-rc1").unwrap();
    assert_eq!(1, v.major);
    assert_eq!(2, v.minor);
    assert_eq!(3, v.patch);
    assert_eq!("rc1", v.pre);
    assert_eq!("1.2.3-rc1", v.text());
    assert_eq!("0.90.13", Version::parse("0.90.13").unwrap().text());
}

#[test]
fn parse_rejects_overflow() {
    assert!(matches!(
        Version::parse("18446744073709551616.0.0"),
        Err(ManifestError::VersionParse { .. })
    ));
    assert_eq!("18446744073709551615.0.0", Version::parse("18446744073709551615.0.0").unwrap().text());
}

#[test]
fn parse_rejects_leading_zero() {
    match Version::parse("01.2.3") {
        Err(ManifestError::VersionParse { name }) => assert_eq!("01.2.3", name),
        other => panic!("unexpected {:?}", other),
    }
}

#[test]
fn versions_from_names_drops_unrelated_names() {
    let names = vec![
        "v1.2.3".to_string(),
        "nightly".to_string(),
        "OpenSearch 2.4.0".to_string(),
    ];
    let vs = versions_from_names(&names);
    let texts: Vec<String> = vs.iter().map(|v| v.text()).collect();
    assert_eq!(vec!["1.2.3".to_string(), "2.4.0".to_string()], texts);
}

#[test]
fn versions_from_names_drops_unparsable_version() {
    let names = vec![
        "v1.2.3".to_string(),
        "v99999999999999999999.0.0".to_string(),
        "v4.5.6-rc1".to_string(),
    ];
    let texts: Vec<String> = versions_from_names(&names).iter().map(|v| v.text()).collect();
    assert_eq!(vec!["1.2.3".to_string(), "4.5.6-rc1".to_string()], texts);
}

#[test]
fn skips_numbers_with_leading_zero() {
    assert_eq!(Some("1.2.3".to_string()), extract_version_string("01.2.3"));
    assert_eq!(None, extract_version_string("1.02.3"));
    assert_eq!(Some("1.2.3".to_string()), extract_version_string("1.2.3-01"));
    assert_eq!(Some("1.2.0".to_string()), extract_version_string("v1.2.0"));
    assert_eq!(Some("1.2.3-0".to_string()), extract_version_string("1.2.3-0"));
}

#[test]
fn extracted_versions_parse() {
    for raw in ["v1.2.3", "OpenSearch 2.4.0", "v5.0.0.Beta1", "1.2.3-01", "01.2.3", "v0.0.0"] {
        let x = extract_version_string(raw).unwrap();
        assert_eq!(x, Version::parse(&x).unwrap().text());
    }
}

#[test]
fn versions_from_names_sorts_by_semver_precedence() {
    let names = vec![
        "v2.0.0".to_string(),
        "v1.10.0".to_string(),
        "v1.9.0".to_string(),
        "v2.0.0-rc1".to_string(),
        "v1.9.0".to_string(),
    ];
    let texts: Vec<String> = versions_from_names(&names).iter().map(|v| v.text()).collect();
    assert_eq!(vec!["1.9.0", "1.9.0", "1.10.0", "2.0.0-rc1", "2.0.0"], texts);
}
