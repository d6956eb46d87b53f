use cargo_mono::errors::Error;
use cargo_mono::registry::{build_url, get_published_versions, published_version_from_index};
use cargo_mono::version::Version;

#[test]
fn url_for_one_letter_name() {
    assert_eq!(build_url("a"), "https://index.crates.io/1/a");
}

#[test]
fn url_for_two_letter_name() {
    assert_eq!(build_url("ab"), "https://index.crates.io/2/ab");
}

#[test]
fn url_for_three_letter_name() {
    assert_eq!(build_url("abc"), "https://index.crates.io/3/a/abc");
}

#[test]
fn url_for_longer_name() {
    assert_eq!(build_url("serde"), "https://index.crates.io/se/rd/serde");
}

#[test]
fn url_lowercases_the_name() {
    assert_eq!(build_url("Serde_JSON"), "https://index.crates.io/se/rd/serde_json");
}

#[test]
fn picks_the_highest_published_version() {
    let lines = vec![
        r#"{"name":"demo","vers":"0.1.0"}"#.to_string(),
        r#"{"name":"demo","vers":"0.3.0"}"#.to_string(),
        r#"{"name":"demo","vers":"0.2.5"}"#.to_string(),
    ];
    let got = published_version_from_index(&lines, false).unwrap();
    assert_eq!(got, Version::new(0, 3, 0));
}

#[test]
fn release_beats_its_pre_release() {
    let lines = vec![
        r#"{"vers":"1.0.0-alpha.1"}"#.to_string(),
        r#"{"vers":"1.0.0"}"#.to_string(),
    ];
    let got = published_version_from_index(&lines, false).unwrap();
    assert_eq!(got, Version::new(1, 0, 0));
}

#[test]
fn malformed_line_fails_the_lookup() {
    let lines = vec!["this is not json".to_string()];
    assert!(matches!(
        published_version_from_index(&lines, true),
        Err(Error::RegistryLookupFailed(_))
    ));
}

#[test]
fn malformed_version_fails_the_lookup() {
    let lines = vec![r#"{"vers":"not.a.version"}"#.to_string()];
    assert!(matches!(
        published_version_from_index(&lines, false),
        Err(Error::RegistryLookupFailed(_))
    ));
}

#[test]
fn empty_index_is_the_zero_baseline_when_allowed() {
    let lines: Vec<String> = vec![];
    assert_eq!(published_version_from_index(&lines, true).unwrap(), Version::new(0, 0, 0));
}

#[test]
fn empty_index_fails_when_not_allowed() {
    let lines: Vec<String> = vec![];
    assert!(matches!(
        published_version_from_index(&lines, false),
        Err(Error::RegistryLookupFailed(_))
    ));
}

#[test]
fn batch_of_successes_becomes_a_map() {
    let results = vec![
        ("a".to_string(), Ok(Version::new(0, 1, 0))),
        ("b".to_string(), Ok(Version::new(2, 0, 0))),
    ];
    let m = get_published_versions(&results).unwrap();
    assert_eq!(m.len(), 2);
    assert_eq!(m.get(&"a".to_string()), Some(&Version::new(0, 1, 0)));
    assert_eq!(m.get(&"b".to_string()), Some(&Version::new(2, 0, 0)));
    assert_eq!(m.get(&"c".to_string()), None);
}

#[test]
fn one_failure_fails_the_whole_batch() {
    let results = vec![
        ("a".to_string(), Ok(Version::new(0, 1, 0))),
        ("b".to_string(), Err(Error::RegistryLookupFailed("b".to_string()))),
    ];
    assert!(matches!(
        get_published_versions(&results),
        Err(Error::RegistryLookupFailed(_))
    ));
}

#[test]
fn batch_failure_report_aggregates_every_description() {
    let results = vec![
        ("a".to_string(), Err(Error::RegistryLookupFailed("a".to_string()))),
        ("b".to_string(), Ok(Version::new(0, 1, 0))),
        ("c".to_string(), Err(Error::RegistryLookupFailed("c".to_string()))),
    ];
    match get_published_versions(&results) {
        Err(Error::RegistryLookupFailed(msg)) => {
            let a = msg.find("failed to get a published version: a").unwrap();
            let c = msg.find("failed to get a published version: c").unwrap();
            assert!(a < c);
            assert_eq!(msg.matches('\n').count(), 2);
        },
        other => panic!("expected the aggregated failure report, got {:?}", other.map(|m| m.len())),
    }
}
