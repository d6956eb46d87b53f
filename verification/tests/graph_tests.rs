use cargo_mono::errors::Error;
use cargo_mono::graph::{plan_publish, PublishAction};
use cargo_mono::package::{Dependency, DepKind, Package};
use cargo_mono::version::Version;
use cargo_mono::vmap::VersionMap;

fn pkg(name: &str, version: Version, deps: &[&str]) -> Package {
    Package {
        name: name.to_string(),
        version,
        manifest_path: format!("{}/Cargo.toml", name),
        publish: None,
        dependencies: deps
            .iter()
            .map(|d| Dependency {
                name: d.to_string(),
                req: "0.1".to_string(),
                kind: DepKind::Normal,
            })
            .collect(),
    }
}

fn published(entries: &[(&str, Version)]) -> VersionMap {
    let mut m = VersionMap::new();
    for (name, v) in entries {
        m.insert(name.to_string(), v.duplicate());
    }
    m
}

#[test]
fn a_cycle_is_fatal_and_nothing_is_planned() {
    let packages = vec![
        pkg("a", Version::new(0, 2, 0), &["b"]),
        pkg("b", Version::new(0, 2, 0), &["a"]),
    ];
    let pubs = published(&[("a", Version::new(0, 1, 0)), ("b", Version::new(0, 1, 0))]);
    match plan_publish(&packages, &pubs, &"a".to_string(), false) {
        Err(Error::CycleDetected) => {},
        other => panic!("expected CycleDetected, got {:?}", other.map(|s| s.len())),
    }
}

#[test]
fn dependencies_are_planned_before_dependants() {
    let packages = vec![
        pkg("c", Version::new(0, 2, 0), &["b"]),
        pkg("a", Version::new(0, 2, 0), &[]),
        pkg("b", Version::new(0, 2, 0), &["a"]),
    ];
    let pubs = published(&[
        ("a", Version::new(0, 1, 0)),
        ("b", Version::new(0, 1, 0)),
        ("c", Version::new(0, 1, 0)),
    ]);
    let steps = plan_publish(&packages, &pubs, &"c".to_string(), false).unwrap();
    assert_eq!(steps.len(), 3);
    let pos = |n: &str| steps.iter().position(|s| s.name == n).unwrap();
    assert!(pos("a") < pos("b"));
    assert!(pos("b") < pos("c"));
}

#[test]
fn ahead_is_published_and_equal_is_skipped() {
    let packages = vec![
        pkg("a", Version::new(0, 2, 0), &[]),
        pkg("b", Version::new(0, 1, 0), &["a"]),
    ];
    let pubs = published(&[("a", Version::new(0, 1, 0)), ("b", Version::new(0, 1, 0))]);
    let steps = plan_publish(&packages, &pubs, &"a".to_string(), false).unwrap();
    assert_eq!(steps.len(), 2);
    let a = steps.iter().find(|s| s.name == "a").unwrap();
    let b = steps.iter().find(|s| s.name == "b").unwrap();
    assert_eq!(a.action, PublishAction::Publish);
    assert_eq!(b.action, PublishAction::Skip);
    assert_eq!(a.manifest_path, "a/Cargo.toml");
}

#[test]
fn publishing_an_already_published_target_is_fatal() {
    // The registry already has the local version of `a`: the run fails fast
    // and plans no step at all.
    let packages = vec![
        pkg("a", Version::new(0, 1, 0), &[]),
        pkg("b", Version::new(0, 1, 0), &["a"]),
    ];
    let pubs = published(&[("a", Version::new(0, 1, 0)), ("b", Version::new(0, 1, 0))]);
    match plan_publish(&packages, &pubs, &"a".to_string(), false) {
        Err(Error::AlreadyPublished(n)) => assert_eq!(n, "a"),
        other => panic!("expected AlreadyPublished, got {:?}", other.map(|s| s.len())),
    }
}

#[test]
fn only_deps_mode_waives_the_target_guard() {
    let packages = vec![
        pkg("a", Version::new(0, 1, 0), &[]),
        pkg("b", Version::new(0, 1, 0), &["a"]),
    ];
    let pubs = published(&[("a", Version::new(0, 1, 0)), ("b", Version::new(0, 1, 0))]);
    let steps = plan_publish(&packages, &pubs, &"a".to_string(), true).unwrap();
    assert_eq!(steps.len(), 2);
    assert!(steps.iter().all(|s| s.action == PublishAction::Skip));
}

#[test]
fn wildcard_target_plans_the_whole_workspace() {
    let packages = vec![
        pkg("a", Version::new(0, 2, 0), &[]),
        pkg("b", Version::new(0, 2, 0), &["a"]),
    ];
    let pubs = published(&[("a", Version::new(0, 1, 0)), ("b", Version::new(0, 1, 0))]);
    let steps = plan_publish(&packages, &pubs, &"*".to_string(), false).unwrap();
    assert_eq!(steps.len(), 2);
    assert!(steps.iter().all(|s| s.action == PublishAction::Publish));
}

#[test]
fn missing_published_version_is_fatal() {
    let packages = vec![pkg("a", Version::new(0, 2, 0), &[])];
    let pubs = published(&[]);
    match plan_publish(&packages, &pubs, &"a".to_string(), false) {
        Err(Error::RegistryLookupFailed(n)) => assert_eq!(n, "a"),
        other => panic!("expected RegistryLookupFailed, got {:?}", other.map(|s| s.len())),
    }
}
