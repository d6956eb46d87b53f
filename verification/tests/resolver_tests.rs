use cargo_mono::errors::Error;
use cargo_mono::package::{can_publish, filter_publishable, Dependency, DepKind, Package};
use cargo_mono::resolver::public_dependants;
use cargo_mono::version::Version;
use cargo_mono::vmap::VersionMap;

fn pkg(name: &str, version: Version, deps: &[&str]) -> Package {
    Package {
        name: name.to_string(),
        version,
        manifest_path: format!("{}/Cargo.toml", name),
        publish: None,
        dependencies: deps
            .iter()
            .map(|d| Dependency {
                name: d.to_string(),
                req: "0.1".to_string(),
                kind: DepKind::Normal,
            })
            .collect(),
    }
}

fn published(entries: &[(&str, Version)]) -> VersionMap {
    let mut m = VersionMap::new();
    for (name, v) in entries {
        m.insert(name.to_string(), v.duplicate());
    }
    m
}

#[test]
fn target_alone_without_dependant_following() {
    let packages = vec![
        pkg("a", Version::new(0, 1, 0), &[]),
        pkg("b", Version::new(0, 1, 0), &["a"]),
    ];
    let pubs = published(&[("a", Version::new(0, 1, 0)), ("b", Version::new(0, 1, 0))]);
    let m = public_dependants(&packages, &pubs, &"a".to_string(), false, false).unwrap();
    assert_eq!(m.len(), 1);
    assert_eq!(m.get(&"a".to_string()), Some(&Version::new(0, 1, 1)));
    assert_eq!(m.get(&"b".to_string()), None);
}

#[test]
fn breaking_bump_follows_dependants_transitively() {
    let packages = vec![
        pkg("a", Version::new(0, 1, 0), &[]),
        pkg("b", Version::new(0, 1, 0), &["a"]),
        pkg("c", Version::new(0, 1, 0), &["b"]),
        pkg("d", Version::new(0, 1, 0), &[]),
    ];
    let pubs = published(&[
        ("a", Version::new(0, 1, 0)),
        ("b", Version::new(0, 1, 0)),
        ("c", Version::new(0, 1, 0)),
        ("d", Version::new(0, 1, 0)),
    ]);
    let m = public_dependants(&packages, &pubs, &"a".to_string(), true, false).unwrap();
    assert_eq!(m.len(), 3);
    assert_eq!(m.get(&"a".to_string()), Some(&Version::new(0, 2, 0)));
    assert_eq!(m.get(&"b".to_string()), Some(&Version::new(0, 2, 0)));
    assert_eq!(m.get(&"c".to_string()), Some(&Version::new(0, 2, 0)));
    assert_eq!(m.get(&"d".to_string()), None);
}

#[test]
fn workspace_bump_scenario() {
    // A two-package workspace, everything published at 0.1.0: a breaking
    // bump of `a` with dependants raises both to 0.2.0.
    let packages = vec![
        pkg("a", Version::new(0, 1, 0), &[]),
        pkg("b", Version::new(0, 1, 0), &["a"]),
    ];
    let pubs = published(&[("a", Version::new(0, 1, 0)), ("b", Version::new(0, 1, 0))]);
    let m = public_dependants(&packages, &pubs, &"a".to_string(), true, true).unwrap();
    assert_eq!(m.len(), 2);
    assert_eq!(m.get(&"a".to_string()), Some(&Version::new(0, 2, 0)));
    assert_eq!(m.get(&"b".to_string()), Some(&Version::new(0, 2, 0)));
}

#[test]
fn cyclic_workspace_inserts_each_name_once() {
    let packages = vec![
        pkg("a", Version::new(0, 1, 0), &["b"]),
        pkg("b", Version::new(0, 1, 0), &["a"]),
    ];
    let pubs = published(&[("a", Version::new(0, 1, 0)), ("b", Version::new(0, 1, 0))]);
    let m = public_dependants(&packages, &pubs, &"a".to_string(), true, false).unwrap();
    assert_eq!(m.len(), 2);
    assert_eq!(m.get(&"a".to_string()), Some(&Version::new(0, 2, 0)));
    assert_eq!(m.get(&"b".to_string()), Some(&Version::new(0, 2, 0)));
}

#[test]
fn unknown_target_is_reported() {
    let packages = vec![pkg("a", Version::new(0, 1, 0), &[])];
    let pubs = published(&[("a", Version::new(0, 1, 0))]);
    match public_dependants(&packages, &pubs, &"zzz".to_string(), true, false) {
        Err(Error::WorkspaceNotFound(n)) => assert_eq!(n, "zzz"),
        other => panic!("expected WorkspaceNotFound, got {:?}", other.map(|m| m.len())),
    }
}

#[test]
fn missing_published_version_aborts_resolution() {
    let packages = vec![
        pkg("a", Version::new(0, 1, 0), &[]),
        pkg("b", Version::new(0, 1, 0), &["a"]),
    ];
    let pubs = published(&[("a", Version::new(0, 1, 0))]);
    match public_dependants(&packages, &pubs, &"a".to_string(), true, false) {
        Err(Error::RegistryLookupFailed(n)) => assert_eq!(n, "b"),
        other => panic!("expected RegistryLookupFailed, got {:?}", other.map(|m| m.len())),
    }
}

#[test]
fn unpublishable_dependants_are_not_bumped() {
    let mut blocked = pkg("b", Version::new(0, 1, 0), &["a"]);
    blocked.publish = Some(vec![]);
    let packages = vec![pkg("a", Version::new(0, 1, 0), &[]), blocked];
    let pubs = published(&[("a", Version::new(0, 1, 0)), ("b", Version::new(0, 1, 0))]);
    let m = public_dependants(&packages, &pubs, &"a".to_string(), true, false).unwrap();
    assert_eq!(m.len(), 1);
    assert_eq!(m.get(&"b".to_string()), None);
}

#[test]
fn empty_registry_allow_list_blocks_publishing() {
    let mut p = pkg("a", Version::new(0, 1, 0), &[]);
    assert!(can_publish(&p));
    p.publish = Some(vec![]);
    assert!(!can_publish(&p));
    p.publish = Some(vec!["my-registry".to_string()]);
    assert!(can_publish(&p));
}

#[test]
fn wildcard_requirement_blocks_publishing() {
    let mut p = pkg("a", Version::new(0, 1, 0), &["x"]);
    assert!(can_publish(&p));
    p.dependencies[0].req = "*".to_string();
    assert!(!can_publish(&p));
}

#[test]
fn filtering_keeps_publishable_packages_in_order() {
    let mut blocked = pkg("b", Version::new(0, 1, 0), &[]);
    blocked.publish = Some(vec![]);
    let mut wildcard = pkg("c", Version::new(0, 1, 0), &["x"]);
    wildcard.dependencies[0].req = "*".to_string();
    let packages = vec![
        pkg("a", Version::new(0, 1, 0), &[]),
        blocked,
        wildcard,
        pkg("d", Version::new(0, 1, 0), &["a"]),
    ];
    let kept = filter_publishable(&packages);
    let names: Vec<String> = kept.iter().map(|p| p.name.clone()).collect();
    assert_eq!(names, vec!["a".to_string(), "d".to_string()]);
    assert_eq!(kept[1].dependencies[0].name, "a");
    assert_eq!(kept[1].version, Version::new(0, 1, 0));
}
