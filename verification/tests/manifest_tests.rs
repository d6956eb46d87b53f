use cargo_mono::errors::Error;
use cargo_mono::manifest::{manifest_dep_requirement, manifest_package_version, patch};
use cargo_mono::version::Version;
use cargo_mono::vmap::VersionMap;

fn versions(entries: &[(&str, Version)]) -> VersionMap {
    let mut m = VersionMap::new();
    for (name, v) in entries {
        m.insert(name.to_string(), v.duplicate());
    }
    m
}

const MANIFEST_B: &str = r#"# workspace member
[package]
name = "b" # the dependant
version = "0.1.0"
description = "keeps its words"

[dependencies]
a = "0.1"
serde = "1"

[dev-dependencies]
a = { version = "0.1", path = "../a" }
"#;

#[test]
fn patch_rewrites_own_version_and_matching_requirements() {
    let vm = versions(&[("a", Version::new(0, 2, 0)), ("b", Version::new(0, 2, 0))]);
    let out = patch(MANIFEST_B, &"b".to_string(), &vm).unwrap();

    assert_eq!(
        manifest_package_version(&out).unwrap(),
        Some("0.2.0".to_string())
    );
    assert_eq!(
        manifest_dep_requirement(&out, "dependencies", "a").unwrap(),
        Some("0.2.0".to_string())
    );
    assert_eq!(
        manifest_dep_requirement(&out, "dev-dependencies", "a").unwrap(),
        Some("0.2.0".to_string())
    );
}

#[test]
fn patch_leaves_unrelated_entries_and_comments_alone() {
    let vm = versions(&[("a", Version::new(0, 2, 0)), ("b", Version::new(0, 2, 0))]);
    let out = patch(MANIFEST_B, &"b".to_string(), &vm).unwrap();

    // The unrelated dependency keeps its requirement.
    assert_eq!(
        manifest_dep_requirement(&out, "dependencies", "serde").unwrap(),
        Some("1".to_string())
    );
    // Comments, auxiliary keys and unrelated fields survive the rewrite.
    assert!(out.contains("# workspace member"));
    assert!(out.contains("# the dependant"));
    assert!(out.contains("path = \"../a\""));
    assert!(out.contains("description = \"keeps its words\""));
}

#[test]
fn patched_manifest_reparses_to_the_same_fields() {
    let vm = versions(&[("a", Version::new(0, 2, 0)), ("b", Version::new(0, 2, 0))]);
    let once = patch(MANIFEST_B, &"b".to_string(), &vm).unwrap();
    // Re-parsing the patched text and reading every field the patcher
    // touches gives back exactly what was written.
    assert_eq!(
        manifest_package_version(&once).unwrap(),
        Some("0.2.0".to_string())
    );
    // Patching again with the same map is idempotent on the fields.
    let twice = patch(&once, &"b".to_string(), &vm).unwrap();
    assert_eq!(
        manifest_package_version(&twice).unwrap(),
        manifest_package_version(&once).unwrap()
    );
    assert_eq!(
        manifest_dep_requirement(&twice, "dependencies", "a").unwrap(),
        manifest_dep_requirement(&once, "dependencies", "a").unwrap()
    );
    assert!(twice.contains("# workspace member"));
}

#[test]
fn unsupported_entry_shape_is_a_structural_error() {
    let text = r#"[package]
name = "b"
version = "0.1.0"

[dependencies]
a = 5
"#;
    let vm = versions(&[("a", Version::new(0, 2, 0)), ("b", Version::new(0, 2, 0))]);
    match patch(text, &"b".to_string(), &vm) {
        Err(Error::ManifestStructuralError(n)) => assert_eq!(n, "a"),
        other => panic!("expected ManifestStructuralError, got {:?}", other),
    }
}

#[test]
fn inline_table_without_version_is_a_structural_error() {
    let text = r#"[package]
name = "b"
version = "0.1.0"

[dependencies]
a = { path = "../a" }
"#;
    let vm = versions(&[("a", Version::new(0, 2, 0)), ("b", Version::new(0, 2, 0))]);
    assert!(matches!(
        patch(text, &"b".to_string(), &vm),
        Err(Error::ManifestStructuralError(_))
    ));
}

#[test]
fn invalid_toml_is_a_parse_error() {
    let vm = versions(&[("b", Version::new(0, 2, 0))]);
    assert!(matches!(
        patch("not = = toml", &"b".to_string(), &vm),
        Err(Error::ManifestParseError(_))
    ));
}

#[test]
fn untouched_dependency_entries_need_no_version_in_the_map() {
    let text = r#"[package]
name = "b"
version = "0.1.0"

[dependencies]
other = 5
"#;
    // `other` has an unsupported shape but gets no new version, so patching
    // succeeds and leaves it alone.
    let vm = versions(&[("b", Version::new(0, 2, 0))]);
    let out = patch(text, &"b".to_string(), &vm).unwrap();
    assert_eq!(
        manifest_package_version(&out).unwrap(),
        Some("0.2.0".to_string())
    );
    assert!(out.contains("other = 5"));
}

#[test]
fn missing_own_version_field_is_a_structural_error() {
    let text = r#"[package]
name = "b"

[dependencies]
a = "0.1"
"#;
    let vm = versions(&[("a", Version::new(0, 2, 0)), ("b", Version::new(0, 2, 0))]);
    match patch(text, &"b".to_string(), &vm) {
        Err(Error::ManifestStructuralError(n)) => assert_eq!(n, "b"),
        other => panic!("expected ManifestStructuralError, got {:?}", other),
    }
}

#[test]
fn full_table_dependency_entry_is_a_structural_error() {
    // A dependency written as its own section is neither a bare string nor
    // an inline table, so a rewrite that would touch it is refused.
    let text = r#"[package]
name = "b"
version = "0.1.0"

[dependencies.a]
version = "0.1"
"#;
    let vm = versions(&[("a", Version::new(0, 2, 0)), ("b", Version::new(0, 2, 0))]);
    match patch(text, &"b".to_string(), &vm) {
        Err(Error::ManifestStructuralError(n)) => assert_eq!(n, "a"),
        other => panic!("expected ManifestStructuralError, got {:?}", other),
    }
}
