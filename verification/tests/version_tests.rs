use cargo_mono::version::{calc_bumped_version, version_lt_exec, version_to_string, Version};

fn v(major: u64, minor: u64, patch: u64) -> Version {
    Version::new(major, minor, patch)
}

fn pre(major: u64, minor: u64, patch: u64, idents: &[&str]) -> Version {
    let mut ver = Version::new(major, minor, patch);
    ver.pre = idents.iter().map(|s| s.to_string()).collect();
    ver
}

#[test]
fn breaking_bump_pre_one_raises_minor() {
    assert_eq!(calc_bumped_version(&v(0, 1, 0), true), v(0, 2, 0));
    assert_eq!(calc_bumped_version(&v(0, 3, 7), true), v(0, 4, 0));
}

#[test]
fn non_breaking_bump_pre_one_raises_patch() {
    assert_eq!(calc_bumped_version(&v(0, 1, 0), false), v(0, 1, 1));
    assert_eq!(calc_bumped_version(&v(0, 3, 7), false), v(0, 3, 8));
}

#[test]
fn breaking_bump_post_one_raises_major() {
    assert_eq!(calc_bumped_version(&v(1, 2, 3), true), v(2, 0, 0));
    assert_eq!(calc_bumped_version(&v(4, 0, 9), true), v(5, 0, 0));
}

#[test]
fn non_breaking_bump_post_one_raises_patch() {
    assert_eq!(calc_bumped_version(&v(1, 2, 3), false), v(1, 2, 4));
}

#[test]
fn bump_drops_pre_release_and_build() {
    let mut before = pre(1, 2, 3, &["alpha", "1"]);
    before.build = "001".to_string();
    assert_eq!(calc_bumped_version(&before, false), v(1, 2, 4));
    assert_eq!(calc_bumped_version(&before, true), v(2, 0, 0));
}

#[test]
fn bump_is_strictly_greater() {
    let samples = vec![
        v(0, 1, 0),
        v(0, 0, 0),
        v(1, 2, 3),
        pre(1, 2, 3, &["alpha"]),
        pre(0, 1, 0, &["rc", "2"]),
    ];
    for s in &samples {
        assert!(version_lt_exec(s, &calc_bumped_version(s, false)));
        assert!(version_lt_exec(s, &calc_bumped_version(s, true)));
    }
}

#[test]
fn precedence_orders_triples_lexicographically() {
    assert!(version_lt_exec(&v(0, 1, 0), &v(0, 2, 0)));
    assert!(version_lt_exec(&v(0, 2, 9), &v(1, 0, 0)));
    assert!(version_lt_exec(&v(1, 0, 0), &v(1, 0, 1)));
    assert!(!version_lt_exec(&v(1, 0, 1), &v(1, 0, 0)));
    assert!(!version_lt_exec(&v(1, 0, 0), &v(1, 0, 0)));
}

#[test]
fn precedence_puts_pre_release_below_release() {
    assert!(version_lt_exec(&pre(1, 0, 0, &["alpha"]), &v(1, 0, 0)));
    assert!(!version_lt_exec(&v(1, 0, 0), &pre(1, 0, 0, &["alpha"])));
}

#[test]
fn precedence_compares_pre_release_identifiers() {
    // A strict prefix orders first.
    assert!(version_lt_exec(&pre(1, 0, 0, &["alpha"]), &pre(1, 0, 0, &["alpha", "1"])));
    // Numeric identifiers compare by value, not textually.
    assert!(version_lt_exec(&pre(1, 0, 0, &["9"]), &pre(1, 0, 0, &["10"])));
    // Numeric identifiers order before alphanumeric ones.
    assert!(version_lt_exec(&pre(1, 0, 0, &["1"]), &pre(1, 0, 0, &["alpha"])));
    // Alphanumeric identifiers compare lexicographically.
    assert!(version_lt_exec(&pre(1, 0, 0, &["alpha"]), &pre(1, 0, 0, &["beta"])));
    // Equal pre-releases are not ordered.
    assert!(!version_lt_exec(&pre(1, 0, 0, &["alpha"]), &pre(1, 0, 0, &["alpha"])));
}

#[test]
fn renders_release_triple() {
    assert_eq!(version_to_string(&v(0, 2, 0)), "0.2.0");
    assert_eq!(version_to_string(&v(12, 34, 56)), "12.34.56");
}

#[test]
fn renders_pre_release_and_build() {
    let mut ver = pre(1, 0, 0, &["alpha", "1"]);
    ver.build = "001".to_string();
    assert_eq!(version_to_string(&ver), "1.0.0-alpha.1+001");
}

#[test]
fn duplicate_is_equal() {
    let mut ver = pre(2, 3, 4, &["rc", "1"]);
    ver.build = "abc".to_string();
    assert_eq!(ver.duplicate(), ver);
}
