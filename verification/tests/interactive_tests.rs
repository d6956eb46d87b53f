use cargo_mono::commands::{BumpCommand, PromptAnswer, PromptRequest, wants_commit};
use cargo_mono::errors::Error;
use cargo_mono::interactive::{ResolveSession, SessionStep};
use cargo_mono::package::{Dependency, DepKind, Package};
use cargo_mono::version::Version;
use cargo_mono::vmap::VersionMap;

fn pkg(name: &str, version: Version, deps: &[&str]) -> Package {
    Package {
        name: name.to_string(),
        version,
        manifest_path: format!("{}/Cargo.toml", name),
        publish: None,
        dependencies: deps
            .iter()
            .map(|d| Dependency {
                name: d.to_string(),
                req: "0.1".to_string(),
                kind: DepKind::Normal,
            })
            .collect(),
    }
}

fn published(entries: &[(&str, Version)]) -> VersionMap {
    let mut m = VersionMap::new();
    for (name, v) in entries {
        m.insert(name.to_string(), v.duplicate());
    }
    m
}

/// Steps the session until it needs the operator or finishes.
fn run_until_ask(
    s: &mut ResolveSession,
    packages: &Vec<Package>,
    pubs: &VersionMap,
    first_answer: Option<PromptAnswer>,
) -> Option<PromptRequest> {
    let mut answer = first_answer;
    loop {
        match s.advance(packages, pubs, answer.take()).unwrap() {
            SessionStep::Done => return None,
            SessionStep::Working => {},
            SessionStep::Ask(req) => return Some(req),
        }
    }
}

fn two_package_workspace() -> (Vec<Package>, VersionMap) {
    let packages = vec![
        pkg("a", Version::new(0, 1, 0), &[]),
        pkg("b", Version::new(0, 1, 0), &["a"]),
    ];
    let pubs = published(&[("a", Version::new(0, 1, 0)), ("b", Version::new(0, 1, 0))]);
    (packages, pubs)
}

#[test]
fn confirming_breaking_bumps_all_dependants() {
    let (packages, pubs) = two_package_workspace();
    let mut s = ResolveSession::begin(&packages, &"a".to_string()).unwrap();
    match run_until_ask(&mut s, &packages, &pubs, None) {
        Some(PromptRequest::ConfirmBreaking(n)) => assert_eq!(n, "a"),
        _ => panic!("expected the breaking question"),
    }
    let next = run_until_ask(&mut s, &packages, &pubs, Some(PromptAnswer::Confirmed(true)));
    assert!(next.is_none());
    let m = s.into_result();
    assert_eq!(m.len(), 2);
    assert_eq!(m.get(&"a".to_string()), Some(&Version::new(0, 2, 0)));
    assert_eq!(m.get(&"b".to_string()), Some(&Version::new(0, 2, 0)));
}

#[test]
fn declining_and_selecting_nothing_bumps_the_target_alone() {
    let (packages, pubs) = two_package_workspace();
    let mut s = ResolveSession::begin(&packages, &"a".to_string()).unwrap();
    run_until_ask(&mut s, &packages, &pubs, None);
    let req = run_until_ask(&mut s, &packages, &pubs, Some(PromptAnswer::Confirmed(false)));
    match req {
        Some(PromptRequest::SelectDependants(n, choices)) => {
            assert_eq!(n, "a");
            assert_eq!(choices, vec!["b".to_string()]);
        },
        _ => panic!("expected the dependant selection"),
    }
    let next = run_until_ask(&mut s, &packages, &pubs, Some(PromptAnswer::Selected(vec![])));
    assert!(next.is_none());
    let m = s.into_result();
    assert_eq!(m.len(), 1);
    assert_eq!(m.get(&"a".to_string()), Some(&Version::new(0, 1, 1)));
}

#[test]
fn selected_dependants_are_bumped_non_breaking() {
    let (packages, pubs) = two_package_workspace();
    let mut s = ResolveSession::begin(&packages, &"a".to_string()).unwrap();
    run_until_ask(&mut s, &packages, &pubs, None);
    run_until_ask(&mut s, &packages, &pubs, Some(PromptAnswer::Confirmed(false)));
    let next = run_until_ask(
        &mut s,
        &packages,
        &pubs,
        Some(PromptAnswer::Selected(vec!["b".to_string()])),
    );
    assert!(next.is_none());
    let m = s.into_result();
    assert_eq!(m.len(), 2);
    assert_eq!(m.get(&"a".to_string()), Some(&Version::new(0, 1, 1)));
    assert_eq!(m.get(&"b".to_string()), Some(&Version::new(0, 1, 1)));
}

#[test]
fn a_crate_without_dependants_is_recorded_without_a_question() {
    let packages = vec![pkg("a", Version::new(0, 1, 0), &[])];
    let pubs = published(&[("a", Version::new(0, 1, 0))]);
    let mut s = ResolveSession::begin(&packages, &"a".to_string()).unwrap();
    let req = run_until_ask(&mut s, &packages, &pubs, None);
    assert!(req.is_none());
    let m = s.into_result();
    assert_eq!(m.len(), 1);
    assert_eq!(m.get(&"a".to_string()), Some(&Version::new(0, 1, 1)));
}

#[test]
fn a_wrongly_shaped_answer_is_a_protocol_error() {
    let (packages, pubs) = two_package_workspace();
    let mut s = ResolveSession::begin(&packages, &"a".to_string()).unwrap();
    match run_until_ask(&mut s, &packages, &pubs, None) {
        Some(PromptRequest::ConfirmBreaking(_)) => {},
        _ => panic!("expected the breaking question"),
    }
    assert!(matches!(
        s.advance(&packages, &pubs, Some(PromptAnswer::Selected(vec![]))),
        Err(Error::InteractivePromptProtocolError)
    ));
}

#[test]
fn an_unknown_start_fails_the_session() {
    let (packages, _) = two_package_workspace();
    assert!(matches!(
        ResolveSession::begin(&packages, &"zzz".to_string()),
        Err(Error::WorkspaceNotFound(_))
    ));
}

#[test]
fn a_named_crate_needs_no_prompt() {
    let cmd = BumpCommand {
        crate_name: Some("a".to_string()),
        interactive: false,
        breaking: true,
        with_dependants: false,
        git: false,
    };
    assert!(!cmd.needs_crate_prompt());
    assert_eq!(cmd.crates_to_bump(None).unwrap(), vec!["a".to_string()]);
    assert!(cmd.effective_breaking());
    assert!(!cmd.effective_with_dependants());
}

#[test]
fn interactive_mode_defers_the_flags_to_the_operator() {
    let cmd = BumpCommand {
        crate_name: Some("a".to_string()),
        interactive: true,
        breaking: true,
        with_dependants: true,
        git: false,
    };
    assert!(!cmd.effective_breaking());
    assert!(!cmd.effective_with_dependants());
}

#[test]
fn selected_crates_become_the_targets() {
    let cmd = BumpCommand {
        crate_name: None,
        interactive: false,
        breaking: false,
        with_dependants: false,
        git: false,
    };
    assert!(cmd.needs_crate_prompt());
    let answer = PromptAnswer::Selected(vec!["x".to_string(), "y".to_string()]);
    assert_eq!(
        cmd.crates_to_bump(Some(&answer)).unwrap(),
        vec!["x".to_string(), "y".to_string()]
    );
    assert!(matches!(
        cmd.crates_to_bump(None),
        Err(Error::InteractivePromptProtocolError)
    ));
    assert!(matches!(
        cmd.crates_to_bump(Some(&PromptAnswer::Confirmed(true))),
        Err(Error::InteractivePromptProtocolError)
    ));
}

#[test]
fn only_manifests_and_lockfiles_are_committed() {
    assert!(wants_commit(&"Cargo.toml".to_string()));
    assert!(wants_commit(&"Cargo.lock".to_string()));
    assert!(!wants_commit(&"main.rs".to_string()));
    assert!(!wants_commit(&"cargo.toml".to_string()));
}

#[test]
fn every_error_describes_itself() {
    let errors = vec![
        Error::WorkspaceNotFound("a".to_string()),
        Error::RegistryLookupFailed("a".to_string()),
        Error::InteractivePromptProtocolError,
        Error::ManifestParseError("bad".to_string()),
        Error::ManifestStructuralError("a".to_string()),
        Error::CycleDetected,
        Error::AlreadyPublished("a".to_string()),
        Error::SubprocessFailed,
    ];
    for e in &errors {
        assert!(!e.describe().is_empty());
    }
}
