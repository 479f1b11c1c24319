use spec_drift::workspace::{find, narrow_paths, Package};

#[test]
fn find_returns_helpful_error_on_unknown_name() {
    let packages = vec![Package { name: "alpha".into(), root: "/r/alpha".into() }];
    let err = find(&packages, "beta").unwrap_err();
    assert!(err.contains("beta"));
    assert!(err.contains("alpha"));
}

#[test]
fn find_returns_no_cargo_hint_when_empty() {
    let err = find(&[], "anything").unwrap_err();
    assert!(err.contains("not a cargo project"));
}

#[test]
fn find_returns_the_first_member_with_the_name() {
    let packages = vec![
        Package { name: "alpha".into(), root: "/r/a1".into() },
        Package { name: "beta".into(), root: "/r/b".into() },
        Package { name: "alpha".into(), root: "/r/a2".into() },
    ];
    assert_eq!(find(&packages, "alpha").unwrap().root, "/r/a1");
    assert_eq!(find(&packages, "beta").unwrap().root, "/r/b");
}

#[test]
fn find_error_lists_every_known_member() {
    let packages = vec![
        Package { name: "alpha".into(), root: "/r/a".into() },
        Package { name: "beta".into(), root: "/r/b".into() },
    ];
    let err = find(&packages, "gamma").unwrap_err();
    assert_eq!(err, "--package `gamma`: not a workspace member. Known: alpha, beta");
}

#[test]
fn narrow_paths_drops_non_members() {
    let pkg = Package { name: "alpha".into(), root: "/r/alpha".into() };
    let paths = vec![
        "/r/alpha/src/lib.rs".to_string(),
        "/r/beta/src/lib.rs".to_string(),
        "/r/alpha/README.md".to_string(),
    ];
    let out = narrow_paths(paths, &pkg);
    assert_eq!(out.len(), 2);
    assert!(out.iter().all(|p| p.starts_with("/r/alpha")));
}

#[test]
fn narrow_paths_matches_whole_components() {
    let pkg = Package { name: "alpha".into(), root: "/r/alpha".into() };
    let paths = vec!["/r/alphabet/x.rs".to_string(), "/r/alpha".to_string()];
    assert_eq!(narrow_paths(paths, &pkg), vec!["/r/alpha".to_string()]);
}
