use spec_drift::domain::{Divergence, Location, RuleId, Severity};
use spec_drift::pipeline::{
    analyzer_plan, apply_strict, filter_to_diff_scope, has_blocking, is_cargo_manifest_path,
    is_rust_implementation_path, normalize_locations, path_less, same_path_components, sort_divergences, text_less,
    validation_passes, AnalyzerKind, DiffScope, Pillar,
};

fn div(path: &str) -> Divergence {
    Divergence {
        rule: RuleId::SymbolAbsence,
        severity: Severity::Critical,
        location: Location::new(path, 1),
        stated: "x".into(),
        reality: "y".into(),
        risk: "z".into(),
        attribution: None,
    }
}

fn at(rule: RuleId, severity: Severity, path: &str, line: u32) -> Divergence {
    Divergence { rule, severity, location: Location::new(path, line), ..div(path) }
}

#[test]
fn diff_filter_matches_relative_locations_against_changed_absolute_paths() {
    let root = "/repo";
    let scope = DiffScope::new(root, vec!["/repo/README.md".to_string()]);

    let out = filter_to_diff_scope(vec![div("README.md"), div("src/lib.rs")], root, &scope);

    assert_eq!(out.len(), 1);
    assert_eq!(out[0].location.file, "README.md");
}

#[test]
fn diff_filter_keeps_doc_drift_when_implementation_changed() {
    let root = "/repo";
    let scope = DiffScope::new(root, vec!["/repo/src/lib.rs".to_string()]);

    let out = filter_to_diff_scope(vec![div("README.md")], root, &scope);

    assert_eq!(out.len(), 1);
    assert_eq!(out[0].rule, RuleId::SymbolAbsence);
}

#[test]
fn diff_filter_keeps_ci_drift_when_cargo_manifest_changed() {
    let root = "/repo";
    let scope = DiffScope::new(root, vec!["/repo/Cargo.toml".to_string()]);
    let ghost = Divergence {
        rule: RuleId::GhostCommand,
        location: Location::new(".github/workflows/ci.yml", 10),
        ..div(".github/workflows/ci.yml")
    };

    let out = filter_to_diff_scope(vec![ghost], root, &scope);

    assert_eq!(out.len(), 1);
    assert_eq!(out[0].rule, RuleId::GhostCommand);
}

#[test]
fn diff_filter_drops_unrelated_drift() {
    let root = "/repo";
    let scope = DiffScope::new(root, vec!["/repo/tests/it.rs".to_string()]);
    assert!(!scope.implementation_changed);
    let out = filter_to_diff_scope(
        vec![div("README.md"), at(RuleId::GhostCommand, Severity::Warning, "Makefile", 2)],
        root,
        &scope,
    );
    assert!(out.is_empty());
}

#[test]
fn normalize_locations_strips_workspace_root() {
    let out = normalize_locations(vec![div("/repo/README.md"), div("/elsewhere/file.md")], "/repo");

    assert_eq!(out[0].location.file, "README.md");
    assert_eq!(out[1].location.file, "/elsewhere/file.md");
}

#[test]
fn implementation_and_manifest_paths() {
    assert!(is_rust_implementation_path("/repo", "/repo/src/lib.rs"));
    assert!(!is_rust_implementation_path("/repo", "/repo/tests/it.rs"));
    assert!(!is_rust_implementation_path("/repo", "/repo/examples/demo.rs"));
    assert!(!is_rust_implementation_path("/repo", "/repo/README.md"));
    assert!(is_cargo_manifest_path("/repo/crates/a/Cargo.toml"));
    assert!(!is_cargo_manifest_path("/repo/Cargo.lock"));
}

#[test]
fn sort_orders_by_file_then_line_then_rule() {
    let a = at(RuleId::LyingTest, Severity::Notice, "b.rs", 1);
    let b = at(RuleId::GhostCommand, Severity::Notice, "a.rs", 5);
    let c = at(RuleId::EnvMismatch, Severity::Notice, "a.rs", 5);
    let d = at(RuleId::SymbolAbsence, Severity::Notice, "a.rs", 2);
    let out = sort_divergences(vec![a.clone(), b.clone(), c.clone(), d.clone()]);
    assert_eq!(out, vec![d, c, b, a]);
}

#[test]
fn sort_compares_files_as_paths() {
    let dash = at(RuleId::SymbolAbsence, Severity::Notice, "a-b/c.rs", 1);
    let nested = at(RuleId::SymbolAbsence, Severity::Notice, "a/b.rs", 1);
    let out = sort_divergences(vec![dash.clone(), nested.clone()]);
    assert_eq!(out, vec![nested, dash]);
}

#[test]
fn sort_ignores_arrival_order() {
    let a = at(RuleId::LyingTest, Severity::Notice, "src/a.rs", 3);
    let b = at(RuleId::GhostCommand, Severity::Warning, "src/a.rs", 3);
    let c = at(RuleId::EnvMismatch, Severity::Critical, "src-x/a.rs", 1);
    let one = sort_divergences(vec![a.clone(), b.clone(), c.clone()]);
    let two = sort_divergences(vec![c.clone(), a.clone(), b.clone()]);
    assert_eq!(one, two);
    assert_eq!(one, vec![b, a, c]);
}

#[test]
fn path_less_goes_component_by_component() {
    assert!(path_less("a/b", "a-b/c"));
    assert!(!path_less("a-b/c", "a/b"));
    assert!(path_less("/z", "a"));
    assert!(path_less("./x", "a"));
    assert!(!path_less("a/b", "a//b"));
    assert!(same_path_components("a/b", "a//b/"));
    assert!(!same_path_components("a/b", "a/c"));
}

#[test]
fn text_less_is_lexicographic() {
    assert!(text_less("a", "b"));
    assert!(text_less("a", "ab"));
    assert!(!text_less("ab", "ab"));
    assert!(!text_less("b", "a"));
}

#[test]
fn strict_promotes_only_non_deterministic_rules() {
    let out = apply_strict(vec![
        at(RuleId::SymbolAbsence, Severity::Warning, "a", 1),
        at(RuleId::LyingTest, Severity::Warning, "a", 1),
        at(RuleId::OutdatedLogic, Severity::Critical, "a", 1),
    ]);
    assert_eq!(out[0].severity, Severity::Warning);
    assert_eq!(out[1].severity, Severity::Critical);
    assert_eq!(out[2].severity, Severity::Critical);
}

#[test]
fn blocking_threshold_is_inclusive() {
    let divs = vec![at(RuleId::LyingTest, Severity::Warning, "a", 1)];
    assert!(has_blocking(&divs, Severity::Warning));
    assert!(!has_blocking(&divs, Severity::Critical));
    assert!(!has_blocking(&Vec::new(), Severity::Notice));
}

#[test]
fn validation_rejects_critical_and_compile_failures() {
    assert!(validation_passes(&vec![at(RuleId::LyingTest, Severity::Warning, "a", 1)]));
    assert!(!validation_passes(&vec![at(RuleId::LyingTest, Severity::Critical, "a", 1)]));
    assert!(!validation_passes(&vec![at(RuleId::CompileFailure, Severity::Notice, "a", 1)]));
}

#[test]
fn analyzer_plan_follows_pillar() {
    assert_eq!(analyzer_plan(Pillar::Ci, false), vec![AnalyzerKind::Ci, AnalyzerKind::EnvMismatch]);
    assert_eq!(analyzer_plan(Pillar::Tests, true), vec![AnalyzerKind::Tests]);
    assert_eq!(
        analyzer_plan(Pillar::Docs, true),
        vec![
            AnalyzerKind::Docs,
            AnalyzerKind::MissingCoverage,
            AnalyzerKind::Constraint,
            AnalyzerKind::OutdatedLogic
        ]
    );
    assert_eq!(analyzer_plan(Pillar::All, false).len(), 9);
    assert_eq!(analyzer_plan(Pillar::All, true).len(), 10);
}
