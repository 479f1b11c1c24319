use spec_drift::domain::{finding, Confidence, Location, RuleId, Severity};

#[test]
fn severity_orders_notice_lt_warning_lt_critical() {
    assert!(Severity::Notice < Severity::Warning);
    assert!(Severity::Warning < Severity::Critical);
}

#[test]
fn severity_promoted_saturates_at_critical() {
    assert_eq!(Severity::Notice.promoted(), Severity::Warning);
    assert_eq!(Severity::Warning.promoted(), Severity::Critical);
    assert_eq!(Severity::Critical.promoted(), Severity::Critical);
}

#[test]
fn confidence_matches_readme_matrix() {
    assert_eq!(RuleId::SymbolAbsence.confidence(), Confidence::Deterministic);
    assert_eq!(RuleId::GhostCommand.confidence(), Confidence::Deterministic);
    assert_eq!(RuleId::LyingTest.confidence(), Confidence::Heuristic);
    assert_eq!(RuleId::EnvMismatch.confidence(), Confidence::Heuristic);
    assert_eq!(RuleId::OutdatedLogic.confidence(), Confidence::Experimental);
}

#[test]
fn location_sorts_by_file_then_line() {
    let a = Location::new("a.rs", 10);
    let b = Location::new("a.rs", 20);
    let c = Location::new("b.rs", 1);
    let mut v = vec![c.clone(), b.clone(), a.clone()];
    v.sort();
    assert_eq!(v, vec![a, b, c]);
}

#[test]
fn rule_names_are_snake_case() {
    assert_eq!(RuleId::SymbolAbsence.as_str(), "symbol_absence");
    assert_eq!(RuleId::ConstraintViolation.as_str(), "constraint_violation");
    assert_eq!(RuleId::EnvMismatch.as_str(), "env_mismatch");
    assert_eq!(RuleId::MissingCoverage.as_str(), "missing_coverage");
}

#[test]
fn severity_rank_and_at_least_follow_the_order() {
    assert_eq!(Severity::Notice.rank(), 0);
    assert_eq!(Severity::Critical.rank(), 2);
    assert!(Severity::Critical.at_least(&Severity::Warning));
    assert!(Severity::Warning.at_least(&Severity::Warning));
    assert!(!Severity::Notice.at_least(&Severity::Warning));
}

#[test]
fn promoting_twice_always_reaches_critical() {
    for s in [Severity::Notice, Severity::Warning, Severity::Critical] {
        assert_eq!(s.promoted().promoted(), Severity::Critical);
    }
}

#[test]
fn severity_glyphs_match_the_human_report() {
    assert_eq!(Severity::Critical.glyph(), "❌ CRITICAL");
    assert_eq!(Severity::Notice.glyph(), "🟡 NOTICE");
}

#[test]
fn finding_builds_an_unattributed_divergence() {
    let d = finding(
        RuleId::GhostCommand,
        Severity::Warning,
        "Makefile",
        3,
        "s".to_string(),
        "r".to_string(),
        "k",
    );
    assert_eq!(d.location, Location::new("Makefile", 3));
    assert_eq!(d.risk, "k");
    assert!(d.attribution.is_none());
}
